//! Minimal DWARF reader for the glibc malloc structures consumed by this tool.
//!
//! The extracted layout is applied to the existing `DetectedLayout`; if any
//! required type is unavailable, ambiguous, or fails validation, the caller keeps
//! the complete built-in layout.

use vstd::prelude::*;

use crate::text;

pub mod assemble;
pub mod assemble_laws;
pub mod limit_laws;
pub mod limits;
pub mod reader;
pub mod scan;
pub mod scan_laws;
pub mod section_laws;
pub mod sections;
pub mod structure_laws;
pub mod structures;
pub mod type_laws;
pub mod types;

verus! {

/// The offsets that one set of DWARF types gives.
#[derive(Debug, Clone, Copy, PartialEq, Eq, Structural)]
pub struct DwarfLayout {
    pub malloc_state_size: u32,
    pub fastbin_array_offset: u32,
    pub fastbin_count: u32,
    pub malloc_state_top_offset: u32,
    pub malloc_state_next_offset: u32,
    pub mp_arena_max_offset: Option<u32>,
    pub mp_sbrk_base_offset: u32,
    pub mp_tcache_bins_offset: Option<u32>,
    pub heap_info_size: u32,
    pub heap_info_ar_ptr_offset: u32,
    pub heap_info_prev_offset: u32,
    pub heap_info_size_offset: u32,
    pub heap_info_mprotect_size_offset: u32,
    pub tcache_entries_offset: Option<u32>,
    pub tcache_max_bins: Option<u32>,
}

/// Why DWARF gave no layout.
#[derive(Debug)]
pub enum DwarfLayoutError {
    Unavailable,
    Unsupported(&'static str),
    Limit(&'static str),
    Invalid(String),
    Parse(String),
}

/// A [`DwarfLayoutError`] with its texts as character sequences. What the parser
/// said of broken data is left out: it may name addresses of the process.
pub enum DwarfError {
    Unavailable,
    Unsupported(Seq<char>),
    Limit(Seq<char>),
    Invalid(Seq<char>),
    Parse,
}

impl View for DwarfLayoutError {
    type V = DwarfError;

    open spec fn view(&self) -> DwarfError {
        match *self {
            DwarfLayoutError::Unavailable => DwarfError::Unavailable,
            DwarfLayoutError::Unsupported(what) => DwarfError::Unsupported(what@),
            DwarfLayoutError::Limit(what) => DwarfError::Limit(what@),
            DwarfLayoutError::Invalid(what) => DwarfError::Invalid(what@),
            DwarfLayoutError::Parse(_) => DwarfError::Parse,
        }
    }
}

impl DwarfError {
    /// Whether `s` is the one-line explanation of the failure.
    pub open spec fn explained_by(self, s: Seq<char>) -> bool {
        match self {
            DwarfError::Unavailable => s == "DWARF debug_info is unavailable"@,
            DwarfError::Unsupported(what) => s == "unsupported DWARF feature: "@ + what,
            DwarfError::Limit(what) => s == "DWARF resource limit exceeded: "@ + what,
            DwarfError::Invalid(what) => s == "invalid DWARF malloc layout: "@ + what,
            DwarfError::Parse => text::starts_with(s, "failed to parse DWARF: "@),
        }
    }
}

impl DwarfLayoutError {
    /// The one-line explanation of the failure.
    pub fn message(&self) -> (s: String)
        ensures
            self@.explained_by(s@),
            self matches DwarfLayoutError::Parse(what) ==> s@ == "failed to parse DWARF: "@ + what@,
    {
        match self {
            DwarfLayoutError::Unavailable => "DWARF debug_info is unavailable".to_owned(),
            DwarfLayoutError::Unsupported(what) => {
                text::concat2("unsupported DWARF feature: ", what)
            },
            DwarfLayoutError::Limit(what) => {
                text::concat2("DWARF resource limit exceeded: ", what)
            },
            DwarfLayoutError::Invalid(what) => text::concat2("invalid DWARF malloc layout: ", what),
            DwarfLayoutError::Parse(what) => {
                let s = text::concat2("failed to parse DWARF: ", what);
                assert(s@.take("failed to parse DWARF: "@.len() as int)
                    =~= "failed to parse DWARF: "@);
                s
            },
        }
    }
}

impl Clone for DwarfLayoutError {
    fn clone(&self) -> (copy: DwarfLayoutError)
        ensures
            copy@ == self@,
    {
        match self {
            DwarfLayoutError::Unavailable => DwarfLayoutError::Unavailable,
            DwarfLayoutError::Unsupported(what) => DwarfLayoutError::Unsupported(what),
            DwarfLayoutError::Limit(what) => DwarfLayoutError::Limit(what),
            DwarfLayoutError::Invalid(what) => DwarfLayoutError::Invalid(what.clone()),
            DwarfLayoutError::Parse(what) => DwarfLayoutError::Parse(what.clone()),
        }
    }
}

/// What reading DWARF gives.
pub type Outcome<T> = std::result::Result<T, DwarfLayoutError>;

/// An [`Outcome`] with its error as a view.
pub open spec fn outcome<T>(r: std::result::Result<T, DwarfLayoutError>) -> std::result::Result<
    T,
    DwarfError,
> {
    match r {
        Ok(v) => Ok(v),
        Err(e) => Err(e@),
    }
}

/// The malloc structures whose layout is read.
#[derive(Debug, Clone, Copy, PartialEq, Eq, Structural, PartialOrd, Ord)]
pub enum Target {
    MallocState,
    MallocPar,
    HeapInfo,
    Tcache,
}

impl Target {
    /// The name of the structure.
    pub open spec fn title(self) -> Seq<char> {
        match self {
            Target::MallocState => "malloc_state"@,
            Target::MallocPar => "malloc_par"@,
            Target::HeapInfo => "heap_info"@,
            Target::Tcache => "tcache_perthread_struct"@,
        }
    }

    pub fn name(self) -> (s: &'static str)
        ensures
            s@ == self.title(),
    {
        match self {
            Target::MallocState => "malloc_state",
            Target::MallocPar => "malloc_par",
            Target::HeapInfo => "heap_info",
            Target::Tcache => "tcache_perthread_struct",
        }
    }

    /// The members of the structure that are read.
    pub open spec fn wanted(self) -> Seq<Seq<char>> {
        match self {
            Target::MallocState => seq!["fastbinsY"@, "top"@, "next"@],
            Target::MallocPar => seq!["arena_max"@, "sbrk_base"@, "tcache_bins"@],
            Target::HeapInfo => seq!["ar_ptr"@, "prev"@, "size"@, "mprotect_size"@],
            Target::Tcache => seq!["counts"@, "entries"@],
        }
    }

    pub fn wanted_members(self) -> (names: Vec<&'static str>)
        ensures
            names@.map_values(|s: &'static str| s@) == self.wanted(),
    {
        let names: Vec<&'static str> = match self {
            Target::MallocState => vec!["fastbinsY", "top", "next"],
            Target::MallocPar => vec!["arena_max", "sbrk_base", "tcache_bins"],
            Target::HeapInfo => vec!["ar_ptr", "prev", "size", "mprotect_size"],
            Target::Tcache => vec!["counts", "entries"],
        };
        assert(names@.map_values(|s: &'static str| s@) =~= self.wanted());
        names
    }

    /// Whether a member of this name is read.
    pub fn wants(self, name: &str) -> (r: bool)
        ensures
            r == self.wanted().contains(name@),
    {
        let names: Vec<&'static str> = self.wanted_members();
        let ghost all = names@.map_values(|s: &'static str| s@);
        let mut i: usize = 0;
        while i < names.len()
            invariant
                i <= names@.len(),
                all == names@.map_values(|s: &'static str| s@),
                all == self.wanted(),
                forall|k: int| 0 <= k < i ==> all[k] != name@,
            decreases names@.len() - i,
        {
            if text::str_equal(names[i], name) {
                assert(all[i as int] == name@);
                return true;
            }
            i = i + 1;
        }
        false
    }
}

#[derive(Debug, Clone, Copy, PartialEq, Eq, Structural, PartialOrd, Ord)]
pub enum TypeKind {
    Pointer,
    Unsigned,
    Signed,
    Array,
    Structure,
    Other,
}

#[derive(Debug, Clone, Copy, PartialEq, Eq, Structural, PartialOrd, Ord)]
pub struct TypeInfo {
    pub kind: TypeKind,
    pub byte_size: Option<u64>,
    pub element_kind: Option<TypeKind>,
    pub element_size: Option<u64>,
    pub element_count: Option<u64>,
}

/// A member of a structure.
#[derive(Debug)]
pub struct Member {
    pub name: String,
    pub offset: u64,
    pub ty: TypeInfo,
}

/// A [`Member`] with its name as a character sequence.
#[verifier::ext_equal]
pub struct MemberView {
    pub name: Seq<char>,
    pub offset: u64,
    pub ty: TypeInfo,
}

impl View for Member {
    type V = MemberView;

    open spec fn view(&self) -> MemberView {
        MemberView { name: self.name@, offset: self.offset, ty: self.ty }
    }
}

impl Clone for Member {
    fn clone(&self) -> (copy: Member)
        ensures
            copy@ == self@,
    {
        Member { name: self.name.clone(), offset: self.offset, ty: self.ty }
    }
}

/// The views of members, in order.
pub open spec fn member_views(members: Seq<Member>) -> Seq<MemberView> {
    members.map_values(|m: Member| m@)
}

/// A structure type: its size and the members that are read.
#[derive(Debug)]
pub struct Structure {
    pub byte_size: u64,
    pub members: Vec<Member>,
}

/// A [`Structure`] with its members as a sequence.
#[verifier::ext_equal]
pub struct StructureView {
    pub byte_size: u64,
    pub members: Seq<MemberView>,
}

impl View for Structure {
    type V = StructureView;

    open spec fn view(&self) -> StructureView {
        StructureView { byte_size: self.byte_size, members: member_views(self.members@) }
    }
}

/// What was found of one target: the definitions, if any, and the first error met
/// in reading one.
#[derive(Debug)]
pub struct Findings {
    pub candidates: Option<Vec<Structure>>,
    pub error: Option<DwarfLayoutError>,
}

/// [`Findings`] as sequences.
#[verifier::ext_equal]
pub struct FindingsView {
    pub candidates: Option<Seq<StructureView>>,
    pub error: Option<DwarfError>,
}

/// The views of structures, in order.
pub open spec fn structure_views(structures: Seq<Structure>) -> Seq<StructureView> {
    structures.map_values(|s: Structure| s@)
}

impl View for Findings {
    type V = FindingsView;

    open spec fn view(&self) -> FindingsView {
        FindingsView {
            candidates: match self.candidates {
                Some(found) => Some(structure_views(found@)),
                None => None,
            },
            error: match self.error {
                Some(e) => Some(e@),
                None => None,
            },
        }
    }
}

impl FindingsView {
    /// Nothing found.
    pub open spec fn nothing() -> FindingsView {
        FindingsView { candidates: None, error: None }
    }
}

impl Default for Findings {
    fn default() -> (f: Findings)
        ensures
            f@ == FindingsView::nothing(),
    {
        Findings { candidates: None, error: None }
    }
}

/// What was found of every target.
#[derive(Debug)]
pub struct TypeIndex {
    pub malloc_state: Findings,
    pub malloc_par: Findings,
    pub heap_info: Findings,
    pub tcache: Findings,
}

/// A [`TypeIndex`] as sequences.
#[verifier::ext_equal]
pub struct TypeIndexView {
    pub malloc_state: FindingsView,
    pub malloc_par: FindingsView,
    pub heap_info: FindingsView,
    pub tcache: FindingsView,
}

impl View for TypeIndex {
    type V = TypeIndexView;

    open spec fn view(&self) -> TypeIndexView {
        TypeIndexView {
            malloc_state: self.malloc_state@,
            malloc_par: self.malloc_par@,
            heap_info: self.heap_info@,
            tcache: self.tcache@,
        }
    }
}

impl TypeIndexView {
    /// What was found of a target.
    pub open spec fn of(self, target: Target) -> FindingsView {
        match target {
            Target::MallocState => self.malloc_state,
            Target::MallocPar => self.malloc_par,
            Target::HeapInfo => self.heap_info,
            Target::Tcache => self.tcache,
        }
    }
}

impl Default for TypeIndex {
    fn default() -> (index: TypeIndex)
        ensures
            forall|target: Target| (#[trigger] index@.of(target)) == FindingsView::nothing(),
    {
        TypeIndex {
            malloc_state: Findings::default(),
            malloc_par: Findings::default(),
            heap_info: Findings::default(),
            tcache: Findings::default(),
        }
    }
}

impl TypeIndex {
    /// What was found of a target.
    pub fn findings(&self, target: Target) -> (f: &Findings)
        ensures
            f@ == self@.of(target),
    {
        match target {
            Target::MallocState => &self.malloc_state,
            Target::MallocPar => &self.malloc_par,
            Target::HeapInfo => &self.heap_info,
            Target::Tcache => &self.tcache,
        }
    }
}

} // verus!
