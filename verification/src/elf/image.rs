//! ELF files: their tables, and reading memory through their segments.

use vstd::prelude::*;
use vstd::string::*;

use goblin::elf::Elf as GoblinElf;

use crate::error;
use crate::error::{Error, Result};

use super::notes;
use super::MemReader;

verus! {

/// `PT_LOAD`, a segment that was mapped.
pub const PT_LOAD: u32 = 1;

/// `PT_NOTE`, a segment of notes.
pub const PT_NOTE: u32 = 4;

/// `SHT_NOTE`, a section of notes.
pub const SHT_NOTE: u32 = 7;

/// What the analysis reads of a program header.
#[derive(Debug, Clone, Copy)]
pub struct ProgramHeader {
    pub p_type: u32,
    pub p_offset: u64,
    pub p_vaddr: u64,
    pub p_filesz: u64,
}

/// What the analysis reads of a section header. The name is absent where the
/// section name table has none at the header's offset.
#[derive(Debug)]
pub struct Section {
    pub name: Option<String>,
    pub sh_type: u32,
    pub sh_flags: u64,
    pub sh_offset: u64,
    pub sh_size: u64,
}

/// What the analysis reads of a symbol. Section index zero is that of undefined
/// symbols.
#[derive(Debug)]
pub struct Symbol {
    pub name: Option<String>,
    pub shndx: usize,
    pub value: u64,
    pub size: u64,
}

/// What the analysis reads of a dynamic relocation with addend.
#[derive(Debug, Clone, Copy)]
pub struct Relocation {
    pub r_offset: u64,
    pub r_addend: Option<i64>,
    pub r_type: u32,
}

/// The tables of an ELF file.
#[derive(Debug)]
pub struct ElfTables {
    pub is_64: bool,
    pub little_endian: bool,
    pub machine: u16,
    pub program_headers: Vec<ProgramHeader>,
    pub sections: Vec<Section>,
    pub symbols: Vec<Symbol>,
    pub relocations: Vec<Relocation>,
    /// Per version definition, the names of its auxiliary entries.
    pub versions: Vec<Vec<Option<String>>>,
}

/// A [`Section`] with its name as a character sequence.
#[verifier::ext_equal]
pub struct SectionView {
    pub name: Option<Seq<char>>,
    pub sh_type: u32,
    pub sh_flags: u64,
    pub sh_offset: u64,
    pub sh_size: u64,
}

/// A [`Symbol`] with its name as a character sequence.
#[verifier::ext_equal]
pub struct SymbolView {
    pub name: Option<Seq<char>>,
    pub shndx: usize,
    pub value: u64,
    pub size: u64,
}

/// [`ElfTables`] as sequences.
#[verifier::ext_equal]
pub struct ElfFile {
    pub is_64: bool,
    pub little_endian: bool,
    pub machine: u16,
    pub program_headers: Seq<ProgramHeader>,
    pub sections: Seq<SectionView>,
    pub symbols: Seq<SymbolView>,
    pub relocations: Seq<Relocation>,
    pub versions: Seq<Seq<Option<Seq<char>>>>,
}

/// A text that may be absent.
pub open spec fn text_of(name: Option<String>) -> Option<Seq<char>> {
    match name {
        Some(s) => Some(s@),
        None => None,
    }
}

impl View for Section {
    type V = SectionView;

    open spec fn view(&self) -> SectionView {
        SectionView {
            name: text_of(self.name),
            sh_type: self.sh_type,
            sh_flags: self.sh_flags,
            sh_offset: self.sh_offset,
            sh_size: self.sh_size,
        }
    }
}

impl View for Symbol {
    type V = SymbolView;

    open spec fn view(&self) -> SymbolView {
        SymbolView {
            name: text_of(self.name),
            shndx: self.shndx,
            value: self.value,
            size: self.size,
        }
    }
}

/// The names of one version definition.
pub open spec fn texts_of(names: Seq<Option<String>>) -> Seq<Option<Seq<char>>> {
    names.map_values(|n: Option<String>| text_of(n))
}

impl View for ElfTables {
    type V = ElfFile;

    open spec fn view(&self) -> ElfFile {
        ElfFile {
            is_64: self.is_64,
            little_endian: self.little_endian,
            machine: self.machine,
            program_headers: self.program_headers@,
            sections: self.sections@.map_values(|s: Section| s@),
            symbols: self.symbols@.map_values(|s: Symbol| s@),
            relocations: self.relocations@,
            versions: self.versions@.map_values(|v: Vec<Option<String>>| texts_of(v@)),
        }
    }
}

#[verifier::external_type_specification]
#[verifier::external_body]
pub struct ExGoblinElf<'a>(GoblinElf<'a>);

/// What `goblin::elf::Elf::parse` makes of a file: its tables, or the text of
/// the error.
pub uninterp spec fn parsed(data: Seq<u8>) -> std::result::Result<ElfFile, Seq<char>>;

/// The tables that a parsed file holds.
pub uninterp spec fn tables_of(elf: GoblinElf<'_>) -> ElfFile;

/// Parse a file with `goblin::elf::Elf::parse`. The outcome depends on the bytes
/// alone; the error is kept as its text.
#[verifier::external_body]
fn goblin_parse<'a>(data: &'a [u8]) -> (r: std::result::Result<GoblinElf<'a>, String>)
    ensures
        r is Ok ==> parsed(data@) == Ok::<ElfFile, Seq<char>>(tables_of(r->Ok_0)),
        r is Err ==> parsed(data@) == Err::<ElfFile, Seq<char>>((r->Err_0)@),
{
    GoblinElf::parse(data).map_err(|e| e.to_string())
}

/// The scalars of a file and the lengths of its tables.
struct TableSizes {
    is_64: bool,
    little_endian: bool,
    machine: u16,
    program_headers: usize,
    sections: usize,
    symbols: usize,
    relocations: usize,
}

/// Class, byte order and machine of a parsed file, and the `len` of its vectors
/// of headers, of its `Symtab` and of its `RelocSection`.
#[verifier::external_body]
fn table_sizes(elf: &GoblinElf<'_>) -> (r: TableSizes)
    ensures
        r.is_64 == tables_of(*elf).is_64,
        r.little_endian == tables_of(*elf).little_endian,
        r.machine == tables_of(*elf).machine,
        r.program_headers == tables_of(*elf).program_headers.len(),
        r.sections == tables_of(*elf).sections.len(),
        r.symbols == tables_of(*elf).symbols.len(),
        r.relocations == tables_of(*elf).relocations.len(),
{
    TableSizes {
        is_64: elf.is_64,
        little_endian: elf.little_endian,
        machine: elf.header.e_machine,
        program_headers: elf.program_headers.len(),
        sections: elf.section_headers.len(),
        symbols: elf.syms.len(),
        relocations: elf.dynrelas.len(),
    }
}

/// The program header at an index of a parsed file.
#[verifier::external_body]
fn program_header_at(elf: &GoblinElf<'_>, i: usize) -> (r: ProgramHeader)
    requires
        i < tables_of(*elf).program_headers.len(),
    ensures
        r == tables_of(*elf).program_headers[i as int],
{
    let ph = &elf.program_headers[i];
    ProgramHeader {
        p_type: ph.p_type,
        p_offset: ph.p_offset,
        p_vaddr: ph.p_vaddr,
        p_filesz: ph.p_filesz,
    }
}

/// The section header at an index of a parsed file, its name looked up with
/// `Strtab::get_at` in the section name table.
#[verifier::external_body]
fn section_at(elf: &GoblinElf<'_>, i: usize) -> (r: Section)
    requires
        i < tables_of(*elf).sections.len(),
    ensures
        r@ == tables_of(*elf).sections[i as int],
{
    let section = &elf.section_headers[i];
    Section {
        name: elf.shdr_strtab.get_at(section.sh_name).map(String::from),
        sh_type: section.sh_type,
        sh_flags: section.sh_flags,
        sh_offset: section.sh_offset,
        sh_size: section.sh_size,
    }
}

/// The symbol that `Symtab::get` has at an index, its name looked up with
/// `Strtab::get_at` in the symbol name table. It has one at every index below its
/// length.
#[verifier::external_body]
fn symbol_at(elf: &GoblinElf<'_>, i: usize) -> (r: Option<Symbol>)
    ensures
        r is Some <==> i < tables_of(*elf).symbols.len(),
        r matches Some(s) ==> s@ == tables_of(*elf).symbols[i as int],
{
    match elf.syms.get(i) {
        Some(sym) => Some(Symbol {
            name: elf.strtab.get_at(sym.st_name).map(String::from),
            shndx: sym.st_shndx,
            value: sym.st_value,
            size: sym.st_size,
        }),
        None => None,
    }
}

/// The dynamic relocation that `RelocSection::get` has at an index. It has one at
/// every index below its length.
#[verifier::external_body]
fn relocation_at(elf: &GoblinElf<'_>, i: usize) -> (r: Option<Relocation>)
    ensures
        r is Some <==> i < tables_of(*elf).relocations.len(),
        r matches Some(v) ==> v == tables_of(*elf).relocations[i as int],
{
    match elf.dynrelas.get(i) {
        Some(r) => Some(
            Relocation { r_offset: r.r_offset, r_addend: r.r_addend, r_type: r.r_type },
        ),
        None => None,
    }
}

/// How many definitions iterating goblin's `VerdefSection` yields.
#[verifier::external_body]
fn version_count(elf: &GoblinElf<'_>) -> (r: usize)
    ensures
        r == tables_of(*elf).versions.len(),
{
    match &elf.verdef {
        Some(section) => section.into_iter().count(),
        None => 0,
    }
}

/// How many auxiliary entries iterating goblin's `Verdef` at an index yields.
#[verifier::external_body]
fn version_entry_count(elf: &GoblinElf<'_>, i: usize) -> (r: usize)
    requires
        i < tables_of(*elf).versions.len(),
    ensures
        r == tables_of(*elf).versions[i as int].len(),
{
    match &elf.verdef {
        Some(section) => match section.into_iter().nth(i) {
            Some(definition) => (&definition).into_iter().count(),
            None => 0,
        },
        None => 0,
    }
}

/// The name of auxiliary entry `j` of version definition `i`, in the order in
/// which goblin iterates them, as `Strtab::get_at` finds it in the dynamic string
/// table.
#[verifier::external_body]
fn version_name(elf: &GoblinElf<'_>, i: usize, j: usize) -> (r: Option<String>)
    requires
        i < tables_of(*elf).versions.len(),
        j < tables_of(*elf).versions[i as int].len(),
    ensures
        text_of(r) == tables_of(*elf).versions[i as int][j as int],
{
    match &elf.verdef {
        Some(section) => match section.into_iter().nth(i) {
            Some(definition) => match (&definition).into_iter().nth(j) {
                Some(aux) => elf.dynstrtab.get_at(aux.vda_name).map(String::from),
                None => None,
            },
            None => None,
        },
        None => None,
    }
}

fn read_program_headers(elf: &GoblinElf<'_>, n: usize) -> (r: Vec<ProgramHeader>)
    requires
        n == tables_of(*elf).program_headers.len(),
    ensures
        r@ == tables_of(*elf).program_headers,
{
    let mut out: Vec<ProgramHeader> = Vec::new();
    let mut i: usize = 0;
    while i < n
        invariant
            i <= n,
            n == tables_of(*elf).program_headers.len(),
            out@ == tables_of(*elf).program_headers.take(i as int),
        decreases n - i,
    {
        out.push(program_header_at(elf, i));
        i = i + 1;
        assert(out@ =~= tables_of(*elf).program_headers.take(i as int));
    }
    assert(tables_of(*elf).program_headers.take(i as int) =~= tables_of(*elf).program_headers);
    out
}

fn read_sections(elf: &GoblinElf<'_>, n: usize) -> (r: Vec<Section>)
    requires
        n == tables_of(*elf).sections.len(),
    ensures
        r@.map_values(|s: Section| s@) == tables_of(*elf).sections,
{
    let mut out: Vec<Section> = Vec::new();
    let mut i: usize = 0;
    while i < n
        invariant
            i <= n,
            n == tables_of(*elf).sections.len(),
            out@.len() == i,
            forall|k: int| 0 <= k < i ==> (#[trigger] out@[k])@ == tables_of(*elf).sections[k],
        decreases n - i,
    {
        out.push(section_at(elf, i));
        i = i + 1;
    }
    assert(out@.map_values(|s: Section| s@) =~= tables_of(*elf).sections);
    out
}

fn read_symbols(elf: &GoblinElf<'_>, n: usize) -> (r: Vec<Symbol>)
    requires
        n == tables_of(*elf).symbols.len(),
    ensures
        r@.map_values(|s: Symbol| s@) == tables_of(*elf).symbols,
{
    let mut out: Vec<Symbol> = Vec::new();
    let mut i: usize = 0;
    while i < n
        invariant
            i <= n,
            n == tables_of(*elf).symbols.len(),
            out@.len() == i,
            forall|k: int| 0 <= k < i ==> (#[trigger] out@[k])@ == tables_of(*elf).symbols[k],
        decreases n - i,
    {
        if let Some(symbol) = symbol_at(elf, i) {
            out.push(symbol);
        }
        i = i + 1;
    }
    assert(out@.map_values(|s: Symbol| s@) =~= tables_of(*elf).symbols);
    out
}

fn read_relocations(elf: &GoblinElf<'_>, n: usize) -> (r: Vec<Relocation>)
    requires
        n == tables_of(*elf).relocations.len(),
    ensures
        r@ == tables_of(*elf).relocations,
{
    let mut out: Vec<Relocation> = Vec::new();
    let mut i: usize = 0;
    while i < n
        invariant
            i <= n,
            n == tables_of(*elf).relocations.len(),
            out@ == tables_of(*elf).relocations.take(i as int),
        decreases n - i,
    {
        if let Some(relocation) = relocation_at(elf, i) {
            out.push(relocation);
        }
        i = i + 1;
        assert(out@ =~= tables_of(*elf).relocations.take(i as int));
    }
    assert(tables_of(*elf).relocations.take(i as int) =~= tables_of(*elf).relocations);
    out
}

fn read_version(elf: &GoblinElf<'_>, i: usize) -> (r: Vec<Option<String>>)
    requires
        i < tables_of(*elf).versions.len(),
    ensures
        texts_of(r@) == tables_of(*elf).versions[i as int],
{
    let n: usize = version_entry_count(elf, i);
    let mut out: Vec<Option<String>> = Vec::new();
    let mut j: usize = 0;
    while j < n
        invariant
            j <= n,
            i < tables_of(*elf).versions.len(),
            n == tables_of(*elf).versions[i as int].len(),
            out@.len() == j,
            forall|k: int|
                0 <= k < j ==> text_of(#[trigger] out@[k]) == tables_of(*elf).versions[i as int][k],
        decreases n - j,
    {
        out.push(version_name(elf, i, j));
        j = j + 1;
    }
    assert(texts_of(out@) =~= tables_of(*elf).versions[i as int]);
    out
}

fn read_versions(elf: &GoblinElf<'_>) -> (r: Vec<Vec<Option<String>>>)
    ensures
        r@.map_values(|v: Vec<Option<String>>| texts_of(v@)) == tables_of(*elf).versions,
{
    let n: usize = version_count(elf);
    let mut out: Vec<Vec<Option<String>>> = Vec::new();
    let mut i: usize = 0;
    while i < n
        invariant
            i <= n,
            n == tables_of(*elf).versions.len(),
            out@.len() == i,
            forall|k: int|
                0 <= k < i ==> texts_of((#[trigger] out@[k])@) == tables_of(*elf).versions[k],
        decreases n - i,
    {
        out.push(read_version(elf, i));
        i = i + 1;
    }
    assert(out@.map_values(|v: Vec<Option<String>>| texts_of(v@)) =~= tables_of(*elf).versions);
    out
}

fn read_tables(elf: &GoblinElf<'_>) -> (r: ElfTables)
    ensures
        r@ == tables_of(*elf),
{
    let sizes = table_sizes(elf);
    ElfTables {
        is_64: sizes.is_64,
        little_endian: sizes.little_endian,
        machine: sizes.machine,
        program_headers: read_program_headers(elf, sizes.program_headers),
        sections: read_sections(elf, sizes.sections),
        symbols: read_symbols(elf, sizes.symbols),
        relocations: read_relocations(elf, sizes.relocations),
        versions: read_versions(elf),
    }
}

/// Owns the raw bytes of an ELF file (a core dump or a reference libc).
#[derive(Debug)]
pub struct Image {
    data: Vec<u8>,
}

impl Image {
    /// The bytes of the file.
    pub closed spec fn contents(self) -> Seq<u8> {
        self.data@
    }

    /// Build an image from in-memory bytes.
    pub fn from_bytes(data: Vec<u8>) -> (r: Result<Image>)
        ensures
            r is Ok <==> has_magic(data@),
            r matches Ok(image) ==> image.contents() == data@,
            r matches Err(e) ==> e@ == (error::ErrorView::NotElf { path: "<memory>"@ }),
    {
        match check_magic(&data, "<memory>") {
            Ok(_) => Ok(Image { data }),
            Err(e) => Err(e),
        }
    }

    pub fn bytes(&self) -> (r: &[u8])
        ensures
            r@ == self.contents(),
    {
        self.data.as_slice()
    }

    pub fn parse(&self) -> (r: Result<Elf<'_>>)
        ensures
            parse_is(self.contents(), r),
    {
        Elf::parse(self.bytes())
    }
}

/// The first four bytes are those of every ELF file.
pub open spec fn has_magic(data: Seq<u8>) -> bool {
    &&& data.len() >= 4
    &&& data[0] == 0x7f
    &&& data[1] == 0x45
    &&& data[2] == 0x4c
    &&& data[3] == 0x46
}

/// Whether `data` starts with the ELF magic.
pub fn starts_with_magic(data: &[u8]) -> (r: bool)
    ensures
        r == has_magic(data@),
{
    data.len() >= 4 && data[0] == 0x7f && data[1] == 0x45 && data[2] == 0x4c && data[3] == 0x46
}

/// Refuse a file that does not start with the ELF magic, naming its path.
pub fn check_magic(data: &[u8], path: &str) -> (r: Result<()>)
    ensures
        r is Ok <==> has_magic(data@),
        r matches Err(e) ==> e@ == (error::ErrorView::NotElf { path: path@ }),
{
    if starts_with_magic(data) {
        Ok(())
    } else {
        Err(Error::NotElf { path: path.to_owned() })
    }
}

/// A parsed ELF: its tables, and the bytes they were read from.
#[derive(Debug)]
pub struct Elf<'a> {
    pub tables: ElfTables,
    pub data: &'a [u8],
}

/// Whether `r` is what parsing `data` should give.
pub open spec fn parse_is(data: Seq<u8>, r: Result<Elf<'_>>) -> bool {
    match r {
        Ok(elf) => elf.data@ == data && parsed(data) == Ok::<ElfFile, Seq<char>>(elf.tables@),
        Err(e) => e@ is ElfParse && parsed(data) == Err::<ElfFile, Seq<char>>(e@->ElfParse_0),
    }
}

/// The `[start, end)` file-backed virtual range of the first `PT_LOAD` segment,
/// from header `i` on, that contains `addr`. A segment that runs past the end of
/// the address space has no such range.
pub open spec fn segment_from(headers: Seq<ProgramHeader>, i: int, addr: u64) -> Option<(u64, u64)>
    decreases headers.len() - i,
{
    if i < 0 || i >= headers.len() {
        None
    } else {
        let ph = headers[i];
        if ph.p_type != PT_LOAD {
            segment_from(headers, i + 1, addr)
        } else if ph.p_vaddr + ph.p_filesz > u64::MAX {
            segment_from(headers, i + 1, addr)
        } else if ph.p_vaddr <= addr < ph.p_vaddr + ph.p_filesz {
            Some((ph.p_vaddr, (ph.p_vaddr + ph.p_filesz) as u64))
        } else {
            segment_from(headers, i + 1, addr)
        }
    }
}

/// A segment has the `len` bytes at `addr` in the file.
pub open spec fn backs(ph: ProgramHeader, file_len: nat, addr: u64, len: nat) -> bool {
    &&& ph.p_type == PT_LOAD
    &&& ph.p_vaddr <= addr
    &&& addr - ph.p_vaddr + len <= ph.p_filesz
    &&& ph.p_offset + (addr - ph.p_vaddr) + len <= file_len
}

/// The file offset of the `len` bytes at `addr`, in the first segment, from
/// header `i` on, that has them.
pub open spec fn offset_from(
    headers: Seq<ProgramHeader>,
    i: int,
    file_len: nat,
    addr: u64,
    len: nat,
) -> Option<int>
    decreases headers.len() - i,
{
    if i < 0 || i >= headers.len() {
        None
    } else if backs(headers[i], file_len, addr, len) {
        Some(headers[i].p_offset + (addr - headers[i].p_vaddr))
    } else {
        offset_from(headers, i + 1, file_len, addr, len)
    }
}

impl<'a> Elf<'a> {
    /// File offset of the `len` bytes at a virtual address.
    pub open spec fn offset_of(self, addr: u64, len: nat) -> Option<int> {
        offset_from(self.tables.program_headers@, 0, self.data@.len(), addr, len)
    }

    /// The `len` bytes at a virtual address.
    pub open spec fn bytes_at(
        self,
        addr: u64,
        len: nat,
    ) -> std::result::Result<Seq<u8>, error::ErrorView> {
        match self.offset_of(addr, len) {
            Some(off) => Ok(self.data@.subrange(off, off + len)),
            None => Err(error::ErrorView::AddressNotMapped { addr }),
        }
    }

    /// The file-backed segment around a virtual address.
    pub open spec fn bounds_at(self, addr: u64) -> Option<(u64, u64)> {
        segment_from(self.tables.program_headers@, 0, addr)
    }

    pub fn parse(data: &'a [u8]) -> (r: Result<Elf<'a>>)
        ensures
            parse_is(data@, r),
    {
        match goblin_parse(data) {
            Ok(inner) => Ok(Elf { tables: read_tables(&inner), data }),
            Err(text) => Err(Error::ElfParse(text)),
        }
    }

    pub fn is_64bit(&self) -> (r: bool)
        ensures
            r == self.tables.is_64,
    {
        self.tables.is_64
    }

    pub fn machine(&self) -> (r: u16)
        ensures
            r == self.tables.machine,
    {
        self.tables.machine
    }

    /// The whole file. Used by `locate::compute_identity` for the content-hash
    /// fallback.
    pub fn bytes(&self) -> (r: &'a [u8])
        ensures
            r@ == self.data@,
    {
        self.data
    }

    /// The tables of the file (symbols, relocations, version definitions).
    pub fn inner(&self) -> (r: &ElfTables)
        ensures
            *r == self.tables,
    {
        &self.tables
    }

    /// The notes of every `PT_NOTE` segment, in order.
    pub fn notes(&self) -> (r: Vec<notes::Note<'a>>)
        ensures
            notes::views(r@) == notes::all_notes(self.tables.program_headers@, self.data@),
    {
        notes::walk_all_notes(&self.tables, self.data)
    }

    /// The `[start, end)` file-backed virtual range of the `PT_LOAD` segment
    /// containing `addr`, or `None` if no segment does.
    pub fn segment_bounds(&self, addr: u64) -> (r: Option<(u64, u64)>)
        ensures
            r == self.bounds_at(addr),
    {
        let headers: &Vec<ProgramHeader> = &self.tables.program_headers;
        let mut i: usize = 0;
        while i < headers.len()
            invariant
                i <= headers.len(),
                headers@ == self.tables.program_headers@,
                segment_from(headers@, i as int, addr) == self.bounds_at(addr),
            decreases headers.len() - i,
        {
            let ph = headers[i];
            if ph.p_type == PT_LOAD {
                if let Some(end) = ph.p_vaddr.checked_add(ph.p_filesz) {
                    if addr >= ph.p_vaddr && addr < end {
                        return Some((ph.p_vaddr, end));
                    }
                }
            }
            i = i + 1;
        }
        None
    }

    /// Read `len` bytes at virtual address `addr`.
    ///
    /// Only the file-backed part of a segment counts: `p_filesz` can be smaller
    /// than `p_memsz` (BSS tails, or a core truncated by `coredump_filter`), and
    /// those bytes have no file content behind them. Returning them as zeros
    /// would masquerade as a zero-sized chunk and mislead the walker, so an
    /// address past `p_filesz` is `AddressNotMapped`. All arithmetic is checked
    /// because `addr`/`len` derive from untrusted heap data.
    pub fn read_bytes(&self, addr: u64, len: usize) -> (r: Result<&'a [u8]>)
        ensures
            r matches Ok(bytes) ==> self.bytes_at(addr, len as nat) == Ok::<
                Seq<u8>,
                error::ErrorView,
            >(bytes@),
            r matches Err(e) ==> self.bytes_at(addr, len as nat) == Err::<
                Seq<u8>,
                error::ErrorView,
            >(e@),
    {
        let len_u64: u64 = len as u64;
        let headers: &Vec<ProgramHeader> = &self.tables.program_headers;
        let data: &'a [u8] = self.data;
        let file_len: usize = data.len();
        let mut i: usize = 0;
        while i < headers.len()
            invariant
                i <= headers.len(),
                headers@ == self.tables.program_headers@,
                data@ == self.data@,
                len_u64 == len,
                file_len == data@.len(),
                offset_from(headers@, i as int, data@.len(), addr, len as nat) == self.offset_of(
                    addr,
                    len as nat,
                ),
            decreases headers.len() - i,
        {
            let ph = headers[i];
            i = i + 1;
            if ph.p_type != PT_LOAD {
                continue;
            }
            if addr < ph.p_vaddr {
                continue;
            }
            let off_in_seg: u64 = addr - ph.p_vaddr;
            let past: u64 = match off_in_seg.checked_add(len_u64) {
                Some(p) => p,
                None => continue,
            };
            if past > ph.p_filesz {
                continue;
            }
            let file_off: u64 = match ph.p_offset.checked_add(off_in_seg) {
                Some(o) => o,
                None => continue,
            };
            let end: u64 = match file_off.checked_add(len_u64) {
                Some(end) => end,
                None => continue,
            };
            if end <= file_len as u64 {
                return Ok(&data[file_off as usize..end as usize]);
            }
        }
        Err(Error::AddressNotMapped { addr })
    }

    /// Read a little-endian `u64` at virtual address `addr`.
    pub fn read_u64(&self, addr: u64) -> (r: Result<u64>)
        ensures
            error::outcome(r) == self.word_at(addr),
    {
        proof {
            lemma_offset_in_file(self.tables.program_headers@, 0, self.data@.len(), addr, 8);
        }
        match self.read_bytes(addr, 8) {
            Err(e) => Err(e),
            Ok(bytes) => match super::read_u64_le(bytes, 0) {
                Some(v) => {
                    proof {
                        let off = self.offset_of(addr, 8)->0;
                        lemma_le_at_subrange(self.data@, off, off + 8, 0, 8);
                    }
                    Ok(v)
                },
                None => Err(Error::AddressNotMapped { addr }),
            },
        }
    }
}

impl<'a> MemReader for Elf<'a> {
    open spec fn word_at(&self, addr: u64) -> std::result::Result<u64, error::ErrorView> {
        match self.offset_of(addr, 8) {
            Some(off) => Ok(super::u64_le_at(self.data@, off)->0),
            None => Err(error::ErrorView::AddressNotMapped { addr }),
        }
    }

    open spec fn segment_at(&self, addr: u64) -> Option<u64> {
        match self.bounds_at(addr) {
            Some(bounds) => Some(bounds.0),
            None => None,
        }
    }

    fn read_u64(&self, addr: u64) -> Result<u64> {
        Elf::read_u64(self, addr)
    }

    fn segment_start(&self, addr: u64) -> Option<u64> {
        match self.segment_bounds(addr) {
            Some(bounds) => Some(bounds.0),
            None => None,
        }
    }
}

/// Bytes found through a segment lie in the file.
proof fn lemma_offset_in_file(
    headers: Seq<ProgramHeader>,
    i: int,
    file_len: nat,
    addr: u64,
    len: nat,
)
    ensures
        offset_from(headers, i, file_len, addr, len) matches Some(off) ==> 0 <= off && off + len
            <= file_len,
    decreases headers.len() - i,
{
    if 0 <= i < headers.len() && !backs(headers[i], file_len, addr, len) {
        lemma_offset_in_file(headers, i + 1, file_len, addr, len);
    }
}

/// A number reads the same in a part as in the whole.
pub proof fn lemma_le_at_subrange(s: Seq<u8>, start: int, end: int, off: int, n: nat)
    requires
        0 <= start <= end <= s.len(),
        0 <= off,
        off + n <= end - start,
    ensures
        super::le_at(s.subrange(start, end), off, n) == super::le_at(s, start + off, n),
    decreases n,
{
    if n > 0 {
        lemma_le_at_subrange(s, start, end, off + 1, (n - 1) as nat);
    }
}

proof fn lemma_offset_is_backed(
    headers: Seq<ProgramHeader>,
    i: int,
    file_len: nat,
    addr: u64,
    len: nat,
)
    requires
        0 <= i,
    ensures
        offset_from(headers, i, file_len, addr, len) is Some <==> exists|k: int|
            i <= k < headers.len() && backs(#[trigger] headers[k], file_len, addr, len),
    decreases headers.len() - i,
{
    if i < headers.len() {
        if !backs(headers[i], file_len, addr, len) {
            lemma_offset_is_backed(headers, i + 1, file_len, addr, len);
        } else {
            assert(backs(headers[i], file_len, addr, len));
        }
    }
}

/// Whether a segment has a file-backed virtual range that contains `addr`.
pub open spec fn covers(ph: ProgramHeader, addr: u64) -> bool {
    &&& ph.p_type == PT_LOAD
    &&& ph.p_vaddr + ph.p_filesz <= u64::MAX
    &&& ph.p_vaddr <= addr < ph.p_vaddr + ph.p_filesz
}

proof fn lemma_segment_from(headers: Seq<ProgramHeader>, i: int, addr: u64)
    requires
        0 <= i,
    ensures
        segment_from(headers, i, addr) is None <==> forall|k: int|
            i <= k < headers.len() ==> !covers(#[trigger] headers[k], addr),
        segment_from(headers, i, addr) matches Some(bounds) ==> bounds.0 <= addr < bounds.1,
    decreases headers.len() - i,
{
    if i < headers.len() {
        lemma_segment_from(headers, i + 1, addr);
        assert(covers(headers[i], addr) ==> segment_from(headers, i, addr) is Some);
    }
}

/// An address has no segment exactly where no segment contains it, whatever the
/// other headers hold; the bounds of its segment are around it.
pub proof fn law_segment_is_found(elf: Elf<'_>, addr: u64)
    ensures
        elf.bounds_at(addr) is None <==> forall|k: int|
            0 <= k < elf.tables.program_headers@.len() ==> !covers(
                #[trigger] elf.tables.program_headers@[k],
                addr,
            ),
        elf.bounds_at(addr) matches Some(bounds) ==> bounds.0 <= addr < bounds.1,
{
    lemma_segment_from(elf.tables.program_headers@, 0, addr);
}

/// A word can be read exactly where some segment has all its bytes in the file:
/// an address beyond the file-backed part of every segment is never read as
/// zeros.
pub proof fn law_reads_are_file_backed(elf: Elf<'_>, addr: u64)
    ensures
        elf.word_at(addr) is Ok <==> exists|k: int|
            0 <= k < elf.tables.program_headers@.len() && backs(
                #[trigger] elf.tables.program_headers@[k],
                elf.data@.len(),
                addr,
                8,
            ),
        elf.word_at(addr) is Err ==> elf.word_at(addr) == Err::<u64, error::ErrorView>(
            error::ErrorView::AddressNotMapped { addr },
        ),
{
    lemma_offset_is_backed(elf.tables.program_headers@, 0, elf.data@.len(), addr, 8);
}

} // verus!
