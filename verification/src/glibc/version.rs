//! glibc version detection.
//!
//! The `.gnu.version_d` section lists the `GLIBC_x.y` symbol-version labels a
//! library *defines*. The highest one is, in practice, the version glibc was
//! built from, enough to decide whether safe-linking (≥ 2.32) is in play.

use vstd::prelude::*;

use crate::elf::image;
use crate::elf::Elf;
use crate::text;

verus! {

#[derive(Debug, Clone, Copy, PartialEq, Eq, Structural, PartialOrd, Ord)]
pub struct GlibcVersion {
    pub major: u32,
    pub minor: u32,
}

impl GlibcVersion {
    /// Whether this version is `other` or newer.
    pub open spec fn reaches(self, other: GlibcVersion) -> bool {
        self.major > other.major || (self.major == other.major && self.minor >= other.minor)
    }

    /// Whether this version is `other` or newer.
    pub fn is_at_least(self, other: GlibcVersion) -> (r: bool)
        ensures
            r == self.reaches(other),
    {
        self.major > other.major || (self.major == other.major && self.minor >= other.minor)
    }
}

/// The version that a label names: `GLIBC_`, a number, a dot, a number.
pub open spec fn version_in(label: Seq<char>) -> Option<GlibcVersion> {
    let rest = label.skip(6);
    let dot = text::char_from(rest, '.', 0);
    if !text::starts_with(label, "GLIBC_"@) || dot >= rest.len() {
        None
    } else {
        match (text::u32_of(rest.take(dot)), text::u32_of(rest.skip(dot + 1))) {
            (Some(major), Some(minor)) => Some(GlibcVersion { major, minor }),
            _ => None,
        }
    }
}

/// The newer of a version and what a label names, if it names one.
pub open spec fn newer(best: Option<GlibcVersion>, label: Option<Seq<char>>) -> Option<
    GlibcVersion,
> {
    match label {
        None => best,
        Some(label) => match version_in(label) {
            None => best,
            Some(v) => match best {
                Some(cur) if cur.reaches(v) => best,
                _ => Some(v),
            },
        },
    }
}

/// The newest version among `best` and the labels from index `j` on.
pub open spec fn newest_label(
    best: Option<GlibcVersion>,
    labels: Seq<Option<Seq<char>>>,
    j: int,
) -> Option<GlibcVersion>
    decreases labels.len() - j,
{
    if j < 0 || j >= labels.len() {
        best
    } else {
        newest_label(newer(best, labels[j]), labels, j + 1)
    }
}

/// The newest version among `best` and the definitions from index `i` on.
pub open spec fn newest_from(
    best: Option<GlibcVersion>,
    versions: Seq<Seq<Option<Seq<char>>>>,
    i: int,
) -> Option<GlibcVersion>
    decreases versions.len() - i,
{
    if i < 0 || i >= versions.len() {
        best
    } else {
        newest_from(newest_label(best, versions[i], 0), versions, i + 1)
    }
}

/// The newest glibc version that a library defines symbols for.
pub open spec fn newest(versions: Seq<Seq<Option<Seq<char>>>>) -> Option<GlibcVersion> {
    newest_from(None, versions, 0)
}

/// The highest `GLIBC_x.y` version that the library defines.
pub fn detect(elf: &Elf<'_>) -> (r: Option<GlibcVersion>)
    ensures
        r == newest(elf.tables@.versions),
{
    let mut best: Option<GlibcVersion> = None;
    let defs: &Vec<Vec<Option<String>>> = &elf.tables.versions;
    let ghost all = elf.tables@.versions;
    let mut i: usize = 0;
    while i < defs.len()
        invariant
            i <= defs@.len(),
            all == defs@.map_values(|v: Vec<Option<String>>| image::texts_of(v@)),
            newest_from(best, all, i as int) == newest(all),
        decreases defs@.len() - i,
    {
        let labels: &Vec<Option<String>> = &defs[i];
        let ghost texts = all[i as int];
        assert(texts == image::texts_of(labels@));
        let ghost start = best;
        let mut j: usize = 0;
        while j < labels.len()
            invariant
                j <= labels@.len(),
                texts == image::texts_of(labels@),
                newest_label(best, texts, j as int) == newest_label(start, texts, 0),
            decreases labels@.len() - j,
        {
            assert(texts[j as int] == image::text_of(labels@[j as int]));
            if let Some(name) = &labels[j] {
                if let Some(v) = parse_glibc_version(name) {
                    best = match best {
                        Some(cur) => if cur.is_at_least(v) {
                            Some(cur)
                        } else {
                            Some(v)
                        },
                        None => Some(v),
                    };
                }
            }
            j = j + 1;
        }
        i = i + 1;
    }
    best
}

/// Parse `"GLIBC_2.34"` into `(2, 34)`. Non-numeric tags such as
/// `GLIBC_PRIVATE` return `None`.
pub fn parse_glibc_version(s: &str) -> (r: Option<GlibcVersion>)
    ensures
        r == version_in(s@),
{
    let chars: Vec<char> = text::chars_of(s);
    proof {
        reveal_strlit("GLIBC_");
    }
    if !text::has_prefix(&chars, "GLIBC_") {
        return None;
    }
    let ghost rest = s@.skip(6);
    let rest_chars: &[char] = &chars[6..chars.len()];
    assert(rest_chars@ =~= rest);
    let dot: usize = match text::find_char(rest_chars, '.', 0) {
        Some(dot) => dot,
        None => return None,
    };
    let major: &[char] = &rest_chars[0..dot];
    let minor: &[char] = &rest_chars[dot + 1..rest_chars.len()];
    assert(major@ =~= rest.take(dot as int));
    assert(minor@ =~= rest.skip(dot + 1));
    match (text::parse_u32(major), text::parse_u32(minor)) {
        (Some(major), Some(minor)) => Some(GlibcVersion { major, minor }),
        _ => None,
    }
}

/// A version was found, and it is `v` or newer.
pub open spec fn found_at_least(found: Option<GlibcVersion>, v: GlibcVersion) -> bool {
    found is Some && found->0.reaches(v)
}

/// What a label names, if it names a version.
pub open spec fn label_version(label: Option<Seq<char>>) -> Option<GlibcVersion> {
    match label {
        Some(label) => version_in(label),
        None => None,
    }
}

proof fn lemma_newest_label_reaches(
    best: Option<GlibcVersion>,
    labels: Seq<Option<Seq<char>>>,
    j: int,
)
    requires
        0 <= j,
    ensures
        best is Some ==> found_at_least(newest_label(best, labels, j), best->0),
        forall|k: int|
            j <= k < labels.len() && label_version(#[trigger] labels[k]) is Some ==> found_at_least(
                newest_label(best, labels, j),
                label_version(labels[k])->0,
            ),
    decreases labels.len() - j,
{
    if j < labels.len() {
        lemma_newest_label_reaches(newer(best, labels[j]), labels, j + 1);
    }
}

proof fn lemma_newest_from_reaches(
    best: Option<GlibcVersion>,
    versions: Seq<Seq<Option<Seq<char>>>>,
    i: int,
)
    requires
        0 <= i,
    ensures
        best is Some ==> found_at_least(newest_from(best, versions, i), best->0),
        forall|n: int, k: int|
            #![trigger versions[n][k]]
            i <= n < versions.len() && 0 <= k < versions[n].len() && label_version(
                versions[n][k],
            ) is Some ==> found_at_least(
                newest_from(best, versions, i),
                label_version(versions[n][k])->0,
            ),
    decreases versions.len() - i,
{
    if i < versions.len() {
        lemma_newest_label_reaches(best, versions[i], 0);
        lemma_newest_from_reaches(newest_label(best, versions[i], 0), versions, i + 1);
    }
}

/// No label names a version newer than the one detected.
pub proof fn law_newest_is_newest(versions: Seq<Seq<Option<Seq<char>>>>, n: int, k: int)
    requires
        0 <= n < versions.len(),
        0 <= k < versions[n].len(),
        label_version(versions[n][k]) is Some,
    ensures
        found_at_least(newest(versions), label_version(versions[n][k])->0),
{
    lemma_newest_from_reaches(None, versions, 0);
}

} // verus!
