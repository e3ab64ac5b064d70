//! What a check says of a libc.

use vstd::prelude::*;

use crate::analyze::report_laws;
use crate::arch;
use crate::elf::Elf;
use crate::error;
use crate::error::Result;
use crate::glibc::debuglink;
use crate::glibc::detect;
use crate::glibc::{DetectedLayout, LayoutSource, SymbolInfo};
use crate::locate;
use crate::locate::IdentityView;
use crate::problem;
use crate::problem::ProblemView;
use crate::report::model::IdentityText;
use crate::text;

use super::check;
use super::check::CheckReport;

verus! {

/// Entry `i` of the symbols is this one, with its value and size where it was found.
pub open spec fn shows(report: CheckReport, i: int, name: Seq<char>, s: SymbolInfo) -> bool {
    let shown = report.symbols@[i];
    &&& shown.0@ == name
    &&& shown.1.present == s.present
    &&& s.present ==> shown.1.value == Some(s.value) && shown.1.size == Some(s.size)
    &&& !s.present ==> shown.1.value is None && shown.1.size is None
}

/// A check shows the seven symbols of a libc under their own names, in the order of
/// their names.
pub proof fn law_symbols_are_shown_by_name(
    report: CheckReport,
    layout: DetectedLayout,
    arch: Seq<char>,
    identity: IdentityView,
)
    requires
        report.says_of(layout, arch, identity),
    ensures
        report.symbols@.len() == 7,
        shows(report, 0, "main_arena"@, layout.main_arena),
        shows(report, 1, "mp_"@, layout.mp),
        shows(report, 2, "narenas"@, layout.narenas),
        shows(report, 3, "narenas_limit"@, layout.narenas_limit),
        shows(report, 4, "tcache"@, layout.tcache),
        shows(report, 5, "tcache_key"@, layout.tcache_key),
        shows(report, 6, "thread_arena"@, layout.thread_arena),
{
    let all = check::named(report.symbols@);
    assert(all.len() == report.symbols@.len());
    assert(all[0] == (report.symbols@[0].0@, report.symbols@[0].1));
    assert(all[1] == (report.symbols@[1].0@, report.symbols@[1].1));
    assert(all[2] == (report.symbols@[2].0@, report.symbols@[2].1));
    assert(all[3] == (report.symbols@[3].0@, report.symbols@[3].1));
    assert(all[4] == (report.symbols@[4].0@, report.symbols@[4].1));
    assert(all[5] == (report.symbols@[5].0@, report.symbols@[5].1));
    assert(all[6] == (report.symbols@[6].0@, report.symbols@[6].1));
}

proof fn lemma_told(told: Seq<ProblemView>, identity: IdentityView, p: ProblemView)
    ensures
        (told + check::identity_problems(identity)).contains(p) <==> told.contains(p) || (
        p is MissingBuildId && identity is ContentHash),
{
    let own = check::identity_problems(identity);
    let all = told + own;
    if told.contains(p) {
        let k = choose|k: int| 0 <= k < told.len() && told[k] == p;
        assert(all[k] == p);
    }
    if identity is ContentHash && p is MissingBuildId {
        assert(all[told.len() as int] == p);
    }
    if all.contains(p) {
        let k = choose|k: int| 0 <= k < all.len() && all[k] == p;
        if k < told.len() {
            assert(told[k] == p);
        }
    }
}

/// A check of a libc whose architecture is implemented says what was detected, tells of
/// every problem of it and of a missing build-id, and calls it supported exactly where
/// none of them is fatal.
pub proof fn law_check_says_what_was_detected(
    report: CheckReport,
    layout: DetectedLayout,
    arch: Seq<char>,
    identity: IdentityView,
    p: ProblemView,
)
    requires
        report.says_of(layout, arch, identity),
    ensures
        report.arch@ == arch,
        report.word_size == layout.word_size,
        report.supported <==> forall|i: int|
            0 <= i < report.problems@.len() ==> !report_laws::is_fatal(
                (#[trigger] report.problems@[i])@,
            ),
        problem::views(report.problems@).contains(p) <==> problem::views(
            layout.problems@,
        ).contains(p) || (p is MissingBuildId && identity is ContentHash),
        report.glibc_capabilities matches Some(json) && {
            &&& json.has_tcache == layout.capabilities.has_tcache
            &&& json.has_safe_linking == layout.capabilities.has_safe_linking
            &&& json.layout_source@ == "dwarf"@ <==> layout.layout_source == LayoutSource::Dwarf
            &&& json.version_source@ == "gnu_version_d"@
                <==> layout.capabilities.version_source is Detected
        },
{
    reveal_strlit("dwarf");
    reveal_strlit("builtin");
    reveal_strlit("gnu_version_d");
    reveal_strlit("assumed_default");
    assert("dwarf"@.len() == 5 && "builtin"@.len() == 7);
    assert("gnu_version_d"@.len() == 13 && "assumed_default"@.len() == 15);
    lemma_told(problem::views(layout.problems@), identity, p);
    let all = problem::views(report.problems@);
    assert forall|i: int| 0 <= i < report.problems@.len() implies (#[trigger] report.problems@[i])@
        == all[i] by {}
    if detect::any_fatal(all) {
        let i = choose|i: int| 0 <= i < all.len() && (#[trigger] all[i]).fatal();
        assert(report_laws::is_fatal(report.problems@[i]@));
    }
    if !report.supported {
        assert(detect::any_fatal(all));
    }
    if exists|i: int|
        0 <= i < report.problems@.len() && report_laws::is_fatal(
            (#[trigger] report.problems@[i])@,
        ) {
        let i = choose|i: int|
            0 <= i < report.problems@.len() && report_laws::is_fatal(
                (#[trigger] report.problems@[i])@,
            );
        assert(all[i].fatal());
    }
}

/// A check fails exactly where a debug file was given that does not belong to the libc.
/// Otherwise its report names the libc that was given, by its path and its identity, and
/// the exit code says whether it is supported. A libc of an architecture that is not
/// implemented never is, and that is told first.
pub proof fn law_check_names_its_libc<'a>(
    elf: Elf<'a>,
    debug: Option<&Elf<'a>>,
    libc_path: Seq<char>,
    r: Result<(i32, CheckReport)>,
)
    requires
        check::check_is(elf, debug, libc_path, r),
    ensures
        r is Err <==> debug is Some && debuglink::pairing(elf, *debug->0) is Err,
        r matches Err(e) ==> e@ == error::ErrorView::UnusableLibc(
            debuglink::pairing(elf, *debug->0)->Err_0,
        ),
        r matches Ok((code, report)) ==> {
            &&& report.schema_version == 1
            &&& report.tool_version@ == "0.1.0"@
            &&& report.libc_path@ == libc_path
            &&& code == 0 || code == 1
            &&& code == 0 <==> report.supported
            &&& match locate::identity_of(elf) {
                IdentityView::BuildId(id) => report.identity@ == IdentityText::BuildId(
                    text::hex_bytes(id),
                ),
                IdentityView::ContentHash(hash) => report.identity@ == IdentityText::ContentHash(
                    text::hex_bytes(hash),
                ),
            }
            &&& elf.tables.machine != 62 && elf.tables.machine != 183 ==> {
                &&& !report.supported
                &&& report.arch@ == "unknown("@ + text::hex(elf.tables.machine as nat) + ")"@
                &&& elf.tables.is_64 ==> report.word_size == 8
                &&& !elf.tables.is_64 ==> report.word_size == 4
                &&& report.glibc_capabilities is None
                &&& report.symbols@.len() == 0
                &&& report.problems@.len() > 0
                &&& report.problems@[0]@ == (ProblemView::UnsupportedArch {
                    machine: elf.tables.machine,
                })
            }
        },
{
    if let Ok((code, report)) = r {
        let views = problem::views(report.problems@);
        if elf.tables.machine != 62 && elf.tables.machine != 183 {
            assert(arch::handler(elf.tables.machine) is None);
            assert(views.len() == report.problems@.len());
            assert(views[0] == report.problems@[0]@);
        }
    }
}

} // verus!
