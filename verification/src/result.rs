//! What is made of the diagnostics of the files that were checked: their
//! numbers by severity, the status with which the run ends, and the order in
//! which they are shown.

use vstd::prelude::*;
use vstd::string::*;
use vstd::utf8::*;

use crate::args::CheckSort;
use crate::diagnostic::{Diagnostic, DiagnosticView, Severity};
use crate::text::{bytes_less, lex_less, str_eq};

verus! {

/// Numbers of diagnostics, by severity.
#[derive(Clone, Copy, Debug, Default, PartialEq, Eq, Structural)]
pub struct SeverityCounts {
    pub info: usize,
    pub warnings: usize,
    pub errors: usize,
}

/// The number of diagnostics of a severity among the first `k`.
pub open spec fn count_of(findings: Seq<DiagnosticView>, severity: Severity, k: int) -> nat
    decreases k,
{
    if k <= 0 || k > findings.len() {
        0
    } else if findings[k - 1].severity == severity {
        count_of(findings, severity, k - 1) + 1
    } else {
        count_of(findings, severity, k - 1)
    }
}

/// What the diagnostics of a list hold.
pub open spec fn views(diagnostics: Seq<&Diagnostic>) -> Seq<DiagnosticView> {
    Seq::new(diagnostics.len(), |i: int| diagnostics[i]@)
}

/// Counts the diagnostics of each severity.
pub fn count_severities(diagnostics: &Vec<&Diagnostic>) -> (r: SeverityCounts)
    ensures
        r.info == count_of(views(diagnostics@), Severity::Info, diagnostics@.len() as int),
        r.warnings == count_of(views(diagnostics@), Severity::Warning, diagnostics@.len() as int),
        r.errors == count_of(views(diagnostics@), Severity::Error, diagnostics@.len() as int),
        r.info + r.warnings + r.errors == diagnostics@.len(),
{
    let mut r = SeverityCounts { info: 0, warnings: 0, errors: 0 };
    let mut i: usize = 0;
    while i < diagnostics.len()
        invariant
            i <= diagnostics@.len(),
            r.info == count_of(views(diagnostics@), Severity::Info, i as int),
            r.warnings == count_of(views(diagnostics@), Severity::Warning, i as int),
            r.errors == count_of(views(diagnostics@), Severity::Error, i as int),
            r.info + r.warnings + r.errors == i,
        decreases diagnostics@.len() - i,
    {
        assert(views(diagnostics@)[i as int] == diagnostics@[i as int]@);
        match diagnostics[i].severity {
            Severity::Info => {
                r.info += 1;
            },
            Severity::Warning => {
                r.warnings += 1;
            },
            Severity::Error => {
                r.errors += 1;
            },
        }
        i += 1;
    }
    r
}

/// The status with which a run ends: 0 where no file has a diagnostic, 1
/// where one has.
pub open spec fn exit_status(files_with_diagnostics: nat) -> i32 {
    if files_with_diagnostics == 0 {
        0
    } else {
        1
    }
}

/// Returns the status with which a run ends.
pub fn exit_code(files_with_diagnostics: usize) -> (r: i32)
    ensures
        r == exit_status(files_with_diagnostics as nat),
{
    if files_with_diagnostics == 0 {
        0
    } else {
        1
    }
}

/// The numbers of the lines of a diagnostic, in order.
pub open spec fn line_numbers(d: DiagnosticView) -> Seq<usize> {
    Seq::new(d.lines.len(), |i: int| d.lines[i].line_number)
}

/// True when the numbers `a` come before the numbers `b`: at the first
/// place at which they differ, or where `a` ends first.
pub open spec fn numbers_less(a: Seq<usize>, b: Seq<usize>) -> bool
    decreases a.len(),
{
    if b.len() == 0 {
        false
    } else if a.len() == 0 {
        true
    } else if a[0] != b[0] {
        a[0] < b[0]
    } else {
        numbers_less(a.drop_first(), b.drop_first())
    }
}

/// True when the text `a` comes before the text `b`, in the order of their
/// bytes.
pub open spec fn text_less(a: Seq<char>, b: Seq<char>) -> bool {
    lex_less(encode_utf8(a), encode_utf8(b))
}

/// The message of the first line of a diagnostic, or an empty text.
pub open spec fn first_message(d: DiagnosticView) -> Seq<char> {
    if d.lines.len() > 0 {
        d.lines[0].message
    } else {
        Seq::empty()
    }
}

/// True when the diagnostic `a` is shown before `b` for its place: by path
/// and then by line numbers, after the message of the first line or the
/// name of the rule where the order asks for it.
pub open spec fn shown_before(sort: CheckSort, a: DiagnosticView, b: DiagnosticView) -> bool {
    let by_place = text_less(a.path, b.path) || (a.path == b.path && numbers_less(
        line_numbers(a),
        line_numbers(b),
    ));
    match sort {
        CheckSort::Line => by_place,
        CheckSort::Message => text_less(first_message(a), first_message(b)) || (first_message(a)
            == first_message(b) && by_place),
        CheckSort::Rule => text_less(a.rule, b.rule) || (a.rule == b.rule && by_place),
    }
}

/// Places of diagnostics in the order in which they are shown, with the
/// place `x` put before the first whose diagnostic it is shown before.
pub open spec fn placed(
    sort: CheckSort,
    findings: Seq<DiagnosticView>,
    order: Seq<usize>,
    x: usize,
) -> Seq<usize>
    decreases order.len(),
{
    if order.len() == 0 {
        seq![x]
    } else if shown_before(sort, findings[x as int], findings[order[0] as int]) {
        seq![x] + order
    } else {
        seq![order[0]] + placed(sort, findings, order.drop_first(), x)
    }
}

/// The places of the first `k` diagnostics in the order in which they are
/// shown. Diagnostics of which none is shown before the other keep the
/// order in which they were reported.
pub open spec fn shown_order(sort: CheckSort, findings: Seq<DiagnosticView>, k: int) -> Seq<usize>
    decreases k,
{
    if k <= 0 || k > findings.len() {
        Seq::empty()
    } else {
        placed(sort, findings, shown_order(sort, findings, k - 1), (k - 1) as usize)
    }
}

/// Tells whether the line numbers of `a` come before those of `b`.
fn lines_less(a: &Diagnostic, b: &Diagnostic) -> (r: bool)
    ensures
        r == numbers_less(line_numbers(a@), line_numbers(b@)),
{
    let ghost na = line_numbers(a@);
    let ghost nb = line_numbers(b@);
    let mut i: usize = 0;
    assert(na.subrange(0, na.len() as int) =~= na);
    assert(nb.subrange(0, nb.len() as int) =~= nb);
    loop
        invariant
            na == line_numbers(a@),
            nb == line_numbers(b@),
            i <= na.len(),
            i <= nb.len(),
            numbers_less(na, nb) == numbers_less(
                na.subrange(i as int, na.len() as int),
                nb.subrange(i as int, nb.len() as int),
            ),
        decreases na.len() - i,
    {
        let ghost ra = na.subrange(i as int, na.len() as int);
        let ghost rb = nb.subrange(i as int, nb.len() as int);
        if i >= b.lines.len() {
            return false;
        }
        if i >= a.lines.len() {
            return true;
        }
        assert(ra[0] == a.lines@[i as int]@.line_number);
        assert(rb[0] == b.lines@[i as int]@.line_number);
        if a.lines[i].line_number != b.lines[i].line_number {
            return a.lines[i].line_number < b.lines[i].line_number;
        }
        assert(ra.drop_first() =~= na.subrange(i + 1, na.len() as int));
        assert(rb.drop_first() =~= nb.subrange(i + 1, nb.len() as int));
        i += 1;
    }
}

/// Returns the message of the first line of a diagnostic, or an empty
/// string.
fn first_line(d: &Diagnostic) -> (r: &str)
    ensures
        r@ == first_message(d@),
{
    if d.lines.len() > 0 {
        assert(d@.lines[0] == d.lines@[0]@);
        d.lines[0].message.as_str()
    } else {
        proof {
            reveal_strlit("");
        }
        assert(""@ =~= Seq::<char>::empty());
        ""
    }
}

/// Tells whether the diagnostic `a` is shown before `b`.
pub fn is_shown_before(sort: CheckSort, a: &Diagnostic, b: &Diagnostic) -> (r: bool)
    ensures
        r == shown_before(sort, a@, b@),
{
    let by_place = bytes_less(a.path.as_str().as_bytes(), b.path.as_str().as_bytes()) || (str_eq(
        a.path.as_str(),
        b.path.as_str(),
    ) && lines_less(a, b));
    match sort {
        CheckSort::Line => by_place,
        CheckSort::Message => {
            let ma = first_line(a);
            let mb = first_line(b);
            bytes_less(ma.as_bytes(), mb.as_bytes()) || (str_eq(ma, mb) && by_place)
        },
        CheckSort::Rule => bytes_less(a.rule.as_bytes(), b.rule.as_bytes()) || (str_eq(
            a.rule,
            b.rule,
        ) && by_place),
    }
}

/// Returns the places of the diagnostics in the order in which they are
/// shown.
pub fn display_order(diagnostics: &Vec<&Diagnostic>, sort: CheckSort) -> (order: Vec<usize>)
    ensures
        order@ == shown_order(sort, views(diagnostics@), diagnostics@.len() as int),
        order@.len() == diagnostics@.len(),
        forall|i: int| 0 <= i < order@.len() ==> (#[trigger] order@[i]) < diagnostics@.len(),
{
    let ghost findings = views(diagnostics@);
    let mut order: Vec<usize> = Vec::new();
    let mut k: usize = 0;
    while k < diagnostics.len()
        invariant
            k <= diagnostics@.len(),
            findings == views(diagnostics@),
            order@ == shown_order(sort, findings, k as int),
            order@.len() == k,
            forall|i: int| 0 <= i < order@.len() ==> (#[trigger] order@[i]) < diagnostics@.len(),
        decreases diagnostics@.len() - k,
    {
        let ghost before = order@;
        let mut at: usize = 0;
        assert(before.subrange(0, 0) + placed(
            sort,
            findings,
            before.subrange(0, before.len() as int),
            k,
        ) =~= placed(sort, findings, before, k)) by {
            assert(before.subrange(0, before.len() as int) =~= before);
        }
        while at < order.len() && !is_shown_before(sort, diagnostics[k], diagnostics[order[at]])
            invariant
                k < diagnostics@.len(),
                findings == views(diagnostics@),
                at <= order@.len(),
                before == order@,
                forall|i: int|
                    0 <= i < order@.len() ==> (#[trigger] order@[i]) < diagnostics@.len(),
                placed(sort, findings, before, k) == before.subrange(0, at as int) + placed(
                    sort,
                    findings,
                    before.subrange(at as int, before.len() as int),
                    k,
                ),
            decreases order@.len() - at,
        {
            proof {
                let rest = before.subrange(at as int, before.len() as int);
                assert(rest[0] == before[at as int]);
                assert(findings[k as int] == diagnostics@[k as int]@);
                let y = before[at as int] as int;
                assert(findings[y] == diagnostics@[y]@);
                assert(rest.drop_first() =~= before.subrange(at + 1, before.len() as int));
                assert(before.subrange(0, at + 1) =~= before.subrange(0, at as int).push(
                    before[at as int],
                ));
                assert(placed(sort, findings, before, k) =~= before.subrange(0, at + 1) + placed(
                    sort,
                    findings,
                    before.subrange(at + 1, before.len() as int),
                    k,
                ));
            }
            at += 1;
        }
        proof {
            let rest = before.subrange(at as int, before.len() as int);
            assert(findings[k as int] == diagnostics@[k as int]@);
            if at < before.len() {
                let y = before[at as int] as int;
                assert(rest[0] == before[at as int]);
                assert(findings[y] == diagnostics@[y]@);
                assert(placed(sort, findings, rest, k) =~= seq![k] + rest);
            } else {
                assert(placed(sort, findings, rest, k) =~= seq![k]);
            }
        }
        order.insert(at, k);
        proof {
            assert(order@ =~= placed(sort, findings, before, k));
            assert forall|i: int| 0 <= i < order@.len() implies (#[trigger] order@[i])
                < diagnostics@.len() by {
                if i < at {
                    assert(order@[i] == before[i]);
                } else if i > at {
                    assert(order@[i] == before[i - 1]);
                }
            }
        }
        k += 1;
    }
    order
}

} // verus!
