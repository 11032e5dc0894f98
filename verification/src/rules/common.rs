//! What the rules share: the occurrences of a pattern in a string, and the
//! diagnostics that compare two counts.

use vstd::prelude::*;
use vstd::slice::*;
use vstd::string::*;
use vstd::utf8::*;

use crate::checker::{msg_diagnostic, Checker, Stamp};
use crate::diagnostic::DiagnosticView;
use crate::po::entry::Entry;
use crate::text::{bytes_eq, decimal_text, left, push_decimal, str_eq};

verus! {

/// The occurrences of `needle` in `bytes` from `pos` on, from left to right
/// and without overlap, each as its start and its end.
pub open spec fn matches_of(bytes: Seq<u8>, needle: Seq<u8>, pos: int) -> Seq<(usize, usize)>
    decreases left(bytes, pos),
{
    if pos < 0 || needle.len() == 0 || pos + needle.len() > bytes.len() {
        Seq::empty()
    } else if bytes.subrange(pos, pos + needle.len()) == needle {
        seq![(pos as usize, (pos + needle.len()) as usize)] + matches_of(
            bytes,
            needle,
            pos + needle.len(),
        )
    } else {
        matches_of(bytes, needle, pos + 1)
    }
}

/// Finds the occurrences of `needle` in `bytes`, from left to right and
/// without overlap.
pub fn find_matches(bytes: &[u8], needle: &[u8]) -> (v: Vec<(usize, usize)>)
    ensures
        v@ == matches_of(bytes@, needle@, 0),
{
    let mut v: Vec<(usize, usize)> = Vec::new();
    if needle.len() == 0 || needle.len() > bytes.len() {
        return v;
    }
    let last = bytes.len() - needle.len();
    let mut pos: usize = 0;
    while pos <= last
        invariant
            0 < needle@.len() <= bytes@.len() <= usize::MAX,
            last == bytes@.len() - needle@.len(),
            matches_of(bytes@, needle@, 0) == v@ + matches_of(bytes@, needle@, pos as int),
        decreases bytes@.len() - pos,
    {
        if bytes_eq(slice_subrange(bytes, pos, pos + needle.len()), needle) {
            v.push((pos, pos + needle.len()));
            pos += needle.len();
        } else {
            pos += 1;
        }
        assert(matches_of(bytes@, needle@, 0) =~= v@ + matches_of(bytes@, needle@, pos as int));
    }
    assert(v@ + Seq::<(usize, usize)>::empty() =~= v@);
    v
}

/// A message that ends with two counts: `label (id / str)`.
pub open spec fn counted(label: Seq<char>, id_count: nat, str_count: nat) -> Seq<char> {
    label + " ("@ + decimal_text(id_count) + " / "@ + decimal_text(str_count) + ")"@
}

/// Writes a message that ends with two counts.
pub fn count_message(label: String, id_count: usize, str_count: usize) -> (r: String)
    ensures
        r@ == counted(label@, id_count as nat, str_count as nat),
{
    let mut r = label;
    r.append(" (");
    push_decimal(&mut r, id_count as u64);
    r.append(" / ");
    push_decimal(&mut r, str_count as u64);
    r.append(")");
    r
}

/// Puts two strings together.
pub fn concat(a: &str, b: &str) -> (r: String)
    ensures
        r@ == a@ + b@,
{
    let mut r = a.to_owned();
    r.append(b);
    r
}

/// A message that ends with two quoted texts: `label ('id' / 'str')`.
pub open spec fn quoted_pair(label: Seq<char>, id_text: Seq<char>, str_text: Seq<char>) -> Seq<
    char,
> {
    label + " ('"@ + id_text + "' / '"@ + str_text + "')"@
}

/// Writes a message that ends with two quoted texts.
pub fn pair_message(label: &str, id_text: &str, str_text: &str) -> (r: String)
    ensures
        r@ == quoted_pair(label@, id_text@, str_text@),
{
    let mut r = label.to_owned();
    r.append(" ('");
    r.append(id_text);
    r.append("' / '");
    r.append(str_text);
    r.append("')");
    r
}

/// What a rule that compares a count in the source with the count in the
/// translation reports: `missing ...` where the source has more, `extra
/// ...` where the translation has more, and nothing where they agree.
pub open spec fn count_findings(
    stamp: Stamp,
    what: Seq<char>,
    msgid: Seq<char>,
    id_count: nat,
    id_hl: Seq<(usize, usize)>,
    msgstr: Seq<char>,
    str_count: nat,
    str_hl: Seq<(usize, usize)>,
) -> Seq<DiagnosticView> {
    if id_count > str_count {
        seq![
            msg_diagnostic(
                stamp,
                counted("missing "@ + what, id_count, str_count),
                msgid,
                id_hl,
                msgstr,
                str_hl,
            ),
        ]
    } else if id_count < str_count {
        seq![
            msg_diagnostic(
                stamp,
                counted("extra "@ + what, id_count, str_count),
                msgid,
                id_hl,
                msgstr,
                str_hl,
            ),
        ]
    } else {
        Seq::empty()
    }
}

/// Reports the difference between a count in the source and the count in
/// the translation.
pub fn report_counts(
    checker: &mut Checker,
    entry: &Entry,
    what: &str,
    msgid: &str,
    id_count: usize,
    id_hl: &[(usize, usize)],
    msgstr: &str,
    str_count: usize,
    str_hl: &[(usize, usize)],
)
    ensures
        final(checker).reported(
            old(checker),
            count_findings(
                old(checker).scene().stamp,
                what@,
                msgid@,
                id_count as nat,
                id_hl@,
                msgstr@,
                str_count as nat,
                str_hl@,
            ),
        ),
{
    if id_count > str_count {
        checker.report_msg(
            entry,
            count_message(concat("missing ", what), id_count, str_count),
            msgid,
            id_hl,
            msgstr,
            str_hl,
        );
    } else if id_count < str_count {
        checker.report_msg(
            entry,
            count_message(concat("extra ", what), id_count, str_count),
            msgid,
            id_hl,
            msgstr,
            str_hl,
        );
    }
}

/// What is reported on two parts of a source and of its translation that
/// differ: the message with both parts quoted, each part highlighted.
pub open spec fn part_findings(
    stamp: Stamp,
    label: Seq<char>,
    msgid: Seq<char>,
    id_part: Seq<char>,
    id_hl: (usize, usize),
    msgstr: Seq<char>,
    str_part: Seq<char>,
    str_hl: (usize, usize),
) -> Seq<DiagnosticView> {
    if id_part != str_part {
        seq![
            msg_diagnostic(
                stamp,
                quoted_pair(label, id_part, str_part),
                msgid,
                seq![id_hl],
                msgstr,
                seq![str_hl],
            ),
        ]
    } else {
        Seq::empty()
    }
}

/// Reports two parts of a source and of its translation that differ.
pub fn report_parts(
    checker: &mut Checker,
    entry: &Entry,
    label: &str,
    msgid: &str,
    id_part: &str,
    id_hl: (usize, usize),
    msgstr: &str,
    str_part: &str,
    str_hl: (usize, usize),
)
    ensures
        final(checker).reported(
            old(checker),
            part_findings(
                old(checker).scene().stamp,
                label@,
                msgid@,
                id_part@,
                id_hl,
                msgstr@,
                str_part@,
                str_hl,
            ),
        ),
{
    if !str_eq(id_part, str_part) {
        let mut hl_id: Vec<(usize, usize)> = Vec::new();
        hl_id.push(id_hl);
        let mut hl_str: Vec<(usize, usize)> = Vec::new();
        hl_str.push(str_hl);
        checker.report_msg(
            entry,
            pair_message(label, id_part, str_part),
            msgid,
            hl_id.as_slice(),
            msgstr,
            hl_str.as_slice(),
        );
    }
}

} // verus!
