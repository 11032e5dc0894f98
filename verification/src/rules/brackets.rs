//! Implementation of the `brackets` rule: check missing/extra brackets.

use vstd::prelude::*;
use vstd::string::*;
use vstd::utf8::*;

use crate::ascii;
use crate::checker::{msg_diagnostic, Checker, Scene, Stamp};
use crate::diagnostic::{DiagnosticView, Severity};
use crate::po::entry::{Entry, EntryView};
use crate::rules::common::{concat, count_findings, count_message, counted, report_counts};
use crate::rules::rule::RuleChecker;
use crate::text::left;

verus! {

/// A kind of brackets, with the words that name it in messages.
pub struct BracketPair {
    pub open: u8,
    pub close: u8,
    pub open_what: Seq<char>,
    pub close_what: Seq<char>,
    pub both_what: Seq<char>,
    pub and_close: Seq<char>,
}

/// Round brackets.
pub open spec fn round_brackets() -> BracketPair {
    BracketPair {
        open: ascii::PAREN_OPEN,
        close: ascii::PAREN_CLOSE,
        open_what: "opening round brackets '('"@,
        close_what: "closing round brackets ')'"@,
        both_what: "opening and closing round brackets '('"@,
        and_close: " and ')'"@,
    }
}

/// Square brackets.
pub open spec fn square_brackets() -> BracketPair {
    BracketPair {
        open: ascii::SQUARE_OPEN,
        close: ascii::SQUARE_CLOSE,
        open_what: "opening square brackets '['"@,
        close_what: "closing square brackets ']'"@,
        both_what: "opening and closing square brackets '['"@,
        and_close: " and ']'"@,
    }
}

/// Curly brackets.
pub open spec fn curly_brackets() -> BracketPair {
    BracketPair {
        open: ascii::CURLY_OPEN,
        close: ascii::CURLY_CLOSE,
        open_what: "opening curly brackets '{'"@,
        close_what: "closing curly brackets '}'"@,
        both_what: "opening and closing curly brackets '{'"@,
        and_close: " and '}'"@,
    }
}

/// Angle brackets.
pub open spec fn angle_brackets() -> BracketPair {
    BracketPair {
        open: ascii::ANGLE_OPEN,
        close: ascii::ANGLE_CLOSE,
        open_what: "opening angle brackets '<'"@,
        close_what: "closing angle brackets '>'"@,
        both_what: "opening and closing angle brackets '<'"@,
        and_close: " and '>'"@,
    }
}

/// True when `(s)` or `(S)`, which marks an optional plural, starts at
/// `index`; only for a round bracket.
pub open spec fn excluded_start(bytes: Seq<u8>, index: int, bracket: u8) -> bool {
    &&& bracket == ascii::PAREN_OPEN
    &&& 0 <= index
    &&& index + 3 <= bytes.len()
    &&& bytes[index] == ascii::PAREN_OPEN
    &&& (bytes[index + 1] == ascii::LOWER_S || bytes[index + 1] == ascii::UPPER_S)
    &&& bytes[index + 2] == ascii::PAREN_CLOSE
}

/// True when `(s)` or `(S)` ends at `index`; only for a round bracket.
pub open spec fn excluded_end(bytes: Seq<u8>, index: int, bracket: u8) -> bool {
    &&& bracket == ascii::PAREN_CLOSE
    &&& 2 <= index < bytes.len()
    &&& bytes[index - 2] == ascii::PAREN_OPEN
    &&& (bytes[index - 1] == ascii::LOWER_S || bytes[index - 1] == ascii::UPPER_S)
    &&& bytes[index] == ascii::PAREN_CLOSE
}

/// True when a bracket that counts stands at `pos`: the opening one or the
/// closing one, outside `(s)` and `(S)`.
pub open spec fn bracket_at(bytes: Seq<u8>, pos: int, open: Option<u8>, close: Option<u8>) -> bool {
    ||| (open is Some && bytes[pos] == open->0 && !excluded_start(bytes, pos, open->0))
    ||| (close is Some && bytes[pos] == close->0 && !excluded_end(bytes, pos, close->0))
}

/// The positions from `pos` on of the brackets that count, in order.
pub open spec fn bracket_positions(
    bytes: Seq<u8>,
    pos: int,
    open: Option<u8>,
    close: Option<u8>,
) -> Seq<(usize, usize)>
    decreases left(bytes, pos),
{
    if pos < 0 || pos >= bytes.len() {
        Seq::empty()
    } else if bracket_at(bytes, pos, open, close) {
        seq![(pos as usize, (pos + 1) as usize)] + bracket_positions(bytes, pos + 1, open, close)
    } else {
        bracket_positions(bytes, pos + 1, open, close)
    }
}

/// Tells whether `(s)` or `(S)` starts at `index`, for a round bracket.
pub fn is_excluded_start(s: &str, index: usize, bracket: u8) -> (r: bool)
    ensures
        r == excluded_start(s.spec_bytes(), index as int, bracket),
{
    let bytes = s.as_bytes();
    bracket == ascii::PAREN_OPEN && index < bytes.len() && bytes.len() - index >= 3 && bytes[index]
        == ascii::PAREN_OPEN && (bytes[index + 1] == ascii::LOWER_S || bytes[index + 1]
        == ascii::UPPER_S) && bytes[index + 2] == ascii::PAREN_CLOSE
}

/// Tells whether `(s)` or `(S)` ends at `index`, for a round bracket.
pub fn is_excluded_end(s: &str, index: usize, bracket: u8) -> (r: bool)
    ensures
        r == excluded_end(s.spec_bytes(), index as int, bracket),
{
    let bytes = s.as_bytes();
    bracket == ascii::PAREN_CLOSE && index >= 2 && index < bytes.len() && bytes[index - 2]
        == ascii::PAREN_OPEN && (bytes[index - 1] == ascii::LOWER_S || bytes[index - 1]
        == ascii::UPPER_S) && bytes[index] == ascii::PAREN_CLOSE
}

/// Finds the brackets of a string that count: the opening ones, the
/// closing ones, or both.
fn get_bracket_pos(s: &str, open: Option<u8>, close: Option<u8>) -> (v: Vec<(usize, usize)>)
    ensures
        v@ == bracket_positions(s.spec_bytes(), 0, open, close),
{
    let bytes = s.as_bytes();
    let mut v: Vec<(usize, usize)> = Vec::new();
    let mut pos: usize = 0;
    while pos < bytes.len()
        invariant
            bytes@ == s.spec_bytes(),
            pos <= bytes@.len(),
            bracket_positions(bytes@, 0, open, close) == v@ + bracket_positions(
                bytes@,
                pos as int,
                open,
                close,
            ),
        decreases bytes@.len() - pos,
    {
        let is_open = match open {
            Some(b) => bytes[pos] == b && !is_excluded_start(s, pos, b),
            None => false,
        };
        let is_close = match close {
            Some(b) => bytes[pos] == b && !is_excluded_end(s, pos, b),
            None => false,
        };
        if is_open || is_close {
            v.push((pos, pos + 1));
        }
        pos += 1;
        assert(bracket_positions(bytes@, 0, open, close) =~= v@ + bracket_positions(
            bytes@,
            pos as int,
            open,
            close,
        ));
    }
    assert(v@ + Seq::<(usize, usize)>::empty() =~= v@);
    v
}

/// Returns the positions of the opening brackets of a string, outside `(s)`
/// and `(S)`.
pub fn get_opening_bracket_pos(s: &str, bracket: u8) -> (v: Vec<(usize, usize)>)
    ensures
        v@ == bracket_positions(s.spec_bytes(), 0, Some(bracket), None),
{
    get_bracket_pos(s, Some(bracket), None)
}

/// Returns the positions of the closing brackets of a string, outside `(s)`
/// and `(S)`.
pub fn get_closing_bracket_pos(s: &str, bracket: u8) -> (v: Vec<(usize, usize)>)
    ensures
        v@ == bracket_positions(s.spec_bytes(), 0, None, Some(bracket)),
{
    get_bracket_pos(s, None, Some(bracket))
}

/// The message on brackets of which both the opening and the closing ones
/// are missing, or extra.
pub open spec fn both_message(
    kind: Seq<char>,
    pair: BracketPair,
    id_open: nat,
    str_open: nat,
    id_close: nat,
    str_close: nat,
) -> Seq<char> {
    counted(counted(kind + pair.both_what, id_open, str_open) + pair.and_close, id_close, str_close)
}

/// What is reported on one kind of brackets. Extra round brackets in the
/// translation are accepted: they often make a word more precise. Where
/// the opening and the closing brackets are both missing, or both extra,
/// one diagnostic says so; else the opening and the closing brackets are
/// reported each on their own.
pub open spec fn pair_findings(
    stamp: Stamp,
    pair: BracketPair,
    msgid: Seq<char>,
    msgstr: Seq<char>,
) -> Seq<DiagnosticView> {
    let id_open = bracket_positions(encode_utf8(msgid), 0, Some(pair.open), None);
    let str_open = bracket_positions(encode_utf8(msgstr), 0, Some(pair.open), None);
    let id_close = bracket_positions(encode_utf8(msgid), 0, None, Some(pair.close));
    let str_close = bracket_positions(encode_utf8(msgstr), 0, None, Some(pair.close));
    let both_extra = id_open.len() < str_open.len() && id_close.len() < str_close.len();
    let both_missing = id_open.len() > str_open.len() && id_close.len() > str_close.len();
    if pair.open == ascii::PAREN_OPEN && both_extra {
        Seq::empty()
    } else if both_missing || both_extra {
        seq![
            msg_diagnostic(
                stamp,
                both_message(
                    if both_missing {
                        "missing "@
                    } else {
                        "extra "@
                    },
                    pair,
                    id_open.len(),
                    str_open.len(),
                    id_close.len(),
                    str_close.len(),
                ),
                msgid,
                bracket_positions(encode_utf8(msgid), 0, Some(pair.open), Some(pair.close)),
                msgstr,
                bracket_positions(encode_utf8(msgstr), 0, Some(pair.open), Some(pair.close)),
            ),
        ]
    } else {
        count_findings(
            stamp,
            pair.open_what,
            msgid,
            id_open.len(),
            id_open,
            msgstr,
            str_open.len(),
            str_open,
        ) + count_findings(
            stamp,
            pair.close_what,
            msgid,
            id_close.len(),
            id_close,
            msgstr,
            str_close.len(),
            str_close,
        )
    }
}

/// Checks one kind of brackets.
fn check_pair(
    checker: &mut Checker,
    entry: &Entry,
    msgid: &str,
    msgstr: &str,
    open: u8,
    close: u8,
    open_what: &str,
    close_what: &str,
    both_what: &str,
    and_close: &str,
)
    ensures
        final(checker).reported(
            old(checker),
            pair_findings(
                old(checker).scene().stamp,
                (BracketPair {
                    open,
                    close,
                    open_what: open_what@,
                    close_what: close_what@,
                    both_what: both_what@,
                    and_close: and_close@,
                }),
                msgid@,
                msgstr@,
            ),
        ),
{
    let id_open = get_opening_bracket_pos(msgid, open);
    let str_open = get_opening_bracket_pos(msgstr, open);
    let id_close = get_closing_bracket_pos(msgid, close);
    let str_close = get_closing_bracket_pos(msgstr, close);
    let both_extra = id_open.len() < str_open.len() && id_close.len() < str_close.len();
    let both_missing = id_open.len() > str_open.len() && id_close.len() > str_close.len();
    if open == ascii::PAREN_OPEN && both_extra {
        return;
    }
    if both_missing || both_extra {
        let id_both = get_bracket_pos(msgid, Some(open), Some(close));
        let str_both = get_bracket_pos(msgstr, Some(open), Some(close));
        let kind = if both_missing {
            "missing "
        } else {
            "extra "
        };
        let first = count_message(concat(kind, both_what), id_open.len(), str_open.len());
        let message = count_message(
            concat(first.as_str(), and_close),
            id_close.len(),
            str_close.len(),
        );
        checker.report_msg(
            entry,
            message,
            msgid,
            id_both.as_slice(),
            msgstr,
            str_both.as_slice(),
        );
        return;
    }
    report_counts(
        checker,
        entry,
        open_what,
        msgid,
        id_open.len(),
        id_open.as_slice(),
        msgstr,
        str_open.len(),
        str_open.as_slice(),
    );
    report_counts(
        checker,
        entry,
        close_what,
        msgid,
        id_close.len(),
        id_close.as_slice(),
        msgstr,
        str_close.len(),
        str_close.as_slice(),
    );
}

/// The rule `brackets`: round, square, curly and angle brackets that are
/// missing or extra in the translation.
#[derive(Clone, Copy, Debug)]
pub struct BracketsRule;

impl RuleChecker for BracketsRule {
    open spec fn label(&self) -> Seq<char> {
        "brackets"@
    }

    open spec fn default_on(&self) -> bool {
        true
    }

    open spec fn checks(&self) -> bool {
        true
    }

    open spec fn level(&self) -> Severity {
        Severity::Info
    }

    open spec fn entry_findings(&self, scene: Scene, entry: EntryView) -> Seq<DiagnosticView> {
        Seq::empty()
    }

    open spec fn ctxt_findings(&self, scene: Scene, entry: EntryView, msgctxt: Seq<char>) -> Seq<
        DiagnosticView,
    > {
        Seq::empty()
    }

    /// The round, the square, the curly and the angle brackets are checked
    /// in this order, each kind as `pair_findings` says.
    open spec fn msg_findings(
        &self,
        scene: Scene,
        entry: EntryView,
        msgid: Seq<char>,
        msgstr: Seq<char>,
    ) -> Seq<DiagnosticView> {
        pair_findings(scene.stamp, round_brackets(), msgid, msgstr) + pair_findings(
            scene.stamp,
            square_brackets(),
            msgid,
            msgstr,
        ) + pair_findings(scene.stamp, curly_brackets(), msgid, msgstr) + pair_findings(
            scene.stamp,
            angle_brackets(),
            msgid,
            msgstr,
        )
    }

    fn name(&self) -> (r: &'static str) {
        "brackets"
    }

    fn is_default(&self) -> (r: bool) {
        true
    }

    fn is_check(&self) -> (r: bool) {
        true
    }

    fn severity(&self) -> (r: Severity) {
        Severity::Info
    }

    fn check_entry(&self, checker: &mut Checker, entry: &Entry) {
    }

    fn check_ctxt(&self, checker: &mut Checker, entry: &Entry, msgctxt: &str) {
    }

    fn check_msg(&self, checker: &mut Checker, entry: &Entry, msgid: &str, msgstr: &str) {
        check_pair(
            checker,
            entry,
            msgid,
            msgstr,
            ascii::PAREN_OPEN,
            ascii::PAREN_CLOSE,
            "opening round brackets '('",
            "closing round brackets ')'",
            "opening and closing round brackets '('",
            " and ')'",
        );
        check_pair(
            checker,
            entry,
            msgid,
            msgstr,
            ascii::SQUARE_OPEN,
            ascii::SQUARE_CLOSE,
            "opening square brackets '['",
            "closing square brackets ']'",
            "opening and closing square brackets '['",
            " and ']'",
        );
        check_pair(
            checker,
            entry,
            msgid,
            msgstr,
            ascii::CURLY_OPEN,
            ascii::CURLY_CLOSE,
            "opening curly brackets '{'",
            "closing curly brackets '}'",
            "opening and closing curly brackets '{'",
            " and '}'",
        );
        check_pair(
            checker,
            entry,
            msgid,
            msgstr,
            ascii::ANGLE_OPEN,
            ascii::ANGLE_CLOSE,
            "opening angle brackets '<'",
            "closing angle brackets '>'",
            "opening and closing angle brackets '<'",
            " and '>'",
        );
    }
}

} // verus!
