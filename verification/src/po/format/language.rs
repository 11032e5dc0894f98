//! Supported languages for format strings.

use vstd::prelude::*;
use vstd::string::*;
use vstd::utf8::*;

use crate::ascii;
use crate::po::format::lang_c::{c_format_end, lemma_c_format_end, FormatC};
use crate::po::format::lang_null::FormatNull;
use crate::po::format::lang_python::{
    brace_format_end, lemma_brace_end, lemma_python_format_end, python_format_end, FormatPython,
    FormatPythonBrace,
};
use crate::po::format::{marker_next_char, FormatParser};
use crate::text::{lemma_ascii_boundary, str_eq};

verus! {

/// The language whose format strings an entry holds.
#[derive(Clone, Copy, Debug, Default, PartialEq, Eq, Structural)]
pub enum Language {
    #[default]
    Null,
    C,
    Python,
    PythonBrace,
}

/// The language that the prefix of an `xxx-format` keyword names.
pub open spec fn language_of(name: Seq<char>) -> Language {
    if name == "c"@ {
        Language::C
    } else if name == "python"@ {
        Language::Python
    } else if name == "python-brace"@ {
        Language::PythonBrace
    } else {
        Language::Null
    }
}

impl From<&str> for Language {
    fn from(language: &str) -> (r: Self) {
        if str_eq(language, "c") {
            Language::C
        } else if str_eq(language, "python") {
            Language::Python
        } else if str_eq(language, "python-brace") {
            Language::PythonBrace
        } else {
            Language::Null
        }
    }
}

impl vstd::std_specs::convert::FromSpecImpl<&str> for Language {
    open spec fn obeys_from_spec() -> bool {
        true
    }

    open spec fn from_spec(v: &str) -> Self {
        language_of(v@)
    }
}

impl Language {
    /// What this language reads at `pos`: the position of the next byte to
    /// read, and whether a placeholder starts there.
    pub open spec fn next_char_at(self, bytes: Seq<u8>, pos: int, len: int) -> (int, bool) {
        match self {
            Language::Null => (pos, false),
            Language::C | Language::Python => marker_next_char(bytes, pos, len, ascii::PERCENT),
            Language::PythonBrace => marker_next_char(bytes, pos, len, ascii::CURLY_OPEN),
        }
    }

    /// The end of the placeholder of this language whose marker stands just
    /// before `pos`.
    pub open spec fn end_format_at(self, bytes: Seq<u8>, pos: int, len: int) -> int {
        match self {
            Language::Null => len,
            Language::C => c_format_end(bytes, pos, len),
            Language::Python => python_format_end(bytes, pos, len),
            Language::PythonBrace => brace_format_end(bytes, pos, len),
        }
    }

    /// The name of this language in messages.
    pub open spec fn display(self) -> Seq<char> {
        match self {
            Language::Null => "none"@,
            Language::C => "C"@,
            Language::Python => "Python"@,
            Language::PythonBrace => "Python brace"@,
        }
    }

    /// Returns the name of this language, as it stands in messages.
    pub fn name(&self) -> (r: &'static str)
        ensures
            r@ == self.display(),
    {
        match self {
            Language::Null => "none",
            Language::C => "C",
            Language::Python => "Python",
            Language::PythonBrace => "Python brace",
        }
    }

    /// Returns the recognizer of the format strings of this language.
    pub fn format_parser(&self) -> (r: Recognizer)
        ensures
            r.language() == *self,
    {
        match self {
            Language::Null => Recognizer::Null(FormatNull),
            Language::C => Recognizer::C(FormatC),
            Language::Python => Recognizer::Python(FormatPython),
            Language::PythonBrace => Recognizer::PythonBrace(FormatPythonBrace),
        }
    }
}

/// In a whole text, what a language reads at a position before the end is
/// that position or the next one, which then follows the marker.
pub proof fn lemma_next_char_at(language: Language, bytes: Seq<u8>, pos: int)
    requires
        0 <= pos < bytes.len(),
    ensures
        ({
            let (next, is_format) = language.next_char_at(bytes, pos, bytes.len() as int);
            &&& next < bytes.len()
            &&& (next == pos || (next == pos + 1 && bytes[pos] < 0x80))
            &&& is_format ==> next == pos + 1
        }),
{
}

/// In a whole text, a placeholder ends between `pos` and the end of the
/// text, at `pos`, at the end of the text, or after an ASCII byte.
pub proof fn lemma_end_format_at(language: Language, bytes: Seq<u8>, pos: int)
    requires
        0 <= pos <= bytes.len(),
    ensures
        pos <= language.end_format_at(bytes, pos, bytes.len() as int) <= bytes.len(),
        ({
            let end = language.end_format_at(bytes, pos, bytes.len() as int);
            end == pos || end == bytes.len() || bytes[end - 1] < 0x80
        }),
{
    let len = bytes.len() as int;
    match language {
        Language::Null => {},
        Language::C => {
            lemma_c_format_end(bytes, pos, len);
        },
        Language::Python => {
            lemma_python_format_end(bytes, pos);
        },
        Language::PythonBrace => {
            lemma_brace_end(bytes, pos, len, 1);
        },
    }
}

/// In a valid text, what a language reads at a boundary is a boundary, and
/// so is the end of a placeholder that starts after a marker.
pub proof fn lemma_language_keeps_boundaries(language: Language, bytes: Seq<u8>, pos: int)
    requires
        valid_utf8(bytes),
        0 <= pos < bytes.len(),
        is_char_boundary(bytes, pos),
    ensures
        ({
            let (next, is_format) = language.next_char_at(bytes, pos, bytes.len() as int);
            let end = language.end_format_at(bytes, next, bytes.len() as int);
            &&& pos <= next < bytes.len()
            &&& is_char_boundary(bytes, next)
            &&& is_format ==> next <= end <= bytes.len() && pos < end && is_char_boundary(
                bytes,
                end,
            )
        }),
{
    lemma_next_char_at(language, bytes, pos);
    let (next, is_format) = language.next_char_at(bytes, pos, bytes.len() as int);
    if next != pos {
        lemma_ascii_boundary(bytes, pos);
    }
    if is_format {
        lemma_end_format_at(language, bytes, next);
        let end = language.end_format_at(bytes, next, bytes.len() as int);
        if end != next && end != bytes.len() {
            lemma_ascii_boundary(bytes, end - 1);
        } else if end == bytes.len() {
            is_char_boundary_start_end_of_seq(bytes);
        }
    }
}

/// The recognizer of the format strings of one of the supported languages.
#[derive(Clone, Copy)]
pub enum Recognizer {
    Null(FormatNull),
    C(FormatC),
    Python(FormatPython),
    PythonBrace(FormatPythonBrace),
}

impl Recognizer {
    /// The language whose format strings this recognizer reads.
    pub open spec fn language(&self) -> Language {
        match self {
            Recognizer::Null(_) => Language::Null,
            Recognizer::C(_) => Language::C,
            Recognizer::Python(_) => Language::Python,
            Recognizer::PythonBrace(_) => Language::PythonBrace,
        }
    }
}

impl FormatParser for Recognizer {
    open spec fn next_char_at(&self, bytes: Seq<u8>, pos: int, len: int) -> (int, bool) {
        self.language().next_char_at(bytes, pos, len)
    }

    open spec fn end_format_at(&self, bytes: Seq<u8>, pos: int, len: int) -> int {
        self.language().end_format_at(bytes, pos, len)
    }

    fn next_char(&self, s: &str, pos: usize, len: usize) -> (r: (usize, bool)) {
        match self {
            Recognizer::Null(p) => p.next_char(s, pos, len),
            Recognizer::C(p) => p.next_char(s, pos, len),
            Recognizer::Python(p) => p.next_char(s, pos, len),
            Recognizer::PythonBrace(p) => p.next_char(s, pos, len),
        }
    }

    fn find_end_format(&self, s: &str, pos: usize, len: usize) -> (r: usize) {
        match self {
            Recognizer::Null(p) => p.find_end_format(s, pos, len),
            Recognizer::C(p) => p.find_end_format(s, pos, len),
            Recognizer::Python(p) => p.find_end_format(s, pos, len),
            Recognizer::PythonBrace(p) => p.find_end_format(s, pos, len),
        }
    }
}

} // verus!
