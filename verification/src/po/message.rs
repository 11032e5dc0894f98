//! A message of a PO entry.

use vstd::prelude::*;
use vstd::string::*;

use crate::po::escape::{escaped, unescaped, EscapePoExt};

verus! {

/// One string field of an entry, with the line on which it starts.
#[derive(Debug, PartialEq, Eq)]
pub struct Message {
    pub line_number: usize,
    pub value: String,
}

/// What a message holds: its line and its text.
pub struct MessageView {
    pub line_number: usize,
    pub value: Seq<char>,
}

impl View for Message {
    type V = MessageView;

    open spec fn view(&self) -> MessageView {
        MessageView { line_number: self.line_number, value: self.value@ }
    }
}

impl Default for Message {
    fn default() -> (r: Self)
        ensures
            r.line_number == 0,
            r.value@ == Seq::<char>::empty(),
    {
        Message { line_number: 0, value: String::new() }
    }
}

impl Message {
    /// Creates a message with the given line and value.
    pub fn new(line_number: usize, value: &str) -> (r: Self)
        ensures
            r.line_number == line_number,
            r.value@ == value@,
    {
        Message { line_number, value: value.to_owned() }
    }

    /// Escapes the special characters of the value, as they are written in
    /// a PO file.
    pub fn escape(&mut self)
        ensures
            final(self).line_number == old(self).line_number,
            final(self).value@ == escaped(old(self).value@),
    {
        self.value = self.value.as_str().escape_po();
    }

    /// Replaces the escape sequences of a value read from a PO file.
    pub fn unescape(&mut self)
        ensures
            final(self).line_number == old(self).line_number,
            final(self).value@ == unescaped(old(self).value@),
    {
        self.value = self.value.as_str().unescape_po();
    }

    /// Returns a copy of this message.
    pub fn duplicate(&self) -> (r: Self)
        ensures
            r@ == self@,
    {
        Message { line_number: self.line_number, value: self.value.clone() }
    }
}

} // verus!
