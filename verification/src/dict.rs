//! Spelling dictionaries: what is asked of `spellbook`.

use vstd::prelude::*;
use vstd::string::*;

use spellbook::Dictionary;

verus! {

/// The hasher with which `spellbook` builds a dictionary, known by name
/// only.
#[verifier::external_type_specification]
#[verifier::external_body]
pub struct ExDefaultHashBuilder(spellbook::DefaultHashBuilder);

/// A dictionary of `spellbook`, known by the words that it accepts.
#[verifier::external_type_specification]
#[verifier::external_body]
#[verifier::reject_recursive_types(S)]
pub struct ExDictionary<S>(spellbook::Dictionary<S>);

/// The words that a dictionary accepts: those for which `Dictionary::check`
/// answers `true`.
pub uninterp spec fn dictionary_words(dict: Dictionary) -> Set<Seq<char>>;

/// Calls `Dictionary::check`, which tells whether the dictionary accepts
/// the word; the answer depends on the dictionary and the word alone.
#[verifier::external_body]
pub(crate) fn dict_check(dict: &Dictionary, word: &str) -> (r: bool)
    ensures
        r == dictionary_words(*dict).contains(word@),
{
    dict.check(word)
}

} // verus!
