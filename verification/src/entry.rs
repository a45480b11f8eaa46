//! Abbreviation entries and the error that names a bad one.

use vstd::prelude::*;
use vstd::string::*;

verus! {

/// One abbreviation with the text it stands for.
#[derive(Debug, Clone, PartialEq, Eq)]
pub struct Abbreviation {
    /// The abbreviation, searched for as a whole word.
    pub abbr: String,
    /// The expansion, shown as the title of the markup.
    pub expanded: String,
}

impl View for Abbreviation {
    type V = (Seq<char>, Seq<char>);

    /// The abbreviation and its expansion, as characters.
    open spec fn view(&self) -> (Seq<char>, Seq<char>) {
        (self.abbr@, self.expanded@)
    }
}

/// The views of a list of entries, in order.
pub open spec fn views_of(entries: Seq<Abbreviation>) -> Seq<(Seq<char>, Seq<char>)> {
    Seq::new(entries.len(), |i: int| entries[i]@)
}

/// An entry whose abbreviation does not give a valid search pattern.
#[derive(Debug, Clone, PartialEq, Eq)]
pub struct ConfigError {
    /// The position of the entry in the list.
    pub index: usize,
    /// The abbreviation of the entry.
    pub abbr: String,
}

/// The text that a `ConfigError` for `abbr` is reported with.
pub open spec fn config_error_message(abbr: Seq<char>) -> Seq<char> {
    "abbreviation is not a valid search pattern: "@ + abbr
}

impl ConfigError {
    /// A diagnostic that names the offending abbreviation.
    pub fn message(&self) -> (text: String)
        ensures
            text@ == config_error_message(self.abbr@),
    {
        let mut text = String::from_str("abbreviation is not a valid search pattern: ");
        text.append(self.abbr.as_str());
        text
    }
}

} // verus!
