//! What the user typed, taken apart for the search.

use crate::text::{split, split_spec};
use vstd::prelude::*;

verus! {

/// A query: the text as typed, and its words.
#[derive(Debug)]
pub struct SearchQuery {
    pub text: String,
    /// The pieces of the text between blanks; two blanks in a row give an
    /// empty piece.
    pub parts: Vec<String>,
}

impl SearchQuery {
    /// The query for a text.
    pub fn from(query: String) -> (r: SearchQuery)
        ensures
            r.text@ == query@,
            Seq::new(r.parts@.len(), |i: int| r.parts@[i]@) == split_spec(query@, ' '),
    {
        SearchQuery { parts: split(query.as_str(), ' '), text: query }
    }
}

} // verus!
