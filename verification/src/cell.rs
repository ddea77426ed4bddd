//! The text shown in one terminal cell: exactly one grapheme cluster.
use vstd::prelude::*;

use unicode_segmentation::UnicodeSegmentation;

use crate::text::{char_to_string, str_to_string};

verus! {

/// The number of extended grapheme clusters that `unicode_segmentation` finds in a
/// string with these characters.
pub uninterp spec fn grapheme_count(s: Seq<char>) -> nat;

/// Calls `UnicodeSegmentation::graphemes` (extended clusters) and counts what it yields;
/// the count is named `grapheme_count`. An empty string yields no cluster, and a string of
/// one character exactly one (the cluster boundaries at the start and end of the text are
/// the only ones).
#[verifier::external_body]
fn count_graphemes(s: &str) -> (n: usize)
    ensures
        n == grapheme_count(s@),
        s@.len() == 0 ==> n == 0,
        s@.len() == 1 ==> n == 1,
{
    s.graphemes(true).count()
}

/// The content of a single cell: one grapheme cluster.
#[derive(Debug, PartialEq)]
pub struct CellContent(String);

impl CellContent {
    /// Every cell content is exactly one grapheme cluster.
    #[verifier::type_invariant]
    spec fn one_cluster(self) -> bool {
        grapheme_count(self.0@) == 1
    }
}

/// The error for text that is not exactly one grapheme cluster.
#[derive(Debug)]
pub struct InvalidCellContent;

impl View for CellContent {
    type V = Seq<char>;

    closed spec fn view(&self) -> Seq<char> {
        self.0@
    }
}

impl vstd::std_specs::convert::TryFromSpecImpl<&str> for CellContent {
    open spec fn obeys_try_from_spec() -> bool {
        false
    }

    open spec fn try_from_spec(s: &str) -> Result<Self, Self::Error> {
        Err(InvalidCellContent)
    }
}

impl TryFrom<&str> for CellContent {
    type Error = InvalidCellContent;

    /// Succeeds exactly when `s` is a single grapheme cluster, which becomes the content.
    fn try_from(s: &str) -> (r: Result<Self, Self::Error>)
        ensures
            r is Ok <==> grapheme_count(s@) == 1,
            r matches Ok(c) ==> c@ == s@,
    {
        if count_graphemes(s) == 1 {
            Ok(CellContent(str_to_string(s)))
        } else {
            Err(InvalidCellContent)
        }
    }
}

impl vstd::std_specs::convert::FromSpecImpl<char> for CellContent {
    open spec fn obeys_from_spec() -> bool {
        false
    }

    open spec fn from_spec(c: char) -> CellContent {
        arbitrary()
    }
}

impl From<char> for CellContent {
    fn from(c: char) -> (r: Self)
        ensures
            r@ == seq![c],
            grapheme_count(r@) == 1,
    {
        let s = char_to_string(c);
        let n = count_graphemes(s.as_str());
        assert(n == 1);
        CellContent(s)
    }
}

impl CellContent {
    /// The text of the cell, which is exactly one grapheme cluster.
    pub fn as_str(&self) -> (r: &str)
        ensures
            r@ == self@,
            grapheme_count(r@) == 1,
    {
        proof {
            use_type_invariant(self);
        }
        self.0.as_str()
    }

    /// A blank cell: one space.
    pub fn blank() -> (r: Self)
        ensures
            r@ == seq![' '],
    {
        CellContent::from(' ')
    }

    /// A copy with the same characters.
    pub fn duplicate(&self) -> (r: Self)
        ensures
            r@ == self@,
    {
        proof {
            use_type_invariant(self);
        }
        CellContent(str_to_string(self.0.as_str()))
    }
}

impl Clone for CellContent {
    fn clone(&self) -> (r: Self)
        ensures
            r@ == self@,
    {
        self.duplicate()
    }
}

impl Default for CellContent {
    fn default() -> (r: Self)
        ensures
            r@ == seq![' '],
    {
        CellContent::blank()
    }
}

} // verus!
