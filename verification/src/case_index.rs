//! The identifier of a case within a run.

use vstd::prelude::*;

use crate::text::{append_decimal, decimal};

verus! {

/// How a report names the case at `offset` cases after the first: the
/// cases are counted from one.
pub open spec fn label_of(offset: nat) -> Seq<char> {
    "Case #"@ + decimal(offset + 1)
}

/// The position of a case in its run. The first case of a run has the
/// default index, and each further case has the index that follows.
#[derive(Clone, Copy, Debug, PartialEq, Eq, PartialOrd, Ord, Structural, Hash)]
pub struct CaseIndex(pub usize);

impl View for CaseIndex {
    type V = nat;

    open spec fn view(&self) -> nat {
        self.0 as nat
    }
}

impl CaseIndex {
    /// The index of the first case of a run.
    pub fn first() -> (r: CaseIndex)
        ensures
            r@ == 0,
    {
        CaseIndex(0)
    }

    /// The index of the case at `offset` cases after the first.
    pub fn at(offset: usize) -> (r: CaseIndex)
        ensures
            r@ == offset,
    {
        CaseIndex(offset)
    }

    /// The number of cases that come before this one.
    pub fn offset(&self) -> (r: usize)
        ensures
            r == self@,
    {
        self.0
    }

    /// The index of the case that follows this one.
    pub fn next(&self) -> (r: CaseIndex)
        requires
            self@ < usize::MAX,
        ensures
            r@ == self@ + 1,
    {
        CaseIndex(self.0 + 1)
    }

    /// The name of this case in a report.
    pub fn label(&self) -> (r: String)
        ensures
            r@ == label_of(self@),
    {
        let mut text = "Case #".to_owned();
        append_decimal(&mut text, self.0 as u128 + 1);
        text
    }
}

impl Default for CaseIndex {
    fn default() -> (r: CaseIndex)
        ensures
            r@ == 0,
    {
        CaseIndex(0)
    }
}

} // verus!
