//! What a resolver reports of each record, for the operator to see.

use vstd::prelude::*;

use crate::record::text_view;

verus! {

/// What became of a record that was offered to a resolver.
#[derive(Clone, Copy, Debug, PartialEq, Eq, Structural)]
pub enum Verdict {
    /// No record of the same track was held: the record was taken in.
    Added,
    /// A record of the same track was held and the offered one is better: it
    /// took the place of the one held.
    Replaced,
    /// A record of the same track was held and the offered one is not better:
    /// it was dropped.
    Discarded,
    /// The record carries no stable identifier and was put aside for the
    /// resolution by title.
    Deferred,
}

/// What a resolver reports of one record: the verdict, and the path of the
/// record of the same track that was held, where there was one.
pub struct Resolution {
    /// What became of the record.
    pub verdict: Verdict,
    /// The path of the record that it was held against.
    pub held_path: Option<String>,
}

/// The mathematical value of a [`Resolution`].
pub struct ResolutionValues {
    pub verdict: Verdict,
    pub held_path: Option<Seq<char>>,
}

impl View for Resolution {
    type V = ResolutionValues;

    open spec fn view(&self) -> ResolutionValues {
        ResolutionValues {
            verdict: self.verdict,
            held_path: text_view(self.held_path),
        }
    }
}

} // verus!
