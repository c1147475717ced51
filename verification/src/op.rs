//! The patch operation model: the three edit kinds the differ emits, each
//! carrying a pointer path and, for add and replace, a payload value.

use vstd::prelude::*;
use crate::value::{Value, ValueView};

verus! {

/// One emitted edit step. Applied in list order against the evolving value:
/// `Add` inserts (shifting later sequence elements right), `Remove` deletes
/// (shifting them left), `Replace` overwrites in place.
#[derive(Debug, PartialEq, Eq)]
pub enum PatchOperation {
    Add { path: String, value: Value },
    Remove { path: String },
    Replace { path: String, value: Value },
}

/// The mathematical model of a [`PatchOperation`].
pub enum OpView {
    Add { path: Seq<char>, value: ValueView },
    Remove { path: Seq<char> },
    Replace { path: Seq<char>, value: ValueView },
}

impl View for PatchOperation {
    type V = OpView;

    open spec fn view(&self) -> OpView {
        match *self {
            PatchOperation::Add { path, value } => OpView::Add { path: path@, value: value@ },
            PatchOperation::Remove { path } => OpView::Remove { path: path@ },
            PatchOperation::Replace { path, value } => OpView::Replace {
                path: path@,
                value: value@,
            },
        }
    }
}

/// The models of a list of operations.
pub open spec fn ops_view(s: Seq<PatchOperation>) -> Seq<OpView> {
    s.map(|i: int, op: PatchOperation| op@)
}

} // verus!
