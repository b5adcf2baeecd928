//! What can go wrong with a tracker.

use vstd::prelude::*;

verus! {

#[derive(Debug)]
pub enum BpfError {
    LoadError(String),
    AttachError(String),
    MapError(String),
}

impl BpfError {
    /// Whether this is a load error of the given text.
    pub open spec fn is_load(&self, text: Seq<char>) -> bool {
        match *self {
            BpfError::LoadError(s) => s@ == text,
            _ => false,
        }
    }

    /// Whether this is a map error of the given text.
    pub open spec fn is_map(&self, text: Seq<char>) -> bool {
        match *self {
            BpfError::MapError(s) => s@ == text,
            _ => false,
        }
    }
}

pub(crate) fn load_error(text: &str) -> (r: BpfError)
    ensures
        r.is_load(text@),
{
    BpfError::LoadError(text.to_owned())
}

pub(crate) fn map_error(text: &str) -> (r: BpfError)
    ensures
        r.is_map(text@),
{
    BpfError::MapError(text.to_owned())
}

} // verus!
