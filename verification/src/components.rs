//! Kinds of data that a value store may hold.

use vstd::prelude::*;
use crate::index::Index;

verus! {

/// Marks a type as a kind of data that is stored per handle.
pub trait Component {

}

impl Component for () {

}

/// The children of an entity, by their handles.
#[derive(Debug, PartialEq)]
pub struct CChildren {
    pub list: Vec<Index>,
}

impl Component for CChildren {

}

} // verus!
