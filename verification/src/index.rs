//! The handle: a slot and the generation at which it was issued.

use vstd::prelude::*;
use crate::text::{decimal, push_char, push_decimal};

verus! {

/// A handle issued by the allocator: the slot it names and the generation
/// at which that slot was handed out.
///
/// Two handles are equal exactly when both fields match.
#[derive(Debug, PartialEq, Eq, Copy, Clone, Structural)]
pub struct Index {
    pub index: usize,
    pub version: u64,
}

impl Index {
    /// The handle as text: its slot and its generation in decimal, a full
    /// stop between them.
    pub open spec fn text(self) -> Seq<char> {
        decimal(self.index as nat) + seq!['.'] + decimal(self.version as nat)
    }

    pub fn to_text(&self) -> (s: String)
        ensures
            s@ == self.text(),
    {
        let mut s = String::new();
        push_decimal(&mut s, self.index as u64);
        push_char(&mut s, '.');
        push_decimal(&mut s, self.version);
        assert(s@ =~= self.text());
        s
    }
}

impl Default for Index {
    fn default() -> (r: Self)
        ensures
            r == (Index { index: 0, version: 0 }),
    {
        Index { index: 0, version: 0 }
    }
}

} // verus!
