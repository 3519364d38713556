//! Raw character data held by a text node.

use vstd::prelude::*;

verus! {

/// The payload of a text node.
#[derive(Debug, PartialEq)]
pub struct Text {
    pub data: String,
}

impl View for Text {
    type V = Seq<char>;

    open spec fn view(&self) -> Seq<char> {
        self.data@
    }
}

} // verus!
