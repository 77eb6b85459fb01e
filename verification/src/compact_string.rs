//! The marker-carrying string wrapper that switches the codec to the
//! compact string convention: a one-byte length equal to the UTF-8 byte
//! count plus one, in place of the plain two-byte length prefix.

use vstd::prelude::*;

verus! {

/// A string that the codec encodes with the compact convention.
///
/// The wrapper owns its content; the accessor is the public field itself,
/// so call sites are explicit about which convention is in play.
#[derive(Debug, Clone, PartialEq, Eq, Default)]
pub struct CompactString(pub String);

impl View for CompactString {
    type V = Seq<char>;

    open spec fn view(&self) -> Seq<char> {
        self.0@
    }
}

impl CompactString {
    /// Read access to the wrapped string.
    pub fn as_str(&self) -> (r: &str)
        ensures
            r@ == self@,
    {
        self.0.as_str()
    }
}

} // verus!
