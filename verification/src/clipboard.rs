//! The editor's own clipboard.

use vstd::prelude::*;
use vstd::utf8::encode_utf8;

use crate::text::utf8_len;

verus! {

/// Holds the last copied text.
pub struct Clipboard {
    content: String,
}

impl View for Clipboard {
    type V = Seq<char>;

    /// The copied text.
    closed spec fn view(&self) -> Seq<char> {
        self.content@
    }
}

impl Clipboard {
    #[verifier::type_invariant]
    spec fn inv(&self) -> bool {
        encode_utf8(self.content@).len() <= usize::MAX
    }

    /// An empty clipboard.
    pub fn new() -> (res: Self)
        ensures
            res@ == Seq::<char>::empty(),
    {
        let content = String::new();
        assert(encode_utf8(content@) =~= Seq::<u8>::empty());
        Clipboard { content }
    }

    /// Keeps a copy of `text`, replacing what was held.
    pub fn copy(&mut self, text: &str)
        ensures
            final(self)@ == text@,
    {
        // Only for its bound: a `str`'s encoding fits in a `usize`.
        let _ = utf8_len(text);
        self.content = String::from_str(text);
    }

    /// The text last copied.
    pub fn paste(&self) -> (res: &str)
        ensures
            res@ == self@,
            encode_utf8(res@).len() <= usize::MAX,
    {
        proof { use_type_invariant(self); }
        self.content.as_str()
    }
}

} // verus!
