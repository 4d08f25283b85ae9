//! A clipboard held by the editor itself.

use crate::text_store::{chars_of, string_of};
use vstd::prelude::*;

verus! {

/// The clipboard could not hand out or take a value.
#[derive(Clone, Copy, Debug, PartialEq, Eq, Structural)]
pub struct ClipboardError;

/// Clipboard local to one editor.
#[derive(Debug)]
pub struct LocalClipboard {
    text: String,
}

impl View for LocalClipboard {
    type V = Seq<char>;

    closed spec fn view(&self) -> Seq<char> {
        self.text@
    }
}

impl LocalClipboard {
    /// Empty clipboard.
    pub fn new() -> (r: LocalClipboard)
        ensures
            r@ == Seq::<char>::empty(),
    {
        LocalClipboard { text: String::new() }
    }

    /// A copy of the clipboard.
    pub fn duplicate(&self) -> (r: LocalClipboard)
        ensures
            r@ == self@,
    {
        LocalClipboard { text: self.text.clone() }
    }

    /// The text held.
    pub fn get_string(&self) -> (r: Result<String, ClipboardError>)
        ensures
            r.is_ok() && r.unwrap()@ == self@,
    {
        Ok(self.text.clone())
    }

    /// Hold a new text.
    pub fn set_string(&mut self, s: &str) -> (r: Result<(), ClipboardError>)
        ensures
            r.is_ok(),
            final(self)@ == s@,
    {
        let v = chars_of(s);
        proof {
            assert(v@.subrange(0, v@.len() as int) == v@);
        }
        self.text = string_of(&v, 0, v.len());
        Ok(())
    }
}

} // verus!
