//! Shortcuts: the entries of the launcher by their identity.

use vstd::prelude::*;

verus! {

/// The stable identity of a shortcut: a digest of its name, comment,
/// icon, generic name and keywords, as text.
#[derive(PartialEq, Eq, PartialOrd, Ord, Hash, Debug)]
pub struct ShortcutId(pub String);

impl View for ShortcutId {
    type V = Seq<char>;

    open spec fn view(&self) -> Seq<char> {
        self.0@
    }
}

impl Clone for ShortcutId {
    fn clone(&self) -> (r: Self)
        ensures
            r == *self,
    {
        ShortcutId(self.0.clone())
    }
}

} // verus!
