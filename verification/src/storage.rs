//! Storage keys: the paths under which the ledger keeps its values.

use vstd::prelude::*;
use vstd::std_specs::cmp::PartialEqSpecImpl;
use vstd::string::StringExecFns;

verus! {

/// A storage key: a path of segments separated by `/`.
#[derive(Clone, Debug)]
pub struct Key {
    pub path: String,
}

impl View for Key {
    type V = Seq<char>;

    open spec fn view(&self) -> Seq<char> {
        self.path@
    }
}

impl PartialEq for Key {
    fn eq(&self, other: &Key) -> (same: bool) {
        self.path == other.path
    }
}

impl PartialEqSpecImpl for Key {
    open spec fn obeys_eq_spec() -> bool {
        true
    }

    open spec fn eq_spec(&self, other: &Key) -> bool {
        self.path@ == other.path@
    }
}

impl Eq for Key {

}

impl Key {
    /// The key that is the given path.
    pub fn new(path: &str) -> (key: Key)
        ensures
            key@ == path@,
    {
        Key { path: String::from_str(path) }
    }

    /// This key with one more segment below it.
    pub fn push(&self, segment: &str) -> (key: Key)
        ensures
            key@ == self@ + "/"@ + segment@,
    {
        let mut path = self.path.clone();
        path.append("/");
        path.append(segment);
        Key { path }
    }
}

} // verus!
