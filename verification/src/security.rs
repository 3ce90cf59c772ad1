use vstd::prelude::*;

verus! {

/// A secret-holding string.
///
/// The wrapper keeps the secret behind an explicit accessor and offers
/// [`SecString::erase`] to drop the contents as soon as the owner is done with
/// them. Verified code cannot issue the volatile writes that a hardened
/// memory wipe needs, so erasure here is best effort: it empties the buffer
/// and releases it, shortening — not eliminating — the window during which
/// the secret is resident in process memory.
#[derive(Debug, Clone)]
pub struct SecString {
    data: String,
}

impl View for SecString {
    type V = Seq<char>;

    closed spec fn view(&self) -> Seq<char> {
        self.data@
    }
}

impl SecString {
    /// Wraps an owned string.
    pub fn new(data: String) -> (r: Self)
        ensures
            r@ == data@,
    {
        SecString { data }
    }

    /// Read-only access to the wrapped string.
    pub fn expose(&self) -> (r: &String)
        ensures
            r@ == self@,
    {
        &self.data
    }

    /// True when the secret is empty.
    pub fn is_empty(&self) -> (r: bool)
        ensures
            r == (self@.len() == 0),
    {
        self.data.as_str().is_empty()
    }

    /// Best-effort erasure: the secret is no longer reachable through this
    /// value afterwards.
    pub fn erase(&mut self)
        ensures
            final(self)@.len() == 0,
    {
        self.data = String::new();
    }
}

impl PartialEq for SecString {
    /// Equality passes through to the wrapped string.
    fn eq(&self, other: &Self) -> bool {
        self.data == other.data
    }
}

impl vstd::std_specs::cmp::PartialEqSpecImpl for SecString {
    open spec fn obeys_eq_spec() -> bool {
        true
    }

    open spec fn eq_spec(&self, other: &Self) -> bool {
        self@ == other@
    }
}

impl From<String> for SecString {
    fn from(data: String) -> Self {
        SecString { data }
    }
}

impl vstd::std_specs::convert::FromSpecImpl<String> for SecString {
    open spec fn obeys_from_spec() -> bool {
        true
    }

    closed spec fn from_spec(data: String) -> Self {
        SecString { data }
    }
}

/// A secret-holding byte or element buffer, with the same best-effort erasure
/// story as [`SecString`].
#[derive(Debug, Clone)]
pub struct SecVec<T> {
    data: Vec<T>,
}

impl<T> View for SecVec<T> {
    type V = Seq<T>;

    closed spec fn view(&self) -> Seq<T> {
        self.data@
    }
}

impl<T> SecVec<T> {
    /// Wraps an owned buffer.
    pub fn new(data: Vec<T>) -> (r: Self)
        ensures
            r@ == data@,
    {
        SecVec { data }
    }

    /// Read-only access to the wrapped buffer.
    pub fn expose(&self) -> (r: &Vec<T>)
        ensures
            r@ == self@,
    {
        &self.data
    }

    /// Number of elements held.
    pub fn len(&self) -> (r: usize)
        ensures
            r == self@.len(),
    {
        self.data.len()
    }
}

impl SecVec<u8> {
    /// Best-effort erasure: every byte is overwritten with zero, then the
    /// buffer is emptied.
    pub fn erase(&mut self)
        ensures
            final(self)@.len() == 0,
    {
        let n = self.data.len();
        for i in 0..n
            invariant
                n == self.data.len(),
        {
            self.data[i] = 0;
        }
        self.data.clear();
    }
}

impl<T> From<Vec<T>> for SecVec<T> {
    fn from(data: Vec<T>) -> Self {
        SecVec { data }
    }
}

impl<T> vstd::std_specs::convert::FromSpecImpl<Vec<T>> for SecVec<T> {
    open spec fn obeys_from_spec() -> bool {
        true
    }

    closed spec fn from_spec(data: Vec<T>) -> Self {
        SecVec { data }
    }
}

} // verus!
