use crate::security::SecString;
use vstd::prelude::*;

verus! {

/// Number of characters in a generated entry identifier (nanoid's default).
pub const ENTRY_ID_LEN: usize = 21;

/// Errors from entry validation and password generation.
#[derive(Debug, Clone, Copy, PartialEq, Eq, Structural)]
pub enum PasswordError {
    /// A failure with no more specific description, such as a wordlist that
    /// is too short for diceware.
    Unknown,
    /// The entry's password buffer is empty.
    EmptyPassword,
}

/// The mathematical content of an [`Entry`]: its three character sequences.
#[verifier::ext_equal]
pub struct EntryView {
    pub id: Seq<char>,
    pub name: Seq<char>,
    pub password: Seq<char>,
}

/// Relies on `nanoid::format` with nanoid's default secure generator and
/// URL-safe alphabet: the returned identifier has exactly the requested
/// number of characters. A request for zero characters would never return,
/// so it is excluded. The identifier is random, so nothing more is stated.
#[verifier::external_body]
fn nanoid_id(size: usize) -> (r: String)
    requires
        1 <= size,
    ensures
        r@.len() == size,
{
    nanoid::format(nanoid::rngs::default, &nanoid::alphabet::SAFE, size)
}

/// A credential record: a generated stable identifier, a display name and a
/// secret password. Entries are immutable after construction; an empty
/// password is rejected at insertion into a vault, not at construction.
#[derive(Debug, Clone)]
pub struct Entry {
    id: String,
    name: String,
    password: SecString,
}

impl View for Entry {
    type V = EntryView;

    closed spec fn view(&self) -> EntryView {
        EntryView { id: self.id@, name: self.name@, password: self.password@ }
    }
}

impl Entry {
    /// Creates an entry with a fresh random identifier.
    pub fn new(name: &str, password: &str) -> (r: Self)
        ensures
            r@.name == name@,
            r@.password == password@,
            r@.id.len() == ENTRY_ID_LEN,
    {
        let id = nanoid_id(ENTRY_ID_LEN);
        Entry { id, name: name.to_owned(), password: SecString::new(password.to_owned()) }
    }

    /// The entry's identifier.
    pub fn id(&self) -> (r: &String)
        ensures
            r@ == self@.id,
    {
        &self.id
    }

    /// The entry's display name.
    pub fn name(&self) -> (r: &String)
        ensures
            r@ == self@.name,
    {
        &self.name
    }

    /// The entry's password.
    pub fn password(&self) -> (r: &SecString)
        ensures
            r@ == self@.password,
    {
        &self.password
    }

    /// Rebuilds an entry from stored fields, preserving the identifier it was
    /// created with.
    pub fn from_parts(id: String, name: String, password: String) -> (r: Self)
        ensures
            r@.id == id@,
            r@.name == name@,
            r@.password == password@,
    {
        Entry { id, name, password: SecString::new(password) }
    }
}

impl PartialEq for Entry {
    /// Equality is field-wise; the password compares through to the wrapped
    /// string.
    fn eq(&self, other: &Self) -> (r: bool) {
        let r = self.id == other.id && self.name == other.name && self.password
            == other.password;
        proof {
            if r {
                assert(self@ =~= other@);
            }
        }
        r
    }
}

impl vstd::std_specs::cmp::PartialEqSpecImpl for Entry {
    open spec fn obeys_eq_spec() -> bool {
        true
    }

    open spec fn eq_spec(&self, other: &Self) -> bool {
        self@ == other@
    }
}

} // verus!
