use vstd::prelude::*;

use crate::attrs::{AttrPairs, Attributes};

verus! {

/// A directory entry: its distinguished name and its attributes.
#[derive(Debug)]
pub struct LdapEntry {
    pub dn: String,
    pub attributes: Attributes,
}

impl View for LdapEntry {
    type V = (Seq<char>, AttrPairs);

    open spec fn view(&self) -> (Seq<char>, AttrPairs) {
        (self.dn@, self.attributes@)
    }
}

/// The views of a sequence of entries.
pub open spec fn entries_view(entries: Seq<LdapEntry>) -> Seq<(Seq<char>, AttrPairs)> {
    entries.map_values(|e: LdapEntry| e@)
}

/// Every entry's attribute set is well formed.
pub open spec fn all_wf(entries: Seq<LdapEntry>) -> bool {
    forall|i: int| 0 <= i < entries.len() ==> (#[trigger] entries[i]).attributes.wf()
}

impl LdapEntry {
    pub fn new(dn: String, attributes: Attributes) -> (r: Self)
        ensures
            r.dn == dn,
            r.attributes == attributes,
    {
        LdapEntry { dn, attributes }
    }

    /// A copy of this entry.
    pub fn duplicate(&self) -> (r: Self)
        requires
            self.attributes.wf(),
        ensures
            r@ == self@,
            r.attributes.wf(),
    {
        LdapEntry { dn: self.dn.clone(), attributes: self.attributes.duplicate() }
    }
}

/// Why an export failed.
#[derive(Debug)]
pub enum CoreError {
    /// The output path has no extension, or one that names no known format.
    UnknownExtension,
    /// The encoder could not serialise the entries.
    EncodingFailed(String),
    /// The output could not be written.
    WriteFailed(String),
}

impl CoreError {
    /// A message for the user.
    pub fn message(&self) -> (r: String)
        ensures
            self is UnknownExtension ==> r@ == "Unknown file extension"@,
            self is EncodingFailed ==> r@ == self->EncodingFailed_0@,
            self is WriteFailed ==> r@ == self->WriteFailed_0@,
    {
        match self {
            CoreError::UnknownExtension => String::from_str("Unknown file extension"),
            CoreError::EncodingFailed(m) => m.clone(),
            CoreError::WriteFailed(m) => m.clone(),
        }
    }
}

} // verus!
