//! Strings and byte strings that a program names by number.
use vstd::prelude::*;

use crate::value::{BytesId, StringId};

verus! {

/// The literals of a program, fixed before it runs.
#[derive(Debug)]
pub struct Interns {
    pub strings: Vec<String>,
    pub bytes: Vec<Vec<u8>>,
}

impl Interns {
    /// `id` names a string of this table.
    pub open spec fn has_str(self, id: StringId) -> bool {
        id.0 < self.strings@.len()
    }

    /// `id` names a byte string of this table.
    pub open spec fn has_bytes(self, id: BytesId) -> bool {
        id.0 < self.bytes@.len()
    }

    /// The characters of the string `id`.
    pub open spec fn str_model(self, id: StringId) -> Seq<char> {
        self.strings@[id.0 as int]@
    }

    /// The bytes of the byte string `id`.
    pub open spec fn bytes_model(self, id: BytesId) -> Seq<u8> {
        self.bytes@[id.0 as int]@
    }

    /// The string that `id` names.
    pub fn get_str(&self, id: StringId) -> (s: &str)
        requires
            self.has_str(id),
        ensures
            s@ == self.str_model(id),
    {
        self.strings[id.0].as_str()
    }

    /// The byte string that `id` names.
    pub fn get_bytes(&self, id: BytesId) -> (bytes: &[u8])
        requires
            self.has_bytes(id),
        ensures
            bytes@ == self.bytes_model(id),
    {
        self.bytes[id.0].as_slice()
    }
}

} // verus!
