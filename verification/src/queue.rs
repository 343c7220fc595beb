//! A minimal delayed item: an identifier, a relative delay and opaque data.

use vstd::prelude::*;

use crate::msg_type::fresh_uuid_string;

verus! {

/// A delayed item keyed by its relative delay.
#[derive(Debug)]
pub struct Item {
    /// A fresh random token in hyphenated form, 36 characters.
    pub id: String,
    /// The relative delay, in seconds.
    pub delay: u64,
    /// Opaque content.
    pub data: String,
}

impl Item {
    /// Builds an item with a freshly generated identifier.
    pub fn new(delay: u64, data: String) -> (r: Item)
        ensures
            r.delay == delay,
            r.data@ == data@,
            r.id@.len() == 36,
    {
        let id = fresh_uuid_string();
        Item { id, delay, data }
    }
}

} // verus!
