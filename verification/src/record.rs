//! The record and its entries, as executable data.
//!
//! [`BaseAccount`] is the persisted container the hosting runtime loads and
//! commits; [`ItemStruct`] is one submitted link. Link text travels as its
//! UTF-8 bytes and the submitter identity as a fixed-size key, so the
//! serialized size of a record is a function of the values alone. The view
//! of each type is its counterpart in [`crate::model`], and every contract
//! speaks of those views.

use vstd::prelude::*;

use crate::model::{
    item_matches, item_size, items_size, record_size, record_wf, ItemModel, RecordModel,
    ITEM_BASE_SIZE, RECORD_BASE_SIZE,
};
use crate::model::{lemma_items_size_take_le, lemma_items_size_take_succ};

verus! {

/// The caller/submitter identity: an opaque key of 32 bytes, distinct from
/// any human-readable name.
pub type IdentityKey = [u8; 32];

/// One submitted link: the link text as UTF-8 bytes, the identity key of
/// the submitting caller, and the entry's upvote counter.
#[derive(Debug, Clone, PartialEq, Eq)]
pub struct ItemStruct {
    /// The submitted link, as the bytes of its text.
    pub gif_link: Vec<u8>,
    /// The identity key recorded as the entry's submitter.
    pub user_address: IdentityKey,
    /// How often the entry has been upvoted.
    pub gif_upvotes: u64,
}

impl View for ItemStruct {
    type V = ItemModel;

    open spec fn view(&self) -> ItemModel {
        ItemModel {
            gif_link: self.gif_link@,
            user_address: self.user_address@,
            gif_upvotes: self.gif_upvotes as nat,
        }
    }
}

/// The persisted record: the entry counter, the entries in append order,
/// and the fixed serialized byte capacity of the record's slot.
#[derive(Debug, Clone, PartialEq, Eq)]
pub struct BaseAccount {
    /// The entry counter, incremented exactly once per successful append.
    pub total_gifs: u64,
    /// The entries, in append order; duplicates are permitted.
    pub gif_list: Vec<ItemStruct>,
    /// The fixed capacity ceiling, set at creation and never changed.
    pub capacity: u64,
}

impl View for BaseAccount {
    type V = RecordModel;

    open spec fn view(&self) -> RecordModel {
        RecordModel {
            total_gifs: self.total_gifs as nat,
            gif_list: self.gif_list@.map_values(|it: ItemStruct| it@),
            capacity: self.capacity as nat,
        }
    }
}

/// Whether two byte strings hold the same bytes.
pub fn bytes_eq(a: &Vec<u8>, b: &Vec<u8>) -> (r: bool)
    ensures
        r == (a@ == b@),
{
    if a.len() != b.len() {
        return false;
    }
    let mut i: usize = 0;
    while i < a.len()
        invariant
            a.len() == b.len(),
            i <= a.len(),
            forall|j: int| 0 <= j < i ==> a@[j] == b@[j],
        decreases a.len() - i,
    {
        if a[i] != b[i] {
            return false;
        }
        i += 1;
    }
    proof {
        assert(a@ =~= b@);
    }
    true
}

/// Whether two identity keys are the same key.
pub fn key_eq(a: &IdentityKey, b: &IdentityKey) -> (r: bool)
    ensures
        r == (a@ == b@),
{
    let mut i: usize = 0;
    while i < 32
        invariant
            i <= 32,
            forall|j: int| 0 <= j < i ==> a@[j] == b@[j],
        decreases 32 - i,
    {
        if a[i] != b[i] {
            return false;
        }
        i += 1;
    }
    proof {
        assert(a@ =~= b@);
    }
    true
}

/// A fresh byte string holding the same bytes.
pub fn clone_bytes(v: &Vec<u8>) -> (r: Vec<u8>)
    ensures
        r@ == v@,
{
    let mut out: Vec<u8> = Vec::new();
    let mut i: usize = 0;
    while i < v.len()
        invariant
            i <= v.len(),
            out@ == v@.take(i as int),
        decreases v.len() - i,
    {
        out.push(v[i]);
        proof {
            assert(out@ =~= v@.take(i + 1 as int));
        }
        i += 1;
    }
    proof {
        assert(v@.take(v.len() as int) =~= v@);
    }
    out
}

/// Whether an entry is hit by an upvote of the given (link, identity) pair.
pub fn entry_matches(it: &ItemStruct, gif_link: &Vec<u8>, user_address: &IdentityKey) -> (r: bool)
    ensures
        r == item_matches(it@, gif_link@, user_address@),
{
    bytes_eq(&it.gif_link, gif_link) && key_eq(&it.user_address, user_address)
}

impl BaseAccount {
    /// The record's serialized size in the persisted layout, computed by an
    /// explicit scan of the entries.
    pub fn serialized_size(&self) -> (size: u64)
        requires
            record_wf(self@),
        ensures
            size == record_size(self@),
    {
        let ghost items = self@.gif_list;
        let n = self.gif_list.len();
        let mut size: u64 = RECORD_BASE_SIZE;
        let mut i: usize = 0;
        while i < n
            invariant
                record_wf(self@),
                items == self@.gif_list,
                n == self.gif_list.len(),
                i <= n,
                size == RECORD_BASE_SIZE + items_size(items.take(i as int)),
            decreases n - i,
        {
            proof {
                lemma_items_size_take_succ(items, i as int);
                lemma_items_size_take_le(items, i as int + 1);
            }
            let link_len = self.gif_list[i].gif_link.len() as u64;
            assert(item_size(items[i as int]) == ITEM_BASE_SIZE + link_len);
            size = size + ITEM_BASE_SIZE + link_len;
            i += 1;
        }
        proof {
            assert(items.take(n as int) =~= items);
        }
        size
    }
}

} // verus!
