//! The mathematical model of the registry.
//!
//! Every contract in this crate is stated over the ghost types and spec
//! functions here: a record is a sequence of item models plus an
//! independently maintained entry counter and the fixed capacity of its
//! slot, and each operation is a function from one record model to the
//! next. The serialized size of a record is defined against the persisted
//! layout: an 8-byte entry counter, a 4-byte length prefix for the entry
//! sequence, and per entry a 4-byte length prefix for the link bytes, the
//! link bytes themselves, a 32-byte submitter key and an 8-byte upvote
//! counter.

use vstd::prelude::*;

verus! {

/// Bytes taken by the record's entry counter in the persisted layout.
pub const COUNT_FIELD_SIZE: u64 = 8;

/// Bytes taken by the length prefix of the entry sequence.
pub const LIST_LEN_PREFIX_SIZE: u64 = 4;

/// Bytes taken by the length prefix of one entry's link.
pub const LINK_LEN_PREFIX_SIZE: u64 = 4;

/// Bytes taken by one fixed-width submitter identity key.
pub const KEY_SIZE: u64 = 32;

/// Bytes taken by one entry's upvote counter.
pub const UPVOTES_FIELD_SIZE: u64 = 8;

/// Serialized bytes of a record that holds no entries.
pub const RECORD_BASE_SIZE: u64 = COUNT_FIELD_SIZE + LIST_LEN_PREFIX_SIZE;

/// Serialized bytes of one entry beyond its link bytes.
pub const ITEM_BASE_SIZE: u64 = LINK_LEN_PREFIX_SIZE + KEY_SIZE + UPVOTES_FIELD_SIZE;

/// The model of one entry: the submitted link as its bytes, the submitter's
/// fixed-size identity key as its bytes, and the entry's upvote counter.
#[verifier::ext_equal]
pub struct ItemModel {
    /// The submitted link, as the bytes of its text.
    pub gif_link: Seq<u8>,
    /// The identity key of the caller that appended the entry.
    pub user_address: Seq<u8>,
    /// How often the entry has been upvoted.
    pub gif_upvotes: nat,
}

/// The model of the whole record: the entry counter, the entries in append
/// order, and the fixed serialized byte capacity of the record's slot.
#[verifier::ext_equal]
pub struct RecordModel {
    /// The entry counter, incremented exactly once per successful append.
    pub total_gifs: nat,
    /// The entries, in append order; duplicates are permitted.
    pub gif_list: Seq<ItemModel>,
    /// The fixed capacity ceiling, set at creation and never changed.
    pub capacity: nat,
}

/// The record a fresh slot of the given capacity holds right after
/// initialization: no entries, counter zero.
pub open spec fn init_model(capacity: nat) -> RecordModel {
    RecordModel { total_gifs: 0, gif_list: Seq::empty(), capacity }
}

/// The entry a successful append constructs: the given link and submitter,
/// with no upvotes yet.
pub open spec fn fresh_item(link: Seq<u8>, key: Seq<u8>) -> ItemModel {
    ItemModel { gif_link: link, user_address: key, gif_upvotes: 0 }
}

/// Whether an entry is hit by an upvote of the given (link, identity) pair.
/// The pair is not a uniqueness constraint: any number of entries can match.
pub open spec fn item_matches(it: ItemModel, link: Seq<u8>, key: Seq<u8>) -> bool {
    it.gif_link == link && it.user_address == key
}

/// How many entries of `items` the (link, identity) pair hits.
pub open spec fn match_count(items: Seq<ItemModel>, link: Seq<u8>, key: Seq<u8>) -> nat {
    items.filter(|it: ItemModel| item_matches(it, link, key)).len()
}

/// One entry with its upvote counter incremented; the other fields are kept.
pub open spec fn upvote_item(it: ItemModel) -> ItemModel {
    ItemModel { gif_upvotes: it.gif_upvotes + 1, ..it }
}

/// One entry after an upvote of the given pair: incremented if it matches,
/// untouched otherwise.
pub open spec fn cond_upvote(it: ItemModel, link: Seq<u8>, key: Seq<u8>) -> ItemModel {
    if item_matches(it, link, key) {
        upvote_item(it)
    } else {
        it
    }
}

/// The entry sequence after an upvote of the given pair: every matching
/// entry is incremented in the same invocation, no entry is added, removed
/// or reordered.
pub open spec fn upvote_model(items: Seq<ItemModel>, link: Seq<u8>, key: Seq<u8>) -> Seq<ItemModel> {
    items.map_values(|it: ItemModel| cond_upvote(it, link, key))
}

/// The whole record after an upvote: the counter and the capacity are kept.
pub open spec fn upvote_record(m: RecordModel, link: Seq<u8>, key: Seq<u8>) -> RecordModel {
    RecordModel { gif_list: upvote_model(m.gif_list, link, key), ..m }
}

/// The whole record after a successful append: the fresh entry goes to the
/// end, the counter is incremented by exactly one, the capacity is kept.
pub open spec fn append_model(m: RecordModel, link: Seq<u8>, key: Seq<u8>) -> RecordModel {
    RecordModel {
        total_gifs: m.total_gifs + 1,
        gif_list: m.gif_list.push(fresh_item(link, key)),
        capacity: m.capacity,
    }
}

/// Serialized bytes of one entry in the persisted layout.
pub open spec fn item_size(it: ItemModel) -> int {
    ITEM_BASE_SIZE + it.gif_link.len()
}

/// Serialized bytes of an entry sequence in the persisted layout.
pub open spec fn items_size(items: Seq<ItemModel>) -> int
    decreases items.len(),
{
    if items.len() == 0 {
        0
    } else {
        items_size(items.drop_last()) + item_size(items.last())
    }
}

/// Serialized bytes of the whole record in the persisted layout.
pub open spec fn record_size(m: RecordModel) -> int {
    RECORD_BASE_SIZE + items_size(m.gif_list)
}

/// Whether a successful append of the given pair would still fit the
/// record's fixed capacity.
pub open spec fn append_fits(m: RecordModel, link: Seq<u8>, key: Seq<u8>) -> bool {
    record_size(m) + item_size(fresh_item(link, key)) <= m.capacity
}

/// Well-formedness of a record: the counter agrees with the number of
/// entries (they are updated in the same atomic step and never diverge
/// inside this core), and the serialized size stays within the fixed
/// capacity of the slot.
pub open spec fn record_wf(m: RecordModel) -> bool {
    &&& m.total_gifs == m.gif_list.len()
    &&& record_size(m) <= m.capacity
}

/// The size of an entry sequence grows by the size of a pushed entry.
pub proof fn lemma_items_size_push(items: Seq<ItemModel>, it: ItemModel)
    ensures
        items_size(items.push(it)) == items_size(items) + item_size(it),
{
    assert(items.push(it).drop_last() =~= items);
    assert(items.push(it).last() == it);
}

/// Each prefix of an entry sequence serializes to at most the bytes of the
/// whole sequence.
pub proof fn lemma_items_size_take_le(items: Seq<ItemModel>, i: int)
    requires
        0 <= i <= items.len(),
    ensures
        items_size(items.take(i)) <= items_size(items),
    decreases items.len() - i,
{
    if i == items.len() {
        assert(items.take(i) =~= items);
    } else {
        assert(items.take(i + 1).drop_last() =~= items.take(i));
        assert(items.take(i + 1).last() == items[i]);
        lemma_items_size_take_le(items, i + 1);
    }
}

/// Extending a prefix by one entry adds that entry's size.
pub proof fn lemma_items_size_take_succ(items: Seq<ItemModel>, i: int)
    requires
        0 <= i < items.len(),
    ensures
        items_size(items.take(i + 1)) == items_size(items.take(i)) + item_size(items[i]),
{
    assert(items.take(i + 1).drop_last() =~= items.take(i));
    assert(items.take(i + 1).last() == items[i]);
}

/// Every entry costs at least its fixed overhead, so a sequence of `n`
/// entries serializes to at least `n` times that overhead.
pub proof fn lemma_items_size_lower_bound(items: Seq<ItemModel>)
    ensures
        items_size(items) >= ITEM_BASE_SIZE * items.len(),
    decreases items.len(),
{
    if items.len() > 0 {
        lemma_items_size_lower_bound(items.drop_last());
        assert(ITEM_BASE_SIZE * items.len() == ITEM_BASE_SIZE * (items.len() - 1) + ITEM_BASE_SIZE)
            by (nonlinear_arith)
            requires
                items.len() > 0,
        ;
    }
}

/// The size of an entry sequence also decomposes at the front.
pub proof fn lemma_items_size_drop_first(items: Seq<ItemModel>)
    requires
        items.len() > 0,
    ensures
        items_size(items) == item_size(items[0]) + items_size(items.drop_first()),
    decreases items.len(),
{
    if items.len() == 1 {
        assert(items.drop_first() =~= Seq::<ItemModel>::empty());
        assert(items.drop_last() =~= Seq::<ItemModel>::empty());
    } else {
        lemma_items_size_drop_first(items.drop_last());
        assert(items.drop_last()[0] == items[0]);
        assert(items.drop_first().drop_last() =~= items.drop_last().drop_first());
        assert(items.drop_first().last() == items.last());
    }
}

/// Upvotes change no entry's serialized size: the counter is a fixed-width
/// field, so the whole record's size is invariant under an upvote.
pub proof fn lemma_upvote_preserves_size(items: Seq<ItemModel>, link: Seq<u8>, key: Seq<u8>)
    ensures
        items_size(upvote_model(items, link, key)) == items_size(items),
    decreases items.len(),
{
    if items.len() == 0 {
        assert(upvote_model(items, link, key) =~= Seq::empty());
    } else {
        lemma_upvote_preserves_size(items.drop_last(), link, key);
        assert(upvote_model(items, link, key).drop_last() =~= upvote_model(
            items.drop_last(),
            link,
            key,
        ));
        assert(upvote_model(items, link, key).last() == cond_upvote(items.last(), link, key));
    }
}

} // verus!
