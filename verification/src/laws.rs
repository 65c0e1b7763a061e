//! Laws that relate several operations, proved over the model.
//!
//! The contracts of the operations in [`crate::ops`] describe one call each;
//! the proof functions here state what follows for whole histories: what a
//! run of successful appends builds, and how an upvote acts on records with
//! exactly one, with several, and with no matching entries.

use vstd::prelude::*;

use crate::model::{
    append_model, fresh_item, init_model, item_matches, match_count, upvote_model, upvote_record,
    ItemModel, RecordModel,
};

verus! {

/// One append request: the link and the key of the submitting caller.
#[verifier::ext_equal]
pub struct AppendReq {
    /// The submitted link, as the bytes of its text.
    pub gif_link: Seq<u8>,
    /// The identity key of the submitting caller.
    pub user_address: Seq<u8>,
}

/// The entry a request constructs when its append succeeds.
pub open spec fn req_item(rq: AppendReq) -> ItemModel {
    fresh_item(rq.gif_link, rq.user_address)
}

/// The record after a sequence of successful appends, applied first to last.
pub open spec fn apply_appends(m: RecordModel, reqs: Seq<AppendReq>) -> RecordModel
    decreases reqs.len(),
{
    if reqs.len() == 0 {
        m
    } else {
        apply_appends(append_model(m, reqs[0].gif_link, reqs[0].user_address), reqs.drop_first())
    }
}

/// A run of successful appends, from any record: the counter grows by one
/// per call, the fresh entries go to the end in call order, and the
/// capacity never moves.
pub proof fn lemma_apply_appends(m: RecordModel, reqs: Seq<AppendReq>)
    ensures
        apply_appends(m, reqs).total_gifs == m.total_gifs + reqs.len(),
        apply_appends(m, reqs).gif_list == m.gif_list + reqs.map_values(
            |rq: AppendReq| req_item(rq),
        ),
        apply_appends(m, reqs).capacity == m.capacity,
    decreases reqs.len(),
{
    let f = |rq: AppendReq| req_item(rq);
    if reqs.len() == 0 {
        assert(m.gif_list + reqs.map_values(f) =~= m.gif_list);
    } else {
        let m1 = append_model(m, reqs[0].gif_link, reqs[0].user_address);
        lemma_apply_appends(m1, reqs.drop_first());
        assert(m1.gif_list + reqs.drop_first().map_values(f) =~= m.gif_list + reqs.map_values(f));
    }
}

/// Law: starting from a fresh record, after `N` successful appends the
/// entry counter is `N`, there are exactly `N` entries, and the `i`-th
/// entry is the `i`-th appended value in call order, with zero upvotes.
pub proof fn lemma_append_sequence(capacity: nat, reqs: Seq<AppendReq>)
    ensures
        ({
            let m = apply_appends(init_model(capacity), reqs);
            &&& m.total_gifs == reqs.len()
            &&& m.gif_list.len() == reqs.len()
            &&& (forall|i: int|
                0 <= i < reqs.len() ==> m.gif_list[i] == req_item(#[trigger] reqs[i]))
            &&& m.capacity == capacity
        }),
{
    lemma_apply_appends(init_model(capacity), reqs);
    let f = |rq: AppendReq| req_item(rq);
    assert(init_model(capacity).gif_list + reqs.map_values(f) =~= reqs.map_values(f));
}

/// Law: if exactly one entry matches the (link, identity) pair, an upvote
/// increments that entry's counter by exactly one, keeps its link and
/// submitter, and leaves every other entry's fields unchanged.
pub proof fn lemma_upvote_single_match(items: Seq<ItemModel>, link: Seq<u8>, key: Seq<u8>, i: int)
    requires
        0 <= i < items.len(),
        item_matches(items[i], link, key),
        forall|j: int|
            0 <= j < items.len() && j != i ==> !item_matches(#[trigger] items[j], link, key),
    ensures
        upvote_model(items, link, key).len() == items.len(),
        upvote_model(items, link, key)[i].gif_upvotes == items[i].gif_upvotes + 1,
        upvote_model(items, link, key)[i].gif_link == items[i].gif_link,
        upvote_model(items, link, key)[i].user_address == items[i].user_address,
        forall|j: int|
            0 <= j < items.len() && j != i ==> #[trigger] upvote_model(items, link, key)[j]
                == items[j],
{
}

/// Law: if `k >= 2` entries match the (link, identity) pair, one upvote
/// increments all `k` of them in the same call, keeping their links and
/// submitters; entries that do not match are untouched.
pub proof fn lemma_upvote_all_matches(items: Seq<ItemModel>, link: Seq<u8>, key: Seq<u8>)
    requires
        match_count(items, link, key) >= 2,
    ensures
        upvote_model(items, link, key).len() == items.len(),
        forall|j: int|
            0 <= j < items.len() && item_matches(#[trigger] items[j], link, key) ==> {
                &&& upvote_model(items, link, key)[j].gif_upvotes == items[j].gif_upvotes + 1
                &&& upvote_model(items, link, key)[j].gif_link == items[j].gif_link
                &&& upvote_model(items, link, key)[j].user_address == items[j].user_address
            },
        forall|j: int|
            0 <= j < items.len() && !item_matches(#[trigger] items[j], link, key)
                ==> upvote_model(items, link, key)[j] == items[j],
{
}

/// Law: if no entry matches the (link, identity) pair, an upvote succeeds
/// and leaves the record unchanged.
pub proof fn lemma_upvote_no_match(m: RecordModel, link: Seq<u8>, key: Seq<u8>)
    requires
        match_count(m.gif_list, link, key) == 0,
    ensures
        upvote_record(m, link, key) == m,
{
    broadcast use vstd::seq_lib::group_filter_ensures;

    let pred = |it: ItemModel| item_matches(it, link, key);
    assert forall|j: int| 0 <= j < m.gif_list.len() implies !item_matches(
        #[trigger] m.gif_list[j],
        link,
        key,
    ) by {
        if item_matches(m.gif_list[j], link, key) {
            assert(m.gif_list.filter(pred).contains(m.gif_list[j]));
        }
    }
    assert(upvote_model(m.gif_list, link, key) =~= m.gif_list);
    assert(upvote_record(m, link, key) =~= m);
}

} // verus!
