//! The three state transitions of the registry.
//!
//! Each operation is a pure, bounded computation over one loaded record
//! plus plain argument values; the hosting runtime locates the record,
//! verifies caller signatures, and commits the (possibly unchanged) result
//! atomically. Every error is returned before any field is mutated, so a
//! failed call leaves the record exactly as it was.

use vstd::prelude::*;

use crate::error::RegistryError;
use crate::model::{
    append_fits, append_model, init_model, item_matches, record_wf, upvote_record, ItemModel,
    RecordModel,
};
use crate::model::{
    cond_upvote, lemma_items_size_lower_bound, lemma_items_size_push, lemma_upvote_preserves_size,
    upvote_model, ITEM_BASE_SIZE, RECORD_BASE_SIZE,
};
use crate::record::{clone_bytes, entry_matches, BaseAccount, IdentityKey, ItemStruct};

verus! {

/// Create the record in a fresh slot of the given fixed capacity: entry
/// counter zero, no entries. A slot that already holds a record is left
/// unchanged and the call fails with `AlreadyInitialized`. The capacity is
/// set here once and never changes afterwards; it must at least hold the
/// empty record.
pub fn initialize(slot: &mut Option<BaseAccount>, capacity: u64) -> (r: Result<(), RegistryError>)
    requires
        capacity >= RECORD_BASE_SIZE,
    ensures
        *old(slot) is None ==> {
            &&& r == Ok::<(), RegistryError>(())
            &&& (*final(slot) matches Some(acct) && acct@ == init_model(capacity as nat)
                && record_wf(acct@))
        },
        *old(slot) is Some ==> {
            &&& r == Err::<(), RegistryError>(RegistryError::AlreadyInitialized)
            &&& *final(slot) == *old(slot)
        },
{
    if slot.is_some() {
        return Err(RegistryError::AlreadyInitialized);
    }
    let acct = BaseAccount { total_gifs: 0, gif_list: Vec::new(), capacity };
    proof {
        assert(acct@.gif_list =~= Seq::<ItemModel>::empty());
        assert(acct@ =~= init_model(capacity as nat));
    }
    *slot = Some(acct);
    Ok(())
}

/// Append one entry on behalf of an authenticated caller: the entry records
/// the given link, the caller as submitter, and zero upvotes; it goes to
/// the end of the list and the entry counter is incremented by exactly one,
/// in the same atomic step. Without caller authorization the call fails
/// with `Unauthorized`; if the grown record would no longer fit the slot's
/// fixed capacity it fails with `StorageExhausted`; a failed call leaves
/// the record untouched. Nothing is deduplicated: repeated calls with the
/// same link and caller produce that many distinct entries.
pub fn add_gif(
    base_account: &mut BaseAccount,
    gif_link: Vec<u8>,
    user_address: IdentityKey,
    authorized: bool,
) -> (r: Result<(), RegistryError>)
    requires
        record_wf(old(base_account)@),
    ensures
        record_wf(final(base_account)@),
        !authorized ==> {
            &&& r == Err::<(), RegistryError>(RegistryError::Unauthorized)
            &&& *final(base_account) == *old(base_account)
        },
        authorized && append_fits(old(base_account)@, gif_link@, user_address@) ==> {
            &&& r == Ok::<(), RegistryError>(())
            &&& final(base_account)@ == append_model(old(base_account)@, gif_link@, user_address@)
        },
        authorized && !append_fits(old(base_account)@, gif_link@, user_address@) ==> {
            &&& r == Err::<(), RegistryError>(RegistryError::StorageExhausted)
            &&& *final(base_account) == *old(base_account)
        },
{
    if !authorized {
        return Err(RegistryError::Unauthorized);
    }
    let current = base_account.serialized_size();
    let remaining = base_account.capacity - current;
    if remaining < ITEM_BASE_SIZE {
        return Err(RegistryError::StorageExhausted);
    }
    let link_len = gif_link.len() as u64;
    if link_len > remaining - ITEM_BASE_SIZE {
        return Err(RegistryError::StorageExhausted);
    }
    proof {
        lemma_items_size_lower_bound(old(base_account)@.gif_list);
        let ghost len = old(base_account)@.gif_list.len();
        assert(ITEM_BASE_SIZE * len >= len) by (nonlinear_arith);
        assert(old(base_account).total_gifs < u64::MAX);
        lemma_items_size_push(
            old(base_account)@.gif_list,
            crate::model::fresh_item(gif_link@, user_address@),
        );
    }
    let item = ItemStruct { gif_link, user_address, gif_upvotes: 0 };
    base_account.gif_list.push(item);
    base_account.total_gifs = base_account.total_gifs + 1;
    proof {
        assert(final(base_account)@.gif_list =~= append_model(
            old(base_account)@,
            gif_link@,
            user_address@,
        ).gif_list);
    }
    Ok(())
}

/// Increment the upvote counter of every entry matching the given
/// (link, identity) pair, all in the same invocation. Matching is an
/// explicit linear scan in order, since the pair is not a uniqueness
/// constraint; entries are neither added, removed nor reordered, and the
/// entry counter and capacity stay as they were. Zero matches is a
/// successful no-op, not an error, and no caller authorization is required
/// — a deliberate property of the design, not an oversight to correct here.
pub fn upvote_gif(
    base_account: &mut BaseAccount,
    gif_link: &Vec<u8>,
    user_address: &IdentityKey,
) -> (r: Result<(), RegistryError>)
    requires
        record_wf(old(base_account)@),
        forall|j: int|
            0 <= j < old(base_account)@.gif_list.len() && item_matches(
                #[trigger] old(base_account)@.gif_list[j],
                gif_link@,
                user_address@,
            ) ==> old(base_account)@.gif_list[j].gif_upvotes < u64::MAX,
    ensures
        r == Ok::<(), RegistryError>(()),
        final(base_account)@ == upvote_record(old(base_account)@, gif_link@, user_address@),
        record_wf(final(base_account)@),
{
    let ghost orig: RecordModel = base_account@;
    let n = base_account.gif_list.len();
    let mut i: usize = 0;
    while i < n
        invariant
            n == base_account.gif_list.len(),
            i <= n,
            base_account.total_gifs == old(base_account).total_gifs,
            base_account.capacity == old(base_account).capacity,
            orig == old(base_account)@,
            orig.gif_list.len() == n,
            forall|j: int|
                0 <= j < n && item_matches(#[trigger] orig.gif_list[j], gif_link@, user_address@)
                    ==> orig.gif_list[j].gif_upvotes < u64::MAX,
            forall|j: int|
                0 <= j < i ==> #[trigger] base_account.gif_list[j]@ == cond_upvote(
                    orig.gif_list[j],
                    gif_link@,
                    user_address@,
                ),
            forall|j: int|
                i <= j < n ==> #[trigger] base_account.gif_list[j]@ == orig.gif_list[j],
        decreases n - i,
    {
        let matched = entry_matches(&base_account.gif_list[i], gif_link, user_address);
        if matched {
            let upd = ItemStruct {
                gif_link: clone_bytes(&base_account.gif_list[i].gif_link),
                user_address: base_account.gif_list[i].user_address,
                gif_upvotes: base_account.gif_list[i].gif_upvotes + 1,
            };
            base_account.gif_list[i] = upd;
        }
        i += 1;
    }
    proof {
        assert(base_account@.gif_list =~= upvote_model(orig.gif_list, gif_link@, user_address@));
        assert(base_account@ =~= upvote_record(orig, gif_link@, user_address@));
        lemma_upvote_preserves_size(orig.gif_list, gif_link@, user_address@);
    }
    Ok(())
}

} // verus!
