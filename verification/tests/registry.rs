use gif_portal::error::RegistryError;
use gif_portal::ops::{add_gif, initialize, upvote_gif};
use gif_portal::record::{BaseAccount, IdentityKey, ItemStruct};

fn link(s: &str) -> Vec<u8> {
    s.as_bytes().to_vec()
}

fn key(b: u8) -> IdentityKey {
    [b; 32]
}

fn fresh_account(capacity: u64) -> BaseAccount {
    let mut slot: Option<BaseAccount> = None;
    initialize(&mut slot, capacity).unwrap();
    slot.unwrap()
}

#[test]
fn initialize_fresh_slot() {
    let mut slot: Option<BaseAccount> = None;
    assert_eq!(initialize(&mut slot, 9000), Ok(()));
    let acct = slot.unwrap();
    assert_eq!(acct.total_gifs, 0);
    assert!(acct.gif_list.is_empty());
    assert_eq!(acct.capacity, 9000);
}

#[test]
fn initialize_twice_fails_and_preserves_record() {
    let mut slot: Option<BaseAccount> = None;
    assert_eq!(initialize(&mut slot, 500), Ok(()));
    let mut acct = slot.unwrap();
    assert_eq!(add_gif(&mut acct, link("http://a"), key(1), true), Ok(()));
    let before = acct.clone();
    let mut slot = Some(acct);
    assert_eq!(
        initialize(&mut slot, 500),
        Err(RegistryError::AlreadyInitialized)
    );
    assert_eq!(slot.unwrap(), before);
}

#[test]
fn append_sequence_counts_and_orders() {
    let mut acct = fresh_account(9000);
    let links = ["http://a", "http://b", "http://c", "http://a"];
    for (i, l) in links.iter().enumerate() {
        assert_eq!(add_gif(&mut acct, link(l), key(i as u8), true), Ok(()));
        assert_eq!(acct.total_gifs, (i + 1) as u64);
        assert_eq!(acct.gif_list.len(), i + 1);
    }
    for (i, l) in links.iter().enumerate() {
        assert_eq!(acct.gif_list[i].gif_link, link(l));
        assert_eq!(acct.gif_list[i].user_address, key(i as u8));
        assert_eq!(acct.gif_list[i].gif_upvotes, 0);
    }
}

#[test]
fn append_unauthorized_is_rejected_unchanged() {
    let mut acct = fresh_account(9000);
    assert_eq!(add_gif(&mut acct, link("http://a"), key(1), true), Ok(()));
    let before = acct.clone();
    assert_eq!(
        add_gif(&mut acct, link("http://b"), key(2), false),
        Err(RegistryError::Unauthorized)
    );
    assert_eq!(acct, before);
}

#[test]
fn upvote_single_match_increments_only_it() {
    let mut acct = fresh_account(9000);
    assert_eq!(add_gif(&mut acct, link("http://a"), key(1), true), Ok(()));
    assert_eq!(add_gif(&mut acct, link("http://b"), key(1), true), Ok(()));
    assert_eq!(add_gif(&mut acct, link("http://a"), key(2), true), Ok(()));
    assert_eq!(upvote_gif(&mut acct, &link("http://a"), &key(1)), Ok(()));
    assert_eq!(acct.gif_list[0].gif_upvotes, 1);
    assert_eq!(acct.gif_list[1].gif_upvotes, 0);
    assert_eq!(acct.gif_list[2].gif_upvotes, 0);
    assert_eq!(acct.gif_list[0].gif_link, link("http://a"));
    assert_eq!(acct.gif_list[0].user_address, key(1));
    assert_eq!(acct.total_gifs, 3);
}

#[test]
fn upvote_increments_every_duplicate_match() {
    let mut acct = fresh_account(9000);
    assert_eq!(add_gif(&mut acct, link("http://a"), key(1), true), Ok(()));
    assert_eq!(add_gif(&mut acct, link("http://b"), key(2), true), Ok(()));
    assert_eq!(add_gif(&mut acct, link("http://a"), key(1), true), Ok(()));
    assert_eq!(add_gif(&mut acct, link("http://a"), key(1), true), Ok(()));
    assert_eq!(upvote_gif(&mut acct, &link("http://a"), &key(1)), Ok(()));
    assert_eq!(acct.gif_list[0].gif_upvotes, 1);
    assert_eq!(acct.gif_list[1].gif_upvotes, 0);
    assert_eq!(acct.gif_list[2].gif_upvotes, 1);
    assert_eq!(acct.gif_list[3].gif_upvotes, 1);
}

#[test]
fn upvote_without_match_is_successful_noop() {
    let mut acct = fresh_account(9000);
    assert_eq!(add_gif(&mut acct, link("http://a"), key(1), true), Ok(()));
    let before = acct.clone();
    // Right link, wrong identity.
    assert_eq!(upvote_gif(&mut acct, &link("http://a"), &key(2)), Ok(()));
    assert_eq!(acct, before);
    // Wrong link, right identity.
    assert_eq!(upvote_gif(&mut acct, &link("http://b"), &key(1)), Ok(()));
    assert_eq!(acct, before);
    // Empty record.
    let mut empty = fresh_account(9000);
    let empty_before = empty.clone();
    assert_eq!(upvote_gif(&mut empty, &link("http://a"), &key(1)), Ok(()));
    assert_eq!(empty, empty_before);
}

#[test]
fn append_beyond_capacity_fails_unchanged() {
    // Base record is 12 bytes; each entry costs 44 bytes plus its link.
    // Capacity 112 holds exactly two entries with 6-byte links.
    let mut acct = fresh_account(112);
    assert_eq!(add_gif(&mut acct, link("http:a"), key(1), true), Ok(()));
    assert_eq!(add_gif(&mut acct, link("http:b"), key(2), true), Ok(()));
    let before = acct.clone();
    assert_eq!(
        add_gif(&mut acct, link(""), key(3), true),
        Err(RegistryError::StorageExhausted)
    );
    assert_eq!(acct, before);
    assert_eq!(acct.total_gifs, 2);
    assert_eq!(acct.gif_list.len(), 2);
}

#[test]
fn append_fits_capacity_exactly() {
    // 12 + 44 + 8 == 64: an 8-byte link fills the slot to the last byte.
    let mut acct = fresh_account(64);
    assert_eq!(add_gif(&mut acct, link("http://a"), key(1), true), Ok(()));
    assert_eq!(acct.serialized_size(), 64);
    // One byte less of capacity and the same append is refused.
    let mut tight = fresh_account(63);
    assert_eq!(
        add_gif(&mut tight, link("http://a"), key(1), true),
        Err(RegistryError::StorageExhausted)
    );
    assert_eq!(tight.total_gifs, 0);
    assert!(tight.gif_list.is_empty());
}

#[test]
fn serialized_size_follows_layout() {
    let mut acct = fresh_account(9000);
    assert_eq!(acct.serialized_size(), 12);
    assert_eq!(add_gif(&mut acct, link("http://a"), key(1), true), Ok(()));
    // 12 + (4 + 8 + 32 + 8)
    assert_eq!(acct.serialized_size(), 64);
    assert_eq!(add_gif(&mut acct, link(""), key(2), true), Ok(()));
    assert_eq!(acct.serialized_size(), 108);
}

#[test]
fn upvotes_accumulate_across_calls() {
    let mut acct = fresh_account(9000);
    assert_eq!(add_gif(&mut acct, link("http://a"), key(1), true), Ok(()));
    for expected in 1..=5u64 {
        assert_eq!(upvote_gif(&mut acct, &link("http://a"), &key(1)), Ok(()));
        assert_eq!(acct.gif_list[0].gif_upvotes, expected);
    }
}

#[test]
fn full_scenario() {
    let user_a = key(0xaa);
    let user_b = key(0xbb);
    let mut slot: Option<BaseAccount> = None;
    assert_eq!(initialize(&mut slot, 9000), Ok(()));
    let mut acct = slot.unwrap();
    assert_eq!(acct.total_gifs, 0);
    assert!(acct.gif_list.is_empty());

    assert_eq!(add_gif(&mut acct, link("http://a"), user_a, true), Ok(()));
    assert_eq!(acct.total_gifs, 1);
    assert_eq!(
        acct.gif_list,
        vec![ItemStruct { gif_link: link("http://a"), user_address: user_a, gif_upvotes: 0 }]
    );

    assert_eq!(add_gif(&mut acct, link("http://b"), user_b, true), Ok(()));
    assert_eq!(acct.total_gifs, 2);
    assert_eq!(
        acct.gif_list,
        vec![
            ItemStruct { gif_link: link("http://a"), user_address: user_a, gif_upvotes: 0 },
            ItemStruct { gif_link: link("http://b"), user_address: user_b, gif_upvotes: 0 },
        ]
    );

    assert_eq!(upvote_gif(&mut acct, &link("http://a"), &user_a), Ok(()));
    assert_eq!(acct.gif_list[0].gif_upvotes, 1);
    assert_eq!(acct.gif_list[1].gif_upvotes, 0);
    assert_eq!(acct.gif_list[1].gif_link, link("http://b"));

    let before = acct.clone();
    assert_eq!(upvote_gif(&mut acct, &link("http://a"), &user_b), Ok(()));
    assert_eq!(acct, before);
}

#[test]
fn error_names() {
    assert_eq!(RegistryError::AlreadyInitialized.name(), "AlreadyInitialized");
    assert_eq!(RegistryError::Unauthorized.name(), "Unauthorized");
    assert_eq!(RegistryError::StorageExhausted.name(), "StorageExhausted");
}

#[test]
fn serialize_empty_record() {
    let acct = fresh_account(9000);
    let bytes = gif_portal::codec::serialize_record(&acct);
    // 8-byte zero counter, 4-byte zero entry-sequence length.
    assert_eq!(bytes, vec![0u8; 12]);
}

#[test]
fn serialize_record_bytes_follow_layout() {
    let mut acct = fresh_account(9000);
    assert_eq!(add_gif(&mut acct, link("ab"), key(5), true), Ok(()));
    assert_eq!(upvote_gif(&mut acct, &link("ab"), &key(5)), Ok(()));
    let bytes = gif_portal::codec::serialize_record(&acct);

    let mut expected: Vec<u8> = Vec::new();
    expected.extend_from_slice(&1u64.to_le_bytes()); // entry counter
    expected.extend_from_slice(&1u32.to_le_bytes()); // entry-sequence length
    expected.extend_from_slice(&2u32.to_le_bytes()); // link length
    expected.extend_from_slice(b"ab"); // link bytes
    expected.extend_from_slice(&[5u8; 32]); // submitter key
    expected.extend_from_slice(&1u64.to_le_bytes()); // upvotes
    assert_eq!(bytes, expected);
    assert_eq!(bytes.len() as u64, acct.serialized_size());
}

#[test]
fn serialize_then_deserialize_round_trips() {
    let mut acct = fresh_account(9000);
    assert_eq!(add_gif(&mut acct, link("http://a"), key(1), true), Ok(()));
    assert_eq!(add_gif(&mut acct, link(""), key(2), true), Ok(()));
    assert_eq!(add_gif(&mut acct, link("http://a"), key(1), true), Ok(()));
    assert_eq!(upvote_gif(&mut acct, &link("http://a"), &key(1)), Ok(()));
    let bytes = gif_portal::codec::serialize_record(&acct);
    let back = gif_portal::codec::deserialize_record(&bytes, acct.capacity).unwrap();
    assert_eq!(back, acct);
}

#[test]
fn deserialize_rejects_malformed_bytes() {
    // Too short for the header.
    assert_eq!(gif_portal::codec::deserialize_record(&vec![0u8; 11], 9000), None);
    // Entry sequence length promises an entry the bytes do not hold.
    let mut bytes = vec![0u8; 12];
    bytes[8] = 1;
    assert_eq!(gif_portal::codec::deserialize_record(&bytes, 9000), None);
    // Trailing bytes after the promised entries.
    let mut with_tail = vec![0u8; 13];
    with_tail[12] = 7;
    assert_eq!(gif_portal::codec::deserialize_record(&with_tail, 9000), None);
    // A truncated entry: link length prefix says 4, but the bytes end early.
    let acct = fresh_account(9000);
    let mut truncated = gif_portal::codec::serialize_record(&acct);
    truncated[8] = 1; // one entry promised
    truncated.push(4); // link length prefix, cut off
    assert_eq!(gif_portal::codec::deserialize_record(&truncated, 9000), None);
}
