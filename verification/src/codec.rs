//! The persisted layout of a record, and its laws.
//!
//! A record is persisted as an 8-byte little-endian entry counter, a 4-byte
//! length prefix for the entry sequence, and then each entry in order: a
//! 4-byte length prefix for the link, the link bytes, the fixed 32-byte
//! submitter key, and the 8-byte upvote counter. The length prefixes make
//! the layout self-describing: [`lemma_record_round_trip`] proves that
//! decoding an encoded record gives the record back, and
//! [`lemma_encode_record_len`] that the byte count is exactly the
//! [`crate::model::record_size`] the capacity check of the append is stated
//! over. [`serialize_record`] produces those bytes executably.

use vstd::prelude::*;

use vstd::bytes::{
    lemma_auto_spec_u32_to_from_le_bytes, lemma_auto_spec_u64_to_from_le_bytes,
    spec_u32_from_le_bytes, spec_u32_to_le_bytes, spec_u64_from_le_bytes, spec_u64_to_le_bytes,
    u32_from_le_bytes, u32_to_le_bytes, u64_from_le_bytes, u64_to_le_bytes,
};
use vstd::slice::{slice_subrange, slice_to_vec};

use crate::model::{
    item_size, items_size, lemma_items_size_drop_first, record_size, record_wf, ItemModel,
    RecordModel,
};
use crate::record::{BaseAccount, ItemStruct};

verus! {

/// Whether the layout's prefixes can frame every entry: the link bytes
/// within a 4-byte length prefix, a key of exactly the fixed 32 bytes, and
/// an upvote counter within its 8-byte field. Every record built from the
/// executable types satisfies the key and counter bounds by construction.
pub open spec fn encodable_items(items: Seq<ItemModel>) -> bool {
    forall|i: int|
        0 <= i < items.len() ==> {
            &&& (#[trigger] items[i]).gif_link.len() <= u32::MAX
            &&& items[i].user_address.len() == 32
            &&& items[i].gif_upvotes <= u64::MAX
        }
}

/// Whether a whole record fits the layout's frames.
pub open spec fn encodable_record(m: RecordModel) -> bool {
    &&& m.total_gifs <= u64::MAX
    &&& m.gif_list.len() <= u32::MAX
    &&& encodable_items(m.gif_list)
}

/// The bytes of one entry.
pub open spec fn encode_item(it: ItemModel) -> Seq<u8> {
    spec_u32_to_le_bytes(it.gif_link.len() as u32) + it.gif_link + it.user_address
        + spec_u64_to_le_bytes(it.gif_upvotes as u64)
}

/// The bytes of an entry sequence, first entry first.
pub open spec fn encode_items(items: Seq<ItemModel>) -> Seq<u8>
    decreases items.len(),
{
    if items.len() == 0 {
        Seq::empty()
    } else {
        encode_item(items[0]) + encode_items(items.drop_first())
    }
}

/// The bytes of a whole record.
pub open spec fn encode_record(m: RecordModel) -> Seq<u8> {
    spec_u64_to_le_bytes(m.total_gifs as u64) + spec_u32_to_le_bytes(m.gif_list.len() as u32)
        + encode_items(m.gif_list)
}

/// One entry parsed off the front of the bytes, with how many bytes it
/// took; `None` where the bytes are too short for their own prefixes.
pub open spec fn decode_item(b: Seq<u8>) -> Option<(ItemModel, int)> {
    if b.len() < 4 {
        None
    } else {
        let link_len = spec_u32_from_le_bytes(b.take(4)) as int;
        let used = 4 + link_len + 32 + 8;
        if b.len() < used {
            None
        } else {
            let it = ItemModel {
                gif_link: b.subrange(4, 4 + link_len),
                user_address: b.subrange(4 + link_len, 4 + link_len + 32),
                gif_upvotes: spec_u64_from_le_bytes(
                    b.subrange(4 + link_len + 32, used),
                ) as nat,
            };
            Some((it, used))
        }
    }
}

/// `n` entries parsed off the bytes, which they must use up exactly.
pub open spec fn decode_items(b: Seq<u8>, n: nat) -> Option<Seq<ItemModel>>
    decreases n,
{
    if n == 0 {
        if b.len() == 0 {
            Some(Seq::empty())
        } else {
            None
        }
    } else {
        match decode_item(b) {
            None => None,
            Some((it, used)) => match decode_items(b.skip(used), (n - 1) as nat) {
                None => None,
                Some(rest) => Some(seq![it] + rest),
            },
        }
    }
}

/// The record read back from its bytes. The capacity is a property of the
/// slot the bytes sit in, not of the bytes, so the loader passes it in.
pub open spec fn decode_record(b: Seq<u8>, capacity: nat) -> Option<RecordModel> {
    if b.len() < 12 {
        None
    } else {
        let total = spec_u64_from_le_bytes(b.take(8));
        let n = spec_u32_from_le_bytes(b.subrange(8, 12));
        match decode_items(b.skip(12), n as nat) {
            None => None,
            Some(items) => Some(
                RecordModel { total_gifs: total as nat, gif_list: items, capacity: capacity },
            ),
        }
    }
}

/// One entry's bytes are exactly its share of the record's serialized size.
pub proof fn lemma_encode_item_len(it: ItemModel)
    requires
        it.user_address.len() == 32,
    ensures
        encode_item(it).len() == item_size(it),
{
    lemma_auto_spec_u32_to_from_le_bytes();
    lemma_auto_spec_u64_to_from_le_bytes();
}

/// An entry sequence's bytes are exactly its serialized size.
pub proof fn lemma_encode_items_len(items: Seq<ItemModel>)
    requires
        encodable_items(items),
    ensures
        encode_items(items).len() == items_size(items),
    decreases items.len(),
{
    if items.len() > 0 {
        lemma_encode_item_len(items[0]);
        lemma_items_size_drop_first(items);
        assert(encodable_items(items.drop_first())) by {
            assert(forall|i: int|
                0 <= i < items.drop_first().len() ==> items.drop_first()[i] == items[i + 1]);
        }
        lemma_encode_items_len(items.drop_first());
    }
}

/// Law: a record's bytes are exactly its serialized size — the size the
/// append's capacity check is stated over counts real bytes.
pub proof fn lemma_encode_record_len(m: RecordModel)
    requires
        encodable_record(m),
    ensures
        encode_record(m).len() == record_size(m),
{
    lemma_auto_spec_u32_to_from_le_bytes();
    lemma_auto_spec_u64_to_from_le_bytes();
    lemma_encode_items_len(m.gif_list);
}

/// Parsing one encoded entry off the front of any byte stream gives the
/// entry back and consumes exactly its bytes.
proof fn lemma_decode_item_frame(it: ItemModel, rest: Seq<u8>)
    requires
        it.gif_link.len() <= u32::MAX,
        it.user_address.len() == 32,
        it.gif_upvotes <= u64::MAX,
    ensures
        decode_item(encode_item(it) + rest) == Some((it, encode_item(it).len() as int)),
{
    lemma_auto_spec_u32_to_from_le_bytes();
    lemma_auto_spec_u64_to_from_le_bytes();
    let b = encode_item(it) + rest;
    let link_len = it.gif_link.len() as int;
    assert(b.take(4) =~= spec_u32_to_le_bytes(it.gif_link.len() as u32));
    assert(spec_u32_from_le_bytes(b.take(4)) == it.gif_link.len() as u32);
    assert(b.subrange(4, 4 + link_len) =~= it.gif_link);
    assert(b.subrange(4 + link_len, 4 + link_len + 32) =~= it.user_address);
    assert(b.subrange(4 + link_len + 32, 4 + link_len + 32 + 8) =~= spec_u64_to_le_bytes(
        it.gif_upvotes as u64,
    ));
    lemma_encode_item_len(it);
    assert(decode_item(b) matches Some((d, used)) && d =~= it && used == encode_item(it).len());
}

/// Decoding undoes encoding for an entry sequence.
proof fn lemma_items_round_trip(items: Seq<ItemModel>)
    requires
        encodable_items(items),
    ensures
        decode_items(encode_items(items), items.len()) == Some(items),
    decreases items.len(),
{
    if items.len() == 0 {
        assert(items =~= Seq::<ItemModel>::empty());
    } else {
        let it = items[0];
        let rest = items.drop_first();
        lemma_decode_item_frame(it, encode_items(rest));
        let used = encode_item(it).len() as int;
        assert((encode_item(it) + encode_items(rest)).skip(used) =~= encode_items(rest));
        assert(encodable_items(rest)) by {
            assert(forall|i: int| 0 <= i < rest.len() ==> rest[i] == items[i + 1]);
        }
        lemma_items_round_trip(rest);
        assert(seq![it] + rest =~= items);
    }
}

/// Law: the layout is self-describing — decoding the encoded bytes of any
/// record, in a slot of its capacity, gives the record back.
pub proof fn lemma_record_round_trip(m: RecordModel)
    requires
        encodable_record(m),
    ensures
        decode_record(encode_record(m), m.capacity) == Some(m),
{
    lemma_auto_spec_u32_to_from_le_bytes();
    lemma_auto_spec_u64_to_from_le_bytes();
    let b = encode_record(m);
    lemma_encode_record_len(m);
    assert(b.take(8) =~= spec_u64_to_le_bytes(m.total_gifs as u64));
    assert(b.subrange(8, 12) =~= spec_u32_to_le_bytes(m.gif_list.len() as u32));
    assert(b.skip(12) =~= encode_items(m.gif_list));
    lemma_items_round_trip(m.gif_list);
    assert(decode_record(b, m.capacity) matches Some(d) && d =~= m);
}

/// Appending one entry's bytes extends an encoded prefix of the sequence.
proof fn lemma_encode_items_take_succ(items: Seq<ItemModel>, i: int)
    requires
        0 <= i < items.len(),
    ensures
        encode_items(items.take(i + 1)) == encode_items(items.take(i)) + encode_item(items[i]),
    decreases i,
{
    if i == 0 {
        assert(items.take(1).drop_first() =~= Seq::<ItemModel>::empty());
        assert(items.take(1)[0] == items[0]);
        assert(items.take(0) =~= Seq::<ItemModel>::empty());
        assert(encode_items(items.take(1)) =~= encode_items(items.take(0)) + encode_item(
            items[0],
        ));
    } else {
        lemma_encode_items_take_succ(items.drop_first(), i - 1);
        assert(items.take(i + 1).drop_first() =~= items.drop_first().take(i));
        assert(items.take(i).drop_first() =~= items.drop_first().take(i - 1));
        assert(items.take(i + 1)[0] == items[0]);
        assert(items.take(i)[0] == items[0]);
        assert(items.drop_first()[i - 1] == items[i]);
        assert(encode_item(items[0]) + (encode_items(items.drop_first().take(i - 1))
            + encode_item(items[i])) =~= (encode_item(items[0]) + encode_items(
            items.drop_first().take(i - 1),
        )) + encode_item(items[i]));
    }
}

/// `out` grown by the bytes of `b`.
fn append_bytes(out: &mut Vec<u8>, b: &Vec<u8>)
    ensures
        final(out)@ == old(out)@ + b@,
{
    let mut i: usize = 0;
    while i < b.len()
        invariant
            i <= b.len(),
            out@ == old(out)@ + b@.take(i as int),
        decreases b.len() - i,
    {
        out.push(b[i]);
        proof {
            assert(old(out)@ + b@.take(i + 1 as int) =~= (old(out)@ + b@.take(i as int)).push(
                b@[i as int],
            ));
        }
        i += 1;
    }
    proof {
        assert(b@.take(b.len() as int) =~= b@);
    }
}

/// The record's bytes in the persisted layout, exactly as
/// [`encode_record`] describes them.
pub fn serialize_record(base_account: &BaseAccount) -> (r: Vec<u8>)
    requires
        record_wf(base_account@),
        encodable_record(base_account@),
    ensures
        r@ == encode_record(base_account@),
        r@.len() == record_size(base_account@),
{
    let ghost m = base_account@;
    let ghost items = m.gif_list;
    let mut out: Vec<u8> = Vec::new();
    let count_bytes = u64_to_le_bytes(base_account.total_gifs);
    append_bytes(&mut out, &count_bytes);
    let len_bytes = u32_to_le_bytes(base_account.gif_list.len() as u32);
    append_bytes(&mut out, &len_bytes);
    proof {
        assert(Seq::<u8>::empty() + count_bytes@ =~= count_bytes@);
        assert(out@ =~= spec_u64_to_le_bytes(m.total_gifs as u64) + spec_u32_to_le_bytes(
            m.gif_list.len() as u32,
        ));
        assert(items.take(0) =~= Seq::<ItemModel>::empty());
        assert(out@ + encode_items(items.take(0)) =~= out@);
    }
    let ghost header = out@;
    let n = base_account.gif_list.len();
    let mut i: usize = 0;
    while i < n
        invariant
            n == base_account.gif_list.len(),
            i <= n,
            items == base_account@.gif_list,
            encodable_record(base_account@),
            header == spec_u64_to_le_bytes(base_account@.total_gifs as u64)
                + spec_u32_to_le_bytes(n as u32),
            out@ == header + encode_items(items.take(i as int)),
        decreases n - i,
    {
        let ghost it = items[i as int];
        let entry = &base_account.gif_list[i];
        let link_len_bytes = u32_to_le_bytes(entry.gif_link.len() as u32);
        append_bytes(&mut out, &link_len_bytes);
        let link_bytes = crate::record::clone_bytes(&entry.gif_link);
        append_bytes(&mut out, &link_bytes);
        proof {
            assert(it.user_address.take(0) =~= Seq::<u8>::empty());
            assert(out@ =~= header + encode_items(items.take(i as int)) + spec_u32_to_le_bytes(
                it.gif_link.len() as u32,
            ) + it.gif_link + it.user_address.take(0));
        }
        let mut j: usize = 0;
        while j < 32
            invariant
                j <= 32,
                out@ == header + encode_items(items.take(i as int)) + spec_u32_to_le_bytes(
                    it.gif_link.len() as u32,
                ) + it.gif_link + it.user_address.take(j as int),
                0 <= i < items.len(),
                it == items[i as int],
                entry.user_address@ == it.user_address,
                it.gif_link.len() <= u32::MAX,
                it.user_address.len() == 32,
                n == base_account.gif_list.len(),
                i < n,
                items == base_account@.gif_list,
            decreases 32 - j,
        {
            out.push(entry.user_address[j]);
            proof {
                let prefix = header + encode_items(items.take(i as int)) + spec_u32_to_le_bytes(
                    it.gif_link.len() as u32,
                ) + it.gif_link;
                assert(prefix + it.user_address.take(j + 1 as int) =~= (prefix
                    + it.user_address.take(j as int)).push(it.user_address[j as int]));
            }
            j += 1;
        }
        let upvote_bytes = u64_to_le_bytes(entry.gif_upvotes);
        append_bytes(&mut out, &upvote_bytes);
        proof {
            assert(it.user_address.take(32) =~= it.user_address);
            lemma_encode_items_take_succ(items, i as int);
            assert(out@ =~= header + encode_items(items.take(i + 1 as int)));
        }
        i += 1;
    }
    proof {
        assert(items.take(n as int) =~= items);
        assert(out@ =~= encode_record(base_account@));
        lemma_encode_record_len(base_account@);
    }
    out
}

/// Entries already read, glued to whatever the remaining bytes still
/// decode to: the shape a partly run parse leaves behind.
spec fn combine_decoded(done: Seq<ItemModel>, rem: Seq<u8>, m: nat) -> Option<Seq<ItemModel>> {
    match decode_items(rem, m) {
        None => None,
        Some(rest) => Some(done + rest),
    }
}

/// The record read back from its persisted bytes, in a slot of the given
/// capacity — exactly where [`decode_record`] reads one; `None` exactly
/// where the bytes do not parse as a record that uses them up.
pub fn deserialize_record(bytes: &Vec<u8>, capacity: u64) -> (r: Option<BaseAccount>)
    ensures
        r is Some <==> decode_record(bytes@, capacity as nat) is Some,
        (r matches Some(acct) ==> decode_record(bytes@, capacity as nat) == Some(acct@)),
{
    proof {
        lemma_auto_spec_u32_to_from_le_bytes();
        lemma_auto_spec_u64_to_from_le_bytes();
    }
    if bytes.len() < 12 {
        return None;
    }
    let total = u64_from_le_bytes(slice_subrange(bytes.as_slice(), 0, 8));
    let n32 = u32_from_le_bytes(slice_subrange(bytes.as_slice(), 8, 12));
    proof {
        assert(bytes@.subrange(0, 8) =~= bytes@.take(8));
    }
    let n = n32 as usize;
    let mut items: Vec<ItemStruct> = Vec::new();
    let mut pos: usize = 12;
    let mut k: usize = 0;
    proof {
        assert(items@.map_values(|e: ItemStruct| e@) =~= Seq::<ItemModel>::empty());
        assert(Seq::<ItemModel>::empty() + decode_items(bytes@.skip(12), n as nat)->0
            =~= decode_items(bytes@.skip(12), n as nat)->0);
    }
    while k < n
        invariant
            k <= n,
            n == n32 as nat,
            bytes@.len() >= 12,
            n32 == spec_u32_from_le_bytes(bytes@.subrange(8, 12)),
            12 <= pos <= bytes.len(),
            items@.len() == k,
            decode_items(bytes@.skip(12), n as nat) == combine_decoded(
                items@.map_values(|e: ItemStruct| e@),
                bytes@.skip(pos as int),
                (n - k) as nat,
            ),
        decreases n - k,
    {
        let ghost rem = bytes@.skip(pos as int);
        let ghost done = items@.map_values(|e: ItemStruct| e@);
        let ghost m = (n - k) as nat;
        let remaining = bytes.len() - pos;
        if remaining < 4 {
            proof {
                assert(decode_items(rem, m) is None);
                assert(decode_record(bytes@, capacity as nat) is None);
            }
            return None;
        }
        let link_len32 = u32_from_le_bytes(slice_subrange(bytes.as_slice(), pos, pos + 4));
        proof {
            assert(bytes@.subrange(pos as int, pos + 4) =~= rem.take(4));
        }
        let link_len = link_len32 as usize;
        let used64: u64 = 4 + (link_len32 as u64) + 32 + 8;
        if (remaining as u64) < used64 {
            proof {
                assert(rem.len() < 4 + (spec_u32_from_le_bytes(rem.take(4)) as int) + 32 + 8);
                assert(decode_items(rem, m) is None);
                assert(decode_record(bytes@, capacity as nat) is None);
            }
            return None;
        }
        let used = 4 + link_len + 32 + 8;
        let link = slice_to_vec(slice_subrange(bytes.as_slice(), pos + 4, pos + 4 + link_len));
        proof {
            assert(bytes@.subrange(pos + 4, pos + 4 + link_len) =~= rem.subrange(
                4,
                4 + link_len as int,
            ));
        }
        let mut key: [u8; 32] = [0; 32];
        let key_start = pos + 4 + link_len;
        let mut j: usize = 0;
        while j < 32
            invariant
                j <= 32,
                key_start + 32 <= bytes.len(),
                forall|jj: int| 0 <= jj < j ==> key@[jj] == bytes@[key_start + jj],
            decreases 32 - j,
        {
            key[j] = bytes[key_start + j];
            j += 1;
        }
        proof {
            assert(key@ =~= rem.subrange(4 + link_len as int, 4 + link_len as int + 32));
        }
        let upvotes = u64_from_le_bytes(
            slice_subrange(bytes.as_slice(), key_start + 32, key_start + 40),
        );
        proof {
            assert(bytes@.subrange(key_start + 32 as int, key_start + 40 as int) =~= rem.subrange(
                4 + link_len as int + 32,
                4 + link_len as int + 32 + 8,
            ));
        }
        let item = ItemStruct { gif_link: link, user_address: key, gif_upvotes: upvotes };
        proof {
            let pair = decode_item(rem)->0;
            assert(decode_item(rem) == Some((item@, used as int))) by {
                assert(pair.0 =~= item@);
            }
        }
        items.push(item);
        pos = pos + used;
        k += 1;
        proof {
            assert(bytes@.skip(pos as int) =~= rem.skip(used as int));
            assert(items@.map_values(|e: ItemStruct| e@) =~= done.push(item@));
            let rem2 = rem.skip(used as int);
            let m2 = (m - 1) as nat;
            if decode_items(rem2, m2) is Some {
                let rest2 = decode_items(rem2, m2)->0;
                assert(done + (seq![item@] + rest2) =~= done.push(item@) + rest2);
            }
        }
    }
    if pos != bytes.len() {
        proof {
            assert(bytes@.skip(pos as int).len() > 0);
        }
        return None;
    }
    let acct = BaseAccount { total_gifs: total, gif_list: items, capacity };
    proof {
        assert(bytes@.skip(pos as int).len() == 0);
        let done = items@.map_values(|e: ItemStruct| e@);
        assert(done + Seq::<ItemModel>::empty() =~= done);
        assert(decode_record(bytes@, capacity as nat) matches Some(d) && d =~= acct@);
    }
    Some(acct)
}

} // verus!
