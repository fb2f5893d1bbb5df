//! Byte encoding of store bindings, used for genesis state and for
//! state-sync snapshot chunks.
//!
//! A sequence of bindings is encoded binding after binding, each as a
//! 4-byte big-endian key length, the key, a 4-byte big-endian value length
//! and the value. Decoding is proved to be the exact inverse, which is what
//! makes a snapshot restored from chunks equal to the state it was taken
//! from.

use vstd::prelude::*;

use crate::store::StoreEntry;
use crate::store::StoreModel;
use crate::store::lemma_entries_view;
use crate::store::store_lengths_bounded;

verus! {

/// The 4 big-endian bytes of a 32-bit value.
pub open spec fn u32_be_bytes(x: u32) -> Seq<u8> {
    seq![(x >> 24) as u8, (x >> 16) as u8, (x >> 8) as u8, x as u8]
}

/// The 32-bit value read from 4 big-endian bytes.
pub open spec fn be_bytes_u32(b: Seq<u8>) -> u32 {
    ((b[0] as u32) << 24) | ((b[1] as u32) << 16) | ((b[2] as u32) << 8) | (b[3] as u32)
}

/// The 8 big-endian bytes of a 64-bit value.
pub open spec fn u64_be_bytes(x: u64) -> Seq<u8> {
    seq![
        (x >> 56) as u8,
        (x >> 48) as u8,
        (x >> 40) as u8,
        (x >> 32) as u8,
        (x >> 24) as u8,
        (x >> 16) as u8,
        (x >> 8) as u8,
        x as u8,
    ]
}

/// Reading back the 4 big-endian bytes of a value gives the value.
pub proof fn lemma_u32_be_round_trip(x: u32)
    ensures
        be_bytes_u32(u32_be_bytes(x)) == x,
{
    let b = u32_be_bytes(x);
    assert(b[0] == (x >> 24) as u8 && b[1] == (x >> 16) as u8 && b[2] == (x >> 8) as u8 && b[3]
        == x as u8);
    assert((((x >> 24) as u8 as u32) << 24) | (((x >> 16) as u8 as u32) << 16) | (((x
        >> 8) as u8 as u32) << 8) | (x as u8 as u32) == x) by (bit_vector);
}

/// One encoded binding: key length, key, value length, value.
pub open spec fn encode_entry(e: (Seq<u8>, Seq<u8>)) -> Seq<u8> {
    u32_be_bytes(e.0.len() as u32) + e.0 + u32_be_bytes(e.1.len() as u32) + e.1
}

/// The encoding of a sequence of bindings, first to last.
pub open spec fn encode_entries(es: StoreModel) -> Seq<u8>
    decreases es.len(),
{
    if es.len() == 0 {
        Seq::<u8>::empty()
    } else {
        encode_entry(es[0]) + encode_entries(es.drop_first())
    }
}

/// The bindings read back from an encoding, if the bytes are well-formed
/// from start to end; `None` on any truncation.
pub open spec fn decode_entries(b: Seq<u8>) -> Option<StoreModel>
    decreases b.len(),
{
    if b.len() == 0 {
        Some(Seq::<(Seq<u8>, Seq<u8>)>::empty())
    } else if b.len() < 4 {
        None
    } else {
        let kl = be_bytes_u32(b.subrange(0, 4)) as int;
        if b.len() < 4 + kl + 4 {
            None
        } else {
            let key = b.subrange(4, 4 + kl);
            let vl = be_bytes_u32(b.subrange(4 + kl, 4 + kl + 4)) as int;
            if b.len() < 4 + kl + 4 + vl {
                None
            } else {
                let value = b.subrange(4 + kl + 4, 4 + kl + 4 + vl);
                let rest = b.subrange(4 + kl + 4 + vl, b.len() as int);
                match decode_entries(rest) {
                    Some(es) => Some(seq![(key, value)] + es),
                    None => None,
                }
            }
        }
    }
}

/// Appending one binding to a sequence appends its encoding to the bytes.
pub proof fn lemma_encode_snoc(es: StoreModel, e: (Seq<u8>, Seq<u8>))
    ensures
        encode_entries(es.push(e)) == encode_entries(es) + encode_entry(e),
    decreases es.len(),
{
    if es.len() == 0 {
        let p = es.push(e);
        assert(p[0] == e);
        assert(p.drop_first() =~= es);
        assert(encode_entries(p) == encode_entry(e) + encode_entries(es));
        assert(encode_entry(e) + encode_entries(es) =~= encode_entries(es) + encode_entry(e));
    } else {
        assert(es.push(e)[0] == es[0]);
        assert(es.push(e).drop_first() =~= es.drop_first().push(e));
        lemma_encode_snoc(es.drop_first(), e);
        assert(encode_entries(es.push(e)) == encode_entry(es[0]) + encode_entries(
            es.drop_first().push(e),
        ));
        assert(encode_entry(es[0]) + (encode_entries(es.drop_first()) + encode_entry(e))
            =~= encode_entries(es) + encode_entry(e));
    }
}

/// Decoding inverts encoding on any sequence of bindings whose keys and
/// values fit the 4-byte length prefixes.
#[verifier::rlimit(60)]
pub proof fn lemma_decode_encode(es: StoreModel)
    requires
        store_lengths_bounded(es),
    ensures
        decode_entries(encode_entries(es)) == Some(es),
    decreases es.len(),
{
    if es.len() == 0 {
        assert(decode_entries(encode_entries(es)) =~= Some(Seq::<(Seq<u8>, Seq<u8>)>::empty()));
        assert(Seq::<(Seq<u8>, Seq<u8>)>::empty() =~= es);
    } else {
        let e = es[0];
        let key = e.0;
        let value = e.1;
        assert(key.len() < 0x1_0000_0000 && value.len() < 0x1_0000_0000);
        let kl = key.len() as int;
        let vl = value.len() as int;
        let head = encode_entry(e);
        let tail = encode_entries(es.drop_first());
        let b = encode_entries(es);
        assert(b == head + tail);
        assert(head.len() == 4 + kl + 4 + vl);
        lemma_u32_be_round_trip(key.len() as u32);
        lemma_u32_be_round_trip(value.len() as u32);
        assert(b.len() >= 4 + kl + 4 + vl);
        assert(b.subrange(0, 4) =~= u32_be_bytes(key.len() as u32));
        assert(be_bytes_u32(b.subrange(0, 4)) as int == kl);
        assert(b.subrange(4, 4 + kl) =~= key);
        assert(b.subrange(4 + kl, 4 + kl + 4) =~= u32_be_bytes(value.len() as u32));
        assert(be_bytes_u32(b.subrange(4 + kl, 4 + kl + 4)) as int == vl);
        assert(b.subrange(4 + kl + 4, 4 + kl + 4 + vl) =~= value);
        assert(b.subrange(4 + kl + 4 + vl, b.len() as int) =~= tail);
        assert(store_lengths_bounded(es.drop_first())) by {
            assert(forall|i: int| 0 <= i < es.drop_first().len() ==> es.drop_first()[i] == es[i
                + 1]);
        }
        lemma_decode_encode(es.drop_first());
        assert(decode_entries(b) == Some(seq![(key, value)] + es.drop_first()));
        assert(seq![(key, value)] + es.drop_first() =~= es);
    }
}

/// Whatever decodes successfully has every key and value shorter than the
/// 4-byte length prefix can carry.
pub proof fn lemma_decode_lengths_bounded(b: Seq<u8>)
    requires
        decode_entries(b) is Some,
    ensures
        store_lengths_bounded(decode_entries(b)->Some_0),
    decreases b.len(),
{
    if b.len() == 0 {
    } else {
        let kl = be_bytes_u32(b.subrange(0, 4)) as int;
        let vl = be_bytes_u32(b.subrange(4 + kl, 4 + kl + 4)) as int;
        let key = b.subrange(4, 4 + kl);
        let value = b.subrange(4 + kl + 4, 4 + kl + 4 + vl);
        let rest = b.subrange(4 + kl + 4 + vl, b.len() as int);
        lemma_decode_lengths_bounded(rest);
        let es = decode_entries(b)->Some_0;
        let tail = decode_entries(rest)->Some_0;
        assert(es == seq![(key, value)] + tail);
        assert(es[0] == (key, value));
        assert(forall|i: int| 1 <= i < es.len() ==> es[i] == tail[i - 1]);
        assert(key.len() < 0x1_0000_0000 && value.len() < 0x1_0000_0000);
        assert forall|i: int| 0 <= i < es.len() implies #[trigger] es[i].0.len() < 0x1_0000_0000
            && es[i].1.len() < 0x1_0000_0000 by {
            if i > 0 {
                assert(es[i] == tail[i - 1]);
            }
        }
    }
}

/// The 4 big-endian bytes of a 32-bit value, computed.
pub fn u32_be_bytes_exec(x: u32) -> (r: Vec<u8>)
    ensures
        r@ == u32_be_bytes(x),
{
    let mut r: Vec<u8> = Vec::new();
    r.push((x >> 24) as u8);
    r.push((x >> 16) as u8);
    r.push((x >> 8) as u8);
    r.push(x as u8);
    proof {
        assert(r@ =~= u32_be_bytes(x));
    }
    r
}

/// The 8 big-endian bytes of a 64-bit value, computed.
pub fn u64_be_bytes_exec(x: u64) -> (r: Vec<u8>)
    ensures
        r@ == u64_be_bytes(x),
{
    let mut r: Vec<u8> = Vec::new();
    r.push((x >> 56) as u8);
    r.push((x >> 48) as u8);
    r.push((x >> 40) as u8);
    r.push((x >> 32) as u8);
    r.push((x >> 24) as u8);
    r.push((x >> 16) as u8);
    r.push((x >> 8) as u8);
    r.push(x as u8);
    proof {
        assert(r@ =~= u64_be_bytes(x));
    }
    r
}

/// The 32-bit value read from 4 big-endian bytes at `pos`.
fn be_bytes_u32_exec(bytes: &Vec<u8>, pos: usize) -> (r: u32)
    requires
        pos + 4 <= bytes@.len(),
    ensures
        r == be_bytes_u32(bytes@.subrange(pos as int, pos as int + 4)),
{
    let n = bytes.len();
    let r = ((bytes[pos] as u32) << 24) | ((bytes[pos + 1] as u32) << 16) | ((bytes[pos
        + 2] as u32) << 8) | (bytes[pos + 3] as u32);
    proof {
        let b = bytes@.subrange(pos as int, pos as int + 4);
        assert(b[0] == bytes@[pos as int] && b[1] == bytes@[pos as int + 1] && b[2]
            == bytes@[pos as int + 2] && b[3] == bytes@[pos as int + 3]);
    }
    r
}

/// A copy of `len` bytes starting at `start`.
pub(crate) fn copy_range(bytes: &Vec<u8>, start: usize, len: usize) -> (r: Vec<u8>)
    requires
        start + len <= bytes@.len(),
    ensures
        r@ == bytes@.subrange(start as int, start as int + len as int),
{
    let mut r: Vec<u8> = Vec::new();
    let mut i: usize = 0;
    while i < len
        invariant
            0 <= i <= len,
            start + len <= bytes@.len(),
            r@.len() == i,
            forall|j: int| 0 <= j < i ==> r@[j] == bytes@[start + j],
        decreases len - i,
    {
        let n = bytes.len();
        r.push(bytes[start + i]);
        i += 1;
    }
    proof {
        assert(r@ =~= bytes@.subrange(start as int, start as int + len as int));
    }
    r
}

/// Encode a vector of bindings.
pub fn encode_entries_exec(entries: &Vec<StoreEntry>) -> (r: Vec<u8>)
    requires
        store_lengths_bounded(entries.deep_view()),
    ensures
        r@ == encode_entries(entries.deep_view()),
{
    proof {
        lemma_entries_view(*entries);
    }
    let ghost all = entries.deep_view();
    let mut out: Vec<u8> = Vec::new();
    let mut i: usize = 0;
    proof {
        assert(all.take(0) =~= Seq::<(Seq<u8>, Seq<u8>)>::empty());
        assert(out@ =~= encode_entries(all.take(0)));
    }
    while i < entries.len()
        invariant
            0 <= i <= entries@.len(),
            all == entries.deep_view(),
            all.len() == entries@.len(),
            forall|j: int| 0 <= j < entries@.len() ==> all[j] == (entries@[j].0@, entries@[j].1@),
            store_lengths_bounded(all),
            out@ == encode_entries(all.take(i as int)),
        decreases entries@.len() - i,
    {
        let klen = entries[i].0.len();
        let vlen = entries[i].1.len();
        proof {
            assert(all[i as int].0.len() < 0x1_0000_0000 && all[i as int].1.len() < 0x1_0000_0000);
        }
        let mut piece = u32_be_bytes_exec(klen as u32);
        piece.extend_from_slice(entries[i].0.as_slice());
        let mut vpiece = u32_be_bytes_exec(vlen as u32);
        piece.append(&mut vpiece);
        piece.extend_from_slice(entries[i].1.as_slice());
        proof {
            assert(piece@ =~= encode_entry(all[i as int]));
        }
        out.extend_from_slice(piece.as_slice());
        proof {
            lemma_encode_snoc(all.take(i as int), all[i as int]);
            assert(all.take(i as int).push(all[i as int]) =~= all.take(i as int + 1));
            assert(out@ =~= encode_entries(all.take(i as int + 1)));
        }
        i += 1;
    }
    proof {
        assert(all.take(all.len() as int) =~= all);
    }
    out
}

/// Decode a vector of bindings from the bytes at `pos` onward; `None` if
/// they are not a well-formed encoding.
pub fn decode_entries_from(bytes: &Vec<u8>, pos: usize) -> (r: Option<Vec<StoreEntry>>)
    requires
        pos <= bytes@.len(),
    ensures
        r matches Some(v) ==> decode_entries(bytes@.skip(pos as int)) == Some(v.deep_view()),
        r is None ==> decode_entries(bytes@.skip(pos as int)) is None,
    decreases bytes@.len() - pos,
{
    let ghost b = bytes@.skip(pos as int);
    let n = bytes.len();
    if pos == n {
        let r: Vec<StoreEntry> = Vec::new();
        proof {
            assert(b.len() == 0);
            lemma_entries_view(r);
            assert(r.deep_view() =~= Seq::<(Seq<u8>, Seq<u8>)>::empty());
        }
        return Some(r);
    }
    if n - pos < 4 {
        return None;
    }
    let kl32 = be_bytes_u32_exec(bytes, pos);
    proof {
        assert(b.subrange(0, 4) =~= bytes@.subrange(pos as int, pos as int + 4));
    }
    let kl = kl32 as usize;
    if n - pos - 4 < kl {
        return None;
    }
    if n - pos - 4 - kl < 4 {
        return None;
    }
    let key = copy_range(bytes, pos + 4, kl);
    let vl32 = be_bytes_u32_exec(bytes, pos + 4 + kl);
    proof {
        assert(b.subrange(4 + kl as int, 4 + kl as int + 4) =~= bytes@.subrange(
            pos + 4 + kl as int,
            pos + 4 + kl as int + 4,
        ));
    }
    let vl = vl32 as usize;
    if n - pos - 4 - kl - 4 < vl {
        return None;
    }
    let value = copy_range(bytes, pos + 4 + kl + 4, vl);
    let next = pos + 4 + kl + 4 + vl;
    let rest = decode_entries_from(bytes, next);
    proof {
        assert(b.subrange(4, 4 + kl as int) =~= bytes@.subrange(
            pos as int + 4,
            pos as int + 4 + kl as int,
        ));
        assert(b.subrange(4 + kl as int + 4, 4 + kl as int + 4 + vl as int) =~= bytes@.subrange(
            pos as int + 4 + kl as int + 4,
            pos as int + 4 + kl as int + 4 + vl as int,
        ));
        assert(b.subrange(4 + kl as int + 4 + vl as int, b.len() as int) =~= bytes@.skip(
            next as int,
        ));
    }
    match rest {
        None => None,
        Some(mut es) => {
            let ghost tail = es.deep_view();
            proof {
                lemma_entries_view(es);
            }
            es.insert(0, (key, value));
            proof {
                lemma_entries_view(es);
                assert(es.deep_view() =~= seq![(key@, value@)] + tail);
            }
            Some(es)
        },
    }
}

} // verus!
