//! The computational core of the HSM key-listing command.
//!
//! The command itself talks to a hardware security module; everything it
//! decides about the device's answers is here: which objects are asymmetric
//! keys, the ascending order they are listed in, how a key identifier is
//! labelled, and how a raw Ed25519 public key is rendered as lowercase hex.

use vstd::prelude::*;

use vstd::multiset::Multiset;

verus! {

/// The `keys list` subcommand: lists the asymmetric keys in the HSM.
#[derive(Clone, Debug, Default, PartialEq, Eq)]
pub struct ListCommand {
    /// Path to the configuration file.
    pub config: Option<String>,
}

/// What the listing reads of one HSM object: its identifier and whether it
/// is an asymmetric key.
#[derive(Clone, Copy, Debug, PartialEq, Eq, Structural)]
pub struct HsmObjectInfo {
    pub object_id: u16,
    pub is_asymmetric_key: bool,
}

/// The identifiers of the asymmetric keys among the objects, in the order
/// the device listed them.
pub open spec fn asym_ids(s: Seq<HsmObjectInfo>) -> Seq<u16>
    decreases s.len(),
{
    if s.len() == 0 {
        Seq::<u16>::empty()
    } else {
        let rest = asym_ids(s.drop_last());
        if s.last().is_asymmetric_key {
            rest.push(s.last().object_id)
        } else {
            rest
        }
    }
}

/// Ascending order.
pub open spec fn sorted_u16(s: Seq<u16>) -> bool {
    forall|i: int, j: int| 0 <= i < j < s.len() ==> s[i] <= s[j]
}

/// The asymmetric keys among the device's objects, sorted by identifier:
/// exactly the asymmetric identifiers, each as often as it occurs, in
/// ascending order.
pub fn select_asymmetric_key_ids(objects: &Vec<HsmObjectInfo>) -> (r: Vec<u16>)
    ensures
        r@.to_multiset() == asym_ids(objects@).to_multiset(),
        sorted_u16(r@),
{
    broadcast use vstd::seq_lib::group_to_multiset_ensures;

    let mut ids: Vec<u16> = Vec::new();
    let n = objects.len();
    let mut i: usize = 0;
    proof {
        assert(objects@.take(0) =~= Seq::<HsmObjectInfo>::empty());
    }
    while i < n
        invariant
            0 <= i <= n,
            n == objects@.len(),
            ids@ == asym_ids(objects@.take(i as int)),
        decreases n - i,
    {
        proof {
            assert(objects@.take(i as int + 1).drop_last() =~= objects@.take(i as int));
            assert(objects@.take(i as int + 1).last() == objects@[i as int]);
        }
        if objects[i].is_asymmetric_key {
            ids.push(objects[i].object_id);
        }
        i += 1;
    }
    proof {
        assert(objects@.take(n as int) =~= objects@);
    }
    let ghost all = asym_ids(objects@);
    let mut out: Vec<u16> = Vec::new();
    proof {
        assert(out@.to_multiset().add(ids@.to_multiset()) =~= all.to_multiset());
    }
    while ids.len() > 0
        invariant
            out@.to_multiset().add(ids@.to_multiset()) == all.to_multiset(),
            sorted_u16(out@),
            forall|a: int, b: int| 0 <= a < out@.len() && 0 <= b < ids@.len() ==> out@[a]
                <= ids@[b],
        decreases ids@.len(),
    {
        broadcast use vstd::seq_lib::group_to_multiset_ensures;

        let m = ids.len();
        let mut mi: usize = 0;
        let mut k: usize = 1;
        while k < m
            invariant
                0 <= mi < m,
                1 <= k <= m,
                m == ids@.len(),
                forall|t: int| 0 <= t < k ==> ids@[mi as int] <= ids@[t],
            decreases m - k,
        {
            if ids[k] < ids[mi] {
                mi = k;
            }
            k += 1;
        }
        let ghost old_ids = ids@;
        let ghost old_out = out@;
        let v = ids.remove(mi);
        out.push(v);
        proof {
            assert(v == old_ids[mi as int]);
            assert(old_ids.to_multiset().count(v) > 0) by {
                assert(old_ids.contains(v));
            }
            assert(ids@ == old_ids.remove(mi as int));
            assert(ids@.to_multiset() =~= old_ids.to_multiset().remove(v));
            assert(out@.to_multiset().add(ids@.to_multiset()) =~= old_out.to_multiset().add(
                old_ids.to_multiset(),
            ));
            assert(forall|b: int| 0 <= b < ids@.len() ==> ids@[b] == if b < mi as int {
                old_ids[b]
            } else {
                old_ids[b + 1]
            });
            assert(forall|b: int| 0 <= b < ids@.len() ==> v <= ids@[b]);
            assert(sorted_u16(out@)) by {
                assert(forall|a: int| 0 <= a < old_out.len() ==> old_out[a] <= v);
                assert(forall|a: int| 0 <= a < out@.len() - 1 ==> out@[a] == old_out[a]);
                assert(out@[out@.len() - 1] == v);
            }
        }
    }
    proof {
        assert(ids@.to_multiset().len() == 0);
        assert(ids@.to_multiset() =~= Multiset::<u16>::empty());
        assert(out@.to_multiset() =~= all.to_multiset());
    }
    out
}

/// The lowercase hex digit of a value below 16.
pub open spec fn hex_char(d: u8) -> char {
    if d == 0 {
        '0'
    } else if d == 1 {
        '1'
    } else if d == 2 {
        '2'
    } else if d == 3 {
        '3'
    } else if d == 4 {
        '4'
    } else if d == 5 {
        '5'
    } else if d == 6 {
        '6'
    } else if d == 7 {
        '7'
    } else if d == 8 {
        '8'
    } else if d == 9 {
        '9'
    } else if d == 10 {
        'a'
    } else if d == 11 {
        'b'
    } else if d == 12 {
        'c'
    } else if d == 13 {
        'd'
    } else if d == 14 {
        'e'
    } else {
        'f'
    }
}

/// The lowercase hex rendering of bytes: two digits for each byte, high
/// digit first.
pub open spec fn hex_of(b: Seq<u8>) -> Seq<char>
    decreases b.len(),
{
    if b.len() == 0 {
        Seq::<char>::empty()
    } else {
        hex_of(b.drop_last()) + seq![hex_char(b.last() / 16), hex_char(b.last() % 16)]
    }
}

/// The one-character string of the lowercase hex digit of a value below 16.
fn hex_digit_str(d: u8) -> (r: &'static str)
    requires
        d < 16,
    ensures
        r@ == seq![hex_char(d)],
{
    proof {
        reveal_strlit("0");
        reveal_strlit("1");
        reveal_strlit("2");
        reveal_strlit("3");
        reveal_strlit("4");
        reveal_strlit("5");
        reveal_strlit("6");
        reveal_strlit("7");
        reveal_strlit("8");
        reveal_strlit("9");
        reveal_strlit("a");
        reveal_strlit("b");
        reveal_strlit("c");
        reveal_strlit("d");
        reveal_strlit("e");
        reveal_strlit("f");
    }
    if d == 0 {
        "0"
    } else if d == 1 {
        "1"
    } else if d == 2 {
        "2"
    } else if d == 3 {
        "3"
    } else if d == 4 {
        "4"
    } else if d == 5 {
        "5"
    } else if d == 6 {
        "6"
    } else if d == 7 {
        "7"
    } else if d == 8 {
        "8"
    } else if d == 9 {
        "9"
    } else if d == 10 {
        "a"
    } else if d == 11 {
        "b"
    } else if d == 12 {
        "c"
    } else if d == 13 {
        "d"
    } else if d == 14 {
        "e"
    } else {
        "f"
    }
}

/// The lowercase hex rendering of bytes, computed.
pub fn hex_string(bytes: &Vec<u8>) -> (r: String)
    ensures
        r@ == hex_of(bytes@),
{
    let mut r = String::new();
    let n = bytes.len();
    let mut i: usize = 0;
    proof {
        assert(bytes@.take(0) =~= Seq::<u8>::empty());
    }
    while i < n
        invariant
            0 <= i <= n,
            n == bytes@.len(),
            r@ == hex_of(bytes@.take(i as int)),
        decreases n - i,
    {
        let b = bytes[i];
        r.append(hex_digit_str(b / 16));
        r.append(hex_digit_str(b % 16));
        proof {
            assert(bytes@.take(i as int + 1).drop_last() =~= bytes@.take(i as int));
            assert(bytes@.take(i as int + 1).last() == bytes@[i as int]);
            assert(r@ =~= hex_of(bytes@.take(i as int + 1)));
        }
        i += 1;
    }
    proof {
        assert(bytes@.take(n as int) =~= bytes@);
    }
    r
}

/// The label a listed key is printed under: `- 0x#` and the four hex
/// digits of its identifier.
pub open spec fn key_id_label_spec(id: u16) -> Seq<char> {
    seq!['-', ' ', '0', 'x', '#'] + seq![
        hex_char((id / 0x1000) as u8 % 16),
        hex_char((id / 0x100) as u8 % 16),
        hex_char((id / 0x10) as u8 % 16),
        hex_char(id as u8 % 16),
    ]
}

/// The label a listed key is printed under, computed.
pub fn key_id_label(id: u16) -> (r: String)
    ensures
        r@ == key_id_label_spec(id),
{
    let mut r = String::new();
    r.append("- 0x#");
    r.append(hex_digit_str((id / 0x1000) as u8 % 16));
    r.append(hex_digit_str((id / 0x100) as u8 % 16));
    r.append(hex_digit_str((id / 0x10) as u8 % 16));
    r.append(hex_digit_str(id as u8 % 16));
    proof {
        reveal_strlit("- 0x#");
        assert(r@ =~= key_id_label_spec(id));
    }
    r
}

/// The display form of a raw Ed25519 public key: its lowercase hex, if and
/// only if the raw bytes have the 32-byte length of such a key.
pub fn ed25519_key_hex(bytes: &Vec<u8>) -> (r: Option<String>)
    ensures
        r is Some <==> bytes@.len() == 32,
        r matches Some(s) ==> s@ == hex_of(bytes@),
{
    if bytes.len() != 32 {
        return None;
    }
    Some(hex_string(bytes))
}

} // verus!
