//! The wire encoding of the synchronization messages: a compact
//! little-endian binary form, with a proof that decoding undoes encoding.

use vstd::prelude::*;

verus! {

use vstd::arithmetic::div_mod::{
    lemma_div_is_ordered, lemma_div_pos_is_pos, lemma_fundamental_div_mod,
};
use crate::algebra::Vec3;
use crate::network::PeriodicUpdate;
use crate::physics::{Position, Velocity};

/// `256^n`: how many values `n` bytes can carry.
pub open spec fn pow256(n: nat) -> int
    decreases n,
{
    if n == 0 {
        1
    } else {
        256 * pow256((n - 1) as nat)
    }
}

/// The `n` little-endian bytes of `x`.
pub open spec fn le_bytes_spec(x: int, n: nat) -> Seq<u8>
    decreases n,
{
    if n == 0 {
        Seq::empty()
    } else {
        seq![(x % 256) as u8] + le_bytes_spec(x / 256, (n - 1) as nat)
    }
}

/// The value the little-endian bytes `s` carry.
pub open spec fn le_value_spec(s: Seq<u8>) -> int
    decreases s.len(),
{
    if s.len() == 0 {
        0
    } else {
        s[0] + 256 * le_value_spec(s.subrange(1, s.len() as int))
    }
}

/// `256^n` is at least one.
pub proof fn lemma_pow256_pos(n: nat)
    ensures
        pow256(n) >= 1,
    decreases n,
{
    if n != 0 {
        lemma_pow256_pos((n - 1) as nat);
    }
}

/// More bytes carry no fewer values.
pub proof fn lemma_pow256_increases(a: nat, b: nat)
    requires
        a <= b,
    ensures
        pow256(a) <= pow256(b),
    decreases b,
{
    if a < b {
        lemma_pow256_increases(a, (b - 1) as nat);
        lemma_pow256_pos((b - 1) as nat);
    }
}

/// Little-endian encoding always has length `n`.
pub proof fn lemma_le_bytes_len(x: int, n: nat)
    ensures
        le_bytes_spec(x, n).len() == n,
    decreases n,
{
    if n != 0 {
        lemma_le_bytes_len(x / 256, (n - 1) as nat);
    }
}

/// A value below `256^n` comes back from its own bytes.
pub proof fn lemma_le_round_trip(x: int, n: nat)
    requires
        0 <= x < pow256(n),
    ensures
        le_value_spec(le_bytes_spec(x, n)) == x,
    decreases n,
{
    if n != 0 {
        let rest = le_bytes_spec(x / 256, (n - 1) as nat);
        lemma_le_bytes_len(x / 256, (n - 1) as nat);
        assert((seq![(x % 256) as u8] + rest).subrange(1, n as int) =~= rest);
        lemma_div_pos_is_pos(x, 256);
        lemma_div_is_ordered(x, pow256(n) - 1, 256);
        assert((pow256(n) - 1) / 256 == pow256((n - 1) as nat) - 1) by {
            lemma_fundamental_div_mod(pow256(n) - 1, 256);
            assert(pow256(n) - 1 == 256 * (pow256((n - 1) as nat) - 1) + 255);
            vstd::arithmetic::div_mod::lemma_fundamental_div_mod_converse_div(
                pow256(n) - 1,
                256,
                pow256((n - 1) as nat) - 1,
                255,
            );
        }
        lemma_le_round_trip(x / 256, (n - 1) as nat);
        lemma_fundamental_div_mod(x, 256);
    }
}

/// The value of `n` bytes stays below `256^n`.
pub proof fn lemma_le_value_bound(s: Seq<u8>)
    ensures
        0 <= le_value_spec(s) < pow256(s.len()),
    decreases s.len(),
{
    if s.len() != 0 {
        lemma_le_value_bound(s.subrange(1, s.len() as int));
    }
}

/// Append the eight little-endian bytes of `x`.
pub fn push_u64(out: &mut Vec<u8>, x: u64)
    ensures
        final(out)@ == old(out)@ + le_bytes_spec(x as int, 8),
{
    let ghost target = old(out)@ + le_bytes_spec(x as int, 8);
    let mut cur: u64 = x;
    let mut k: usize = 0;
    while k < 8
        invariant
            k <= 8,
            target == out@ + le_bytes_spec(cur as int, (8 - k) as nat),
        decreases 8 - k,
    {
        let ghost pre = out@;
        let ghost pre_cur = cur as int;
        out.push((cur % 256) as u8);
        cur = cur / 256;
        k = k + 1;
        proof {
            assert(le_bytes_spec(pre_cur, (8 - (k - 1)) as nat) == seq![(pre_cur % 256) as u8]
                + le_bytes_spec(pre_cur / 256, (8 - k) as nat));
            assert(out@ + le_bytes_spec(cur as int, (8 - k) as nat) =~= pre + le_bytes_spec(
                pre_cur,
                (9 - k) as nat,
            ));
        }
    }
    proof {
        assert(le_bytes_spec(cur as int, 0) =~= Seq::<u8>::empty());
        assert(out@ =~= out@ + Seq::<u8>::empty());
    }
}

/// Read the eight little-endian bytes at `off` back into a value.
pub fn read_u64(data: &Vec<u8>, off: usize) -> (r: u64)
    requires
        off + 8 <= data@.len(),
    ensures
        r == le_value_spec(data@.subrange(off as int, off as int + 8)),
{
    let dlen = data.len();
    let mut cur: u64 = 0;
    let mut k: usize = 8;
    while k > 0
        invariant
            k <= 8,
            dlen == data@.len(),
            off + 8 <= dlen,
            cur == le_value_spec(data@.subrange(off + k, off as int + 8)),
            0 <= cur < pow256((8 - k) as nat),
        decreases k,
    {
        proof {
            lemma_le_value_bound(data@.subrange(off + k - 1, off as int + 8));
            lemma_le_value_bound(data@.subrange(off + k, off as int + 8));
            assert(pow256(8) == 0x1_0000_0000_0000_0000) by {
                reveal_with_fuel(pow256, 9);
            }
            assert(pow256((8 - (k - 1)) as nat) == 256 * pow256((8 - k) as nat));
            assert(data@.subrange(off + k - 1, off as int + 8).subrange(
                1,
                data@.subrange(off + k - 1, off as int + 8).len() as int,
            ) =~= data@.subrange(off + k, off as int + 8));
            lemma_pow256_increases((9 - k) as nat, 8);
            assert(pow256((9 - k) as nat) == 256 * pow256((8 - k) as nat));
            assert(cur * 256 + 255 < pow256((9 - k) as nat));
        }
        k = k - 1;
        cur = cur * 256 + (data[off + k] as u64);
    }
    proof {
        assert(data@.subrange(off as int, off as int + 8) =~= data@.subrange(
            off + 0,
            off as int + 8,
        ));
    }
    cur
}

/// Unsigned 64-bit image of a signed component: the value shifted up by
/// `2^63` (an excess encoding, so ordering survives on the wire).
pub open spec fn to_u_spec(x: int) -> int {
    x + 0x8000_0000_0000_0000
}

/// Signed value of an unsigned 64-bit image.
pub open spec fn from_u_spec(u: int) -> int {
    u - 0x8000_0000_0000_0000
}

/// Wire bytes of one signed component.
pub open spec fn enc_i64_spec(x: int) -> Seq<u8> {
    le_bytes_spec(to_u_spec(x), 8)
}

/// Wire bytes of a vector: its three components.
pub open spec fn enc_vec3_spec(v: Vec3) -> Seq<u8> {
    enc_i64_spec(v.x as int) + enc_i64_spec(v.y as int) + enc_i64_spec(v.z as int)
}

/// Signed component parsed at `off`.
pub open spec fn dec_i64_spec(s: Seq<u8>, off: int) -> int {
    from_u_spec(le_value_spec(s.subrange(off, off + 8)))
}

/// Vector parsed at `off`.
pub open spec fn dec_vec3_spec(s: Seq<u8>, off: int) -> Vec3 {
    Vec3 {
        x: dec_i64_spec(s, off) as i64,
        y: dec_i64_spec(s, off + 8) as i64,
        z: dec_i64_spec(s, off + 16) as i64,
    }
}

/// A signed component comes back from its own wire bytes.
pub proof fn lemma_i64_round_trip(x: int)
    requires
        i64::MIN <= x <= i64::MAX,
    ensures
        le_bytes_spec(to_u_spec(x), 8).len() == 8,
        from_u_spec(le_value_spec(le_bytes_spec(to_u_spec(x), 8))) == x,
{
    assert(pow256(8) == 0x1_0000_0000_0000_0000) by {
        reveal_with_fuel(pow256, 9);
    }
    lemma_le_bytes_len(to_u_spec(x), 8);
    lemma_le_round_trip(to_u_spec(x), 8);
}

/// One snapshot entry on the wire: a length-prefixed identifier, then the
/// position and velocity components.
pub open spec fn enc_entry_spec(id: Seq<u8>, p: Vec3, v: Vec3) -> Seq<u8> {
    seq![id.len() as u8] + id + enc_vec3_spec(p) + enc_vec3_spec(v)
}

/// The wire bytes of the entries from index `k` on.
pub open spec fn enc_entries_spec(entries: Seq<(Vec<u8>, Position, Velocity)>, k: int) -> Seq<u8>
    decreases entries.len() - k,
{
    if k < 0 || k >= entries.len() {
        Seq::empty()
    } else {
        enc_entry_spec(entries[k].0@, entries[k].1.0, entries[k].2.0) + enc_entries_spec(
            entries,
            k + 1,
        )
    }
}

/// The whole snapshot on the wire: tick, entry count, entries.
pub open spec fn enc_update_spec(time: u64, entries: Seq<(Vec<u8>, Position, Velocity)>) -> Seq<
    u8,
> {
    le_bytes_spec(time as int, 8) + le_bytes_spec(entries.len() as int, 8) + enc_entries_spec(
        entries,
        0,
    )
}

/// What a decoded snapshot holds: the views of its entries.
pub open spec fn update_view(u: PeriodicUpdate) -> Seq<(Seq<u8>, Vec3, Vec3)> {
    Seq::new(u.ships@.len(), |i: int| (u.ships@[i].0@, u.ships@[i].1.0, u.ships@[i].2.0))
}

/// Encode the periodic snapshot into its wire form.
pub fn encode_periodic_update(u: &PeriodicUpdate) -> (out: Vec<u8>)
    requires
        forall|i: int| 0 <= i < u.ships@.len() ==> (#[trigger] u.ships@[i]).0@.len() <= 32,
    ensures
        out@ == enc_update_spec(u.time, u.ships@),
{
    let mut out: Vec<u8> = Vec::new();
    push_u64(&mut out, u.time);
    push_u64(&mut out, u.ships.len() as u64);
    let ghost target = enc_update_spec(u.time, u.ships@);
    proof {
        assert(out@ + enc_entries_spec(u.ships@, 0) =~= target);
    }
    let mut k: usize = 0;
    while k < u.ships.len()
        invariant
            k <= u.ships@.len(),
            forall|i: int| 0 <= i < u.ships@.len() ==> (#[trigger] u.ships@[i]).0@.len() <= 32,
            target == out@ + enc_entries_spec(u.ships@, k as int),
        decreases u.ships@.len() - k,
    {
        let ghost pre = out@;
        let entry = &u.ships[k];
        out.push(entry.0.len() as u8);
        let mut b: usize = 0;
        while b < entry.0.len()
            invariant
                b <= entry.0@.len(),
                out@ == pre + seq![entry.0@.len() as u8] + entry.0@.subrange(0, b as int),
            decreases entry.0@.len() - b,
        {
            out.push(entry.0[b]);
            proof {
                assert(out@ =~= pre + seq![entry.0@.len() as u8] + entry.0@.subrange(0, b + 1));
            }
            b = b + 1;
        }
        proof {
            assert(entry.0@.subrange(0, entry.0@.len() as int) =~= entry.0@);
        }
        push_i64(&mut out, entry.1.0.x);
        push_i64(&mut out, entry.1.0.y);
        push_i64(&mut out, entry.1.0.z);
        push_i64(&mut out, entry.2.0.x);
        push_i64(&mut out, entry.2.0.y);
        push_i64(&mut out, entry.2.0.z);
        proof {
            assert(out@ =~= pre + enc_entry_spec(entry.0@, entry.1.0, entry.2.0));
            assert(enc_entries_spec(u.ships@, k as int) == enc_entry_spec(
                u.ships@[k as int].0@,
                u.ships@[k as int].1.0,
                u.ships@[k as int].2.0,
            ) + enc_entries_spec(u.ships@, k + 1));
            assert(target =~= out@ + enc_entries_spec(u.ships@, k + 1));
        }
        k = k + 1;
    }
    proof {
        assert(enc_entries_spec(u.ships@, u.ships@.len() as int) =~= Seq::<u8>::empty());
        assert(out@ =~= out@ + Seq::<u8>::empty());
    }
    out
}

/// Parse `k` snapshot entries starting at `off`: the entry views and the
/// offset after them, or nothing if the bytes are malformed.
pub open spec fn dec_entries_spec(s: Seq<u8>, off: int, k: nat) -> Option<
    (Seq<(Seq<u8>, Vec3, Vec3)>, int),
>
    decreases k,
{
    if k == 0 {
        Option::Some((Seq::empty(), off))
    } else if off < 0 || off >= s.len() {
        Option::None
    } else {
        let idlen = s[off] as int;
        if idlen > 32 || off + 49 + idlen > s.len() {
            Option::None
        } else {
            let id = s.subrange(off + 1, off + 1 + idlen);
            let p = dec_vec3_spec(s, off + 1 + idlen);
            let v = dec_vec3_spec(s, off + 25 + idlen);
            match dec_entries_spec(s, off + 49 + idlen, (k - 1) as nat) {
                Option::None => Option::None,
                Option::Some((rest, end)) => Option::Some((seq![(id, p, v)] + rest, end)),
            }
        }
    }
}

/// Parse a whole snapshot: its tick and its entry views, or nothing if
/// the bytes are malformed or carry trailing garbage.
pub open spec fn dec_update_spec(s: Seq<u8>) -> Option<(int, Seq<(Seq<u8>, Vec3, Vec3)>)> {
    if s.len() < 16 {
        Option::None
    } else {
        let time = le_value_spec(s.subrange(0, 8));
        let count = le_value_spec(s.subrange(8, 16));
        match dec_entries_spec(s, 16, count as nat) {
            Option::None => Option::None,
            Option::Some((entries, end)) => if end == s.len() {
                Option::Some((time, entries))
            } else {
                Option::None
            },
        }
    }
}

/// A subrange of a subrange reads the same bytes.
proof fn lemma_nested_subrange(s: Seq<u8>, a: int, b: int, t: Seq<u8>, i: int, j: int)
    requires
        0 <= a <= b <= s.len(),
        s.subrange(a, b) == t,
        0 <= i <= j <= t.len(),
    ensures
        s.subrange(a + i, a + j) == t.subrange(i, j),
{
    assert(s.subrange(a + i, a + j) =~= t.subrange(i, j));
}

/// The view of the entries from index `k` on.
pub open spec fn entries_view(entries: Seq<(Vec<u8>, Position, Velocity)>, k: int) -> Seq<
    (Seq<u8>, Vec3, Vec3),
> {
    Seq::new((entries.len() - k) as nat, |i: int| (entries[k + i].0@, entries[k + i].1.0, entries[k + i].2.0))
}

/// Parsing undoes encoding, entry by entry: bytes that continue with the
/// encoded entries from `k` on parse back to exactly their views,
/// consuming everything.
pub proof fn lemma_entries_round_trip(
    s: Seq<u8>,
    base: int,
    entries: Seq<(Vec<u8>, Position, Velocity)>,
    k: int,
)
    requires
        0 <= k <= entries.len(),
        0 <= base <= s.len(),
        s.subrange(base, s.len() as int) == enc_entries_spec(entries, k),
        forall|i: int| 0 <= i < entries.len() ==> (#[trigger] entries[i]).0@.len() <= 32,
    ensures
        dec_entries_spec(s, base, (entries.len() - k) as nat) == Option::Some(
            (entries_view(entries, k), s.len() as int),
        ),
    decreases entries.len() - k,
{
    let tail = s.subrange(base, s.len() as int);
    if k == entries.len() {
        assert(enc_entries_spec(entries, k) =~= Seq::<u8>::empty());
        assert(base == s.len());
        assert(entries_view(entries, k) =~= Seq::<(Seq<u8>, Vec3, Vec3)>::empty());
    } else {
        let id = entries[k].0@;
        let p = entries[k].1.0;
        let v = entries[k].2.0;
        let e = enc_entry_spec(id, p, v);
        let idlen = id.len() as int;
        lemma_i64_round_trip(p.x as int);
        lemma_i64_round_trip(p.y as int);
        lemma_i64_round_trip(p.z as int);
        lemma_i64_round_trip(v.x as int);
        lemma_i64_round_trip(v.y as int);
        lemma_i64_round_trip(v.z as int);
        assert(e.len() == 49 + idlen);
        assert(tail == e + enc_entries_spec(entries, k + 1));
        lemma_nested_subrange(s, base, s.len() as int, tail, 0, e.len() as int);
        assert(tail.subrange(0, e.len() as int) =~= e);
        assert(s.subrange(base, base + e.len()) == e);
        lemma_nested_subrange(s, base, s.len() as int, tail, e.len() as int, tail.len() as int);
        assert(tail.subrange(e.len() as int, tail.len() as int) =~= enc_entries_spec(
            entries,
            k + 1,
        ));
        assert(s.subrange(base + e.len(), s.len() as int) == enc_entries_spec(entries, k + 1));
        // The length byte, the identifier bytes, and the six components.
        assert(s[base] == e[0]);
        assert(e[0] == idlen as u8);
        lemma_nested_subrange(s, base, base + e.len(), e, 1, 1 + idlen);
        assert(e.subrange(1, 1 + idlen) =~= id);
        let encp = enc_vec3_spec(p);
        let encv = enc_vec3_spec(v);
        lemma_nested_subrange(s, base, base + e.len(), e, 1 + idlen, 25 + idlen);
        assert(e.subrange(1 + idlen, 25 + idlen) =~= encp);
        lemma_nested_subrange(s, base, base + e.len(), e, 25 + idlen, 49 + idlen);
        assert(e.subrange(25 + idlen, 49 + idlen) =~= encv);
        lemma_vec3_round_trip(s, base + 1 + idlen, p);
        lemma_vec3_round_trip(s, base + 25 + idlen, v);
        lemma_entries_round_trip(s, base + e.len(), entries, k + 1);
        assert(seq![(id, p, v)] + entries_view(entries, k + 1) =~= entries_view(entries, k));
    }
}

/// A vector parses back from its own wire bytes.
proof fn lemma_vec3_round_trip(s: Seq<u8>, off: int, p: Vec3)
    requires
        0 <= off,
        off + 24 <= s.len(),
        s.subrange(off, off + 24) == enc_vec3_spec(p),
    ensures
        dec_vec3_spec(s, off) == p,
{
    let e = enc_vec3_spec(p);
    lemma_i64_round_trip(p.x as int);
    lemma_i64_round_trip(p.y as int);
    lemma_i64_round_trip(p.z as int);
    lemma_nested_subrange(s, off, off + 24, e, 0, 8);
    lemma_nested_subrange(s, off, off + 24, e, 8, 16);
    lemma_nested_subrange(s, off, off + 24, e, 16, 24);
    assert(e.subrange(0, 8) =~= enc_i64_spec(p.x as int));
    assert(e.subrange(8, 16) =~= enc_i64_spec(p.y as int));
    assert(e.subrange(16, 24) =~= enc_i64_spec(p.z as int));
}

/// Decoding undoes encoding: a snapshot's wire bytes parse back to its
/// tick and exactly the views of its entries.
pub proof fn lemma_update_round_trip(time: u64, entries: Seq<(Vec<u8>, Position, Velocity)>)
    requires
        forall|i: int| 0 <= i < entries.len() ==> (#[trigger] entries[i]).0@.len() <= 32,
        entries.len() < 0x1_0000_0000_0000_0000,
    ensures
        dec_update_spec(enc_update_spec(time, entries)) == Option::Some(
            (time as int, entries_view(entries, 0)),
        ),
{
    let s = enc_update_spec(time, entries);
    let ta = le_bytes_spec(time as int, 8);
    let ca = le_bytes_spec(entries.len() as int, 8);
    lemma_le_bytes_len(time as int, 8);
    lemma_le_bytes_len(entries.len() as int, 8);
    assert(pow256(8) == 0x1_0000_0000_0000_0000) by {
        reveal_with_fuel(pow256, 9);
    }
    assert(s.subrange(0, 8) =~= ta);
    assert(s.subrange(8, 16) =~= ca);
    lemma_le_round_trip(time as int, 8);
    lemma_le_round_trip(entries.len() as int, 8);
    assert(s.subrange(16, s.len() as int) =~= enc_entries_spec(entries, 0));
    lemma_entries_round_trip(s, 16, entries, 0);
}

/// Decode a snapshot from its wire bytes; malformed bytes give nothing.
pub fn decode_periodic_update(data: &Vec<u8>) -> (r: Option<PeriodicUpdate>)
    ensures
        match r {
            Option::Some(u) => dec_update_spec(data@) == Option::Some(
                (u.time as int, update_view(u)),
            ),
            Option::None => dec_update_spec(data@) is None,
        },
{
    let dlen = data.len();
    if dlen < 16 {
        return None;
    }
    let time = read_u64(data, 0);
    let count = read_u64(data, 8);
    proof {
        lemma_le_value_bound(data@.subrange(0, 8));
        lemma_le_value_bound(data@.subrange(8, 16));
    }
    let mut entries: Vec<(Vec<u8>, Position, Velocity)> = Vec::new();
    let mut off: usize = 16;
    let mut parsed: u64 = 0;
    while parsed < count
        invariant
            dlen == data@.len(),
            16 <= off <= dlen,
            parsed <= count,
            time == le_value_spec(data@.subrange(0, 8)),
            count == le_value_spec(data@.subrange(8, 16)),
            entries@.len() == parsed,
            update_view(PeriodicUpdate { time, ships: entries }) =~= entries_view_partial(
                entries@,
            ),
            dec_entries_spec(data@, 16, count as nat) == match dec_entries_spec(
                data@,
                off as int,
                (count - parsed) as nat,
            ) {
                Option::None => Option::None::<(Seq<(Seq<u8>, Vec3, Vec3)>, int)>,
                Option::Some((rest, end)) => Option::Some(
                    (entries_view_partial(entries@) + rest, end),
                ),
            },
        decreases count - parsed,
    {
        if off >= dlen {
            proof {
                assert(dec_entries_spec(data@, off as int, (count - parsed) as nat) is None);
                assert(dec_update_spec(data@) is None);
            }
            return None;
        }
        let idlen = data[off] as usize;
        if idlen > 32 || 49 + idlen > dlen - off {
            proof {
                assert(dec_entries_spec(data@, off as int, (count - parsed) as nat) is None);
                assert(dec_update_spec(data@) is None);
            }
            return None;
        }
        let mut id: Vec<u8> = Vec::new();
        let mut b: usize = 0;
        while b < idlen
            invariant
                off + 1 + idlen <= dlen,
                dlen == data@.len(),
                b <= idlen,
                id@ == data@.subrange(off + 1, off + 1 + b),
            decreases idlen - b,
        {
            id.push(data[off + 1 + b]);
            proof {
                assert(id@ =~= data@.subrange(off + 1, off + 1 + b + 1));
            }
            b = b + 1;
        }
        let p = Vec3 {
            x: read_i64(data, off + 1 + idlen),
            y: read_i64(data, off + 9 + idlen),
            z: read_i64(data, off + 17 + idlen),
        };
        let v = Vec3 {
            x: read_i64(data, off + 25 + idlen),
            y: read_i64(data, off + 33 + idlen),
            z: read_i64(data, off + 41 + idlen),
        };
        let ghost pre_entries = entries@;
        let ghost pre_off = off as int;
        let ghost rem = (count - parsed) as nat;
        entries.push((id, Position(p), Velocity(v)));
        off = off + 49 + idlen;
        parsed = parsed + 1;
        proof {
            let gid = data@.subrange(pre_off + 1, pre_off + 1 + idlen);
            assert(dec_vec3_spec(data@, pre_off + 1 + idlen) == p);
            assert(dec_vec3_spec(data@, pre_off + 25 + idlen) == v);
            let head = (gid, p, v);
            let next = dec_entries_spec(data@, off as int, (rem - 1) as nat);
            assert(dec_entries_spec(data@, pre_off, rem) == match next {
                Option::None => Option::None::<(Seq<(Seq<u8>, Vec3, Vec3)>, int)>,
                Option::Some((rest, end)) => Option::Some((seq![head] + rest, end)),
            });
            assert(entries_view_partial(entries@) =~= entries_view_partial(pre_entries) + seq![
                head,
            ]);
            if next is Some {
                let (rest, end) = next->Some_0;
                assert((entries_view_partial(pre_entries) + seq![head]) + rest
                    =~= entries_view_partial(pre_entries) + (seq![head] + rest));
            }
        }
    }
    proof {
        assert(dec_entries_spec(data@, off as int, 0) == Option::Some(
            (Seq::<(Seq<u8>, Vec3, Vec3)>::empty(), off as int),
        ));
        assert(entries_view_partial(entries@) + Seq::<(Seq<u8>, Vec3, Vec3)>::empty()
            =~= entries_view_partial(entries@));
        assert(dec_entries_spec(data@, 16, count as nat) == Option::Some(
            (entries_view_partial(entries@), off as int),
        ));
    }
    if off != dlen {
        proof {
            assert(dec_update_spec(data@) is None);
        }
        return None;
    }
    let ghost gview = entries_view_partial(entries@);
    let u = PeriodicUpdate { time, ships: entries };
    proof {
        assert(update_view(u) =~= gview);
        assert(dec_update_spec(data@) == Option::Some((time as int, gview)));
    }
    Some(u)
}

/// The views of already-parsed entries.
pub open spec fn entries_view_partial(entries: Seq<(Vec<u8>, Position, Velocity)>) -> Seq<
    (Seq<u8>, Vec3, Vec3),
> {
    Seq::new(entries.len(), |i: int| (entries[i].0@, entries[i].1.0, entries[i].2.0))
}

/// Append the eight wire bytes of a signed component.
pub fn push_i64(out: &mut Vec<u8>, x: i64)
    ensures
        final(out)@ == old(out)@ + enc_i64_spec(x as int),
{
    let b: i128 = (x as i128) + 0x8000_0000_0000_0000i128;
    let u: u64 = b as u64;
    push_u64(out, u);
}

/// Read one signed component at `off`.
pub fn read_i64(data: &Vec<u8>, off: usize) -> (r: i64)
    requires
        off + 8 <= data@.len(),
    ensures
        r == dec_i64_spec(data@, off as int),
{
    let u = read_u64(data, off);
    proof {
        lemma_le_value_bound(data@.subrange(off as int, off as int + 8));
        assert(pow256(8) == 0x1_0000_0000_0000_0000) by {
            reveal_with_fuel(pow256, 9);
        }
    }
    let r: i64 = ((u as i128) - 0x8000_0000_0000_0000i128) as i64;
    r
}

} // verus!
