//! Wire format of PSBT key-value maps: CompactSize lengths, then for each
//! entry `<key len><key><value len><value>`, and a `0x00` end marker.

use vstd::prelude::*;
use vstd::string::*;

use crate::governance::error::{GovernanceError, GovernanceResult};
use crate::governance::psbt_map::{
    entries_insert, entries_view, key_index, keys_distinct, lemma_key_index, Entries, PsbtMap,
};
use crate::text::{concat_str, decimal, decimal_string, string_of};

verus! {

/// Longest key that a map may hold.
pub const MAX_PSBT_KEY_LEN: usize = 520;

/// Longest value that a map may hold.
pub const MAX_PSBT_VALUE_LEN: usize = 520000;

/// `256` to the power `k`.
pub open spec fn pow256(k: nat) -> nat
    decreases k,
{
    if k == 0 {
        1
    } else {
        256 * pow256((k - 1) as nat)
    }
}

/// The `k` low bytes of `n`, least significant first.
pub open spec fn le_bytes(n: nat, k: nat) -> Seq<u8>
    decreases k,
{
    if k == 0 {
        Seq::empty()
    } else {
        seq![(n % 256) as u8] + le_bytes(n / 256, (k - 1) as nat)
    }
}

/// The number whose little-endian bytes are `s`.
pub open spec fn le_value(s: Seq<u8>) -> nat
    decreases s.len(),
{
    if s.len() == 0 {
        0
    } else {
        s[0] as nat + 256 * le_value(s.drop_first())
    }
}

/// The CompactSize encoding of `n`.
pub open spec fn compact_size(n: nat) -> Seq<u8> {
    if n < 0xfd {
        seq![n as u8]
    } else if n <= 0xffff {
        seq![0xfdu8] + le_bytes(n, 2)
    } else if n <= 0xffff_ffff {
        seq![0xfeu8] + le_bytes(n, 4)
    } else {
        seq![0xffu8] + le_bytes(n, 8)
    }
}

/// Reading a CompactSize at `pos` of `d`: the value and the number of
/// bytes read, or the message of the error.
pub open spec fn read_compact_spec(d: Seq<u8>, pos: int) -> Result<(nat, nat), Seq<char>> {
    if pos < 0 || pos >= d.len() {
        Err("Unexpected end of data"@)
    } else if d[pos] < 0xfd {
        Ok((d[pos] as nat, 1))
    } else if d[pos] == 0xfd {
        if d.len() - pos < 3 {
            Err("Invalid compact size"@)
        } else {
            Ok((le_value(d.subrange(pos + 1, pos + 3)), 3))
        }
    } else if d[pos] == 0xfe {
        if d.len() - pos < 5 {
            Err("Invalid compact size"@)
        } else {
            Ok((le_value(d.subrange(pos + 1, pos + 5)), 5))
        }
    } else {
        if d.len() - pos < 9 {
            Err("Invalid compact size"@)
        } else {
            Ok(((le_value(d.subrange(pos + 1, pos + 9)) as u64) as usize as nat, 9))
        }
    }
}

/// The bytes of one map entry.
pub open spec fn entry_bytes(e: (Seq<u8>, Seq<u8>)) -> Seq<u8> {
    compact_size(e.0.len()) + e.0 + compact_size(e.1.len()) + e.1
}

/// The bytes of the entries of a map, in order.
pub open spec fn ser_entries(es: Entries) -> Seq<u8>
    decreases es.len(),
{
    if es.len() == 0 {
        Seq::empty()
    } else {
        ser_entries(es.drop_last()) + entry_bytes(es.last())
    }
}

/// The bytes of a map: its entries and the `0x00` end marker.
pub open spec fn ser_map(es: Entries) -> Seq<u8> {
    ser_entries(es).push(0)
}

/// Message of the error for an overlong key.
pub open spec fn key_too_long_message(n: nat) -> Seq<char> {
    "PSBT key too long: "@ + decimal(n) + " bytes (max: 520)"@
}

/// Message of the error for an overlong value.
pub open spec fn value_too_long_message(n: nat) -> Seq<char> {
    "PSBT value too long: "@ + decimal(n) + " bytes (max: 520000)"@
}

/// Reading a map from position `pos` of `d`, with the entries read so far
/// in `acc`: the entries and the position after the map, or the message of
/// the error. Reading stops after a `0x00` marker or at the end of `d`; a
/// key read twice keeps the later value.
pub open spec fn parse_map_at(d: Seq<u8>, pos: nat, acc: Entries) -> Result<
    (Entries, nat),
    Seq<char>,
>
    decreases d.len() - pos,
{
    if pos >= d.len() {
        Ok((acc, pos))
    } else if d[pos as int] == 0 {
        Ok((acc, pos + 1))
    } else {
        match read_compact_spec(d, pos as int) {
            Err(m) => Err(m),
            Ok((klen, w)) => {
                let p1 = pos + w;
                if klen > 520 {
                    Err(key_too_long_message(klen))
                } else if p1 + klen > d.len() {
                    Err("Invalid key length"@)
                } else {
                    let key = d.subrange(p1 as int, (p1 + klen) as int);
                    let p2 = p1 + klen;
                    match read_compact_spec(d, p2 as int) {
                        Err(m) => Err(m),
                        Ok((vlen, w2)) => {
                            let p3 = p2 + w2;
                            if vlen > 520000 {
                                Err(value_too_long_message(vlen))
                            } else if p3 + vlen > d.len() {
                                Err("Invalid value length"@)
                            } else {
                                parse_map_at(
                                    d,
                                    p3 + vlen,
                                    entries_insert(
                                        acc,
                                        key,
                                        d.subrange(p3 as int, (p3 + vlen) as int),
                                    ),
                                )
                            }
                        },
                    }
                }
            },
        }
    }
}

/// A successful read ends within `d` and, if it started within `d`, after
/// its start.
pub proof fn lemma_parse_map_progress(d: Seq<u8>, pos: nat, acc: Entries)
    ensures
        parse_map_at(d, pos, acc) matches Ok((_, q)) ==> q >= pos && (pos < d.len() ==> q > pos
            && q <= d.len()),
    decreases d.len() - pos,
{
    if pos < d.len() && d[pos as int] != 0 {
        match read_compact_spec(d, pos as int) {
            Err(_) => {},
            Ok((klen, w)) => {
                let p1 = pos + w;
                if klen <= 520 && p1 + klen <= d.len() {
                    let p2 = p1 + klen;
                    match read_compact_spec(d, p2 as int) {
                        Err(_) => {},
                        Ok((vlen, w2)) => {
                            let p3 = p2 + w2;
                            if vlen <= 520000 && p3 + vlen <= d.len() {
                                lemma_parse_map_progress(
                                    d,
                                    p3 + vlen,
                                    entries_insert(
                                        acc,
                                        d.subrange(p1 as int, (p1 + klen) as int),
                                        d.subrange(p3 as int, (p3 + vlen) as int),
                                    ),
                                );
                            }
                        },
                    }
                }
            },
        }
    }
}

proof fn lemma_pow256_step(k: nat)
    ensures
        pow256(k + 1) == 256 * pow256(k),
        pow256(k) >= 1,
    decreases k,
{
    if k > 0 {
        lemma_pow256_step((k - 1) as nat);
    }
}

/// Little-endian bytes read back as the number they were written from.
pub proof fn lemma_le_roundtrip(n: nat, k: nat)
    requires
        n < pow256(k),
    ensures
        le_bytes(n, k).len() == k,
        le_value(le_bytes(n, k)) == n,
    decreases k,
{
    if k == 0 {
    } else {
        lemma_pow256_step((k - 1) as nat);
        assert(n / 256 < pow256((k - 1) as nat)) by (nonlinear_arith)
            requires
                n < 256 * pow256((k - 1) as nat),
        ;
        lemma_le_roundtrip(n / 256, (k - 1) as nat);
        let s = le_bytes(n, k);
        assert(s.drop_first() =~= le_bytes(n / 256, (k - 1) as nat));
        assert(n == n % 256 + 256 * (n / 256)) by (nonlinear_arith);
    }
}

/// A number read from `k` bytes is below `256^k`.
pub proof fn lemma_le_value_bound(s: Seq<u8>)
    ensures
        le_value(s) < pow256(s.len()),
    decreases s.len(),
{
    if s.len() > 0 {
        lemma_le_value_bound(s.drop_first());
        lemma_pow256_step((s.len() - 1) as nat);
        let a = s[0] as nat;
        let b = le_value(s.drop_first());
        let p = pow256((s.len() - 1) as nat);
        assert(a + 256 * b < 256 * p) by (nonlinear_arith)
            requires
                a < 256,
                b < p,
        ;
    }
}

/// Append the `k` low bytes of `v`, least significant first.
fn push_le(out: &mut Vec<u8>, v: u64, k: usize)
    requires
        k <= 8,
    ensures
        final(out)@ == old(out)@ + le_bytes(v as nat, k as nat),
{
    let ghost start = out@;
    let mut x: u64 = v;
    let mut j: usize = 0;
    while j < k
        invariant
            j <= k,
            out@ + le_bytes(x as nat, (k - j) as nat) == start + le_bytes(v as nat, k as nat),
        decreases k - j,
    {
        let ghost before = out@;
        proof {
            assert(le_bytes(x as nat, (k - j) as nat) =~= seq![(x % 256) as u8] + le_bytes(
                (x / 256) as nat,
                (k - j - 1) as nat,
            ));
        }
        out.push((x % 256) as u8);
        proof {
            assert(out@ + le_bytes((x / 256) as nat, (k - j - 1) as nat) =~= before + le_bytes(
                x as nat,
                (k - j) as nat,
            ));
        }
        x = x / 256;
        j = j + 1;
    }
    proof {
        assert(out@ + le_bytes(x as nat, 0) =~= out@);
    }
}

/// Write `size` in CompactSize encoding.
pub fn write_compact_size(result: &mut Vec<u8>, size: usize) -> (r: GovernanceResult<()>)
    ensures
        final(result)@ == old(result)@ + compact_size(size as nat),
        r is Ok,
{
    if size < 0xfd {
        result.push(size as u8);
        proof {
            assert(compact_size(size as nat) =~= seq![size as u8]);
        }
    } else if size <= 0xffff {
        result.push(0xfd);
        push_le(result, size as u64, 2);
        proof {
            assert(old(result)@.push(0xfdu8) + le_bytes(size as nat, 2) =~= old(result)@ + (seq![
                0xfdu8,
            ] + le_bytes(size as nat, 2)));
        }
    } else if size <= 0xffff_ffff {
        result.push(0xfe);
        push_le(result, size as u64, 4);
        proof {
            assert(old(result)@.push(0xfeu8) + le_bytes(size as nat, 4) =~= old(result)@ + (seq![
                0xfeu8,
            ] + le_bytes(size as nat, 4)));
        }
    } else {
        result.push(0xff);
        push_le(result, size as u64, 8);
        proof {
            assert(old(result)@.push(0xffu8) + le_bytes(size as nat, 8) =~= old(result)@ + (seq![
                0xffu8,
            ] + le_bytes(size as nat, 8)));
        }
    }
    Ok(())
}

/// The little-endian number in `data[from..to]`.
fn read_le(data: &[u8], from: usize, to: usize) -> (r: u64)
    requires
        from <= to <= data@.len(),
        to - from <= 8,
    ensures
        r as nat == le_value(data@.subrange(from as int, to as int)),
{
    let mut v: u64 = 0;
    let mut j: usize = to;
    proof {
        assert(data@.subrange(to as int, to as int) =~= Seq::<u8>::empty());
    }
    while j > from
        invariant
            from <= j <= to,
            to - from <= 8,
            to <= data@.len(),
            v as nat == le_value(data@.subrange(j as int, to as int)),
        decreases j - from,
    {
        proof {
            lemma_le_value_bound(data@.subrange(j as int, to as int));
            assert(pow256((to - j) as nat) <= pow256(7)) by {
                lemma_pow256_mono((to - j) as nat, 7);
            }
            lemma_pow256_values();
        }
        j = j - 1;
        proof {
            assert(data@.subrange(j as int, to as int).drop_first() =~= data@.subrange(
                j + 1,
                to as int,
            ));
        }
        v = v * 256 + data[j] as u64;
    }
    v
}

proof fn lemma_pow256_values()
    ensures
        pow256(2) == 65536,
        pow256(4) == 0x100000000,
        pow256(7) == 0x100000000000000,
        pow256(8) == 0x10000000000000000,
{
    reveal_with_fuel(pow256, 9);
}

proof fn lemma_pow256_mono(a: nat, b: nat)
    requires
        a <= b,
    ensures
        pow256(a) <= pow256(b),
    decreases b,
{
    if a < b {
        lemma_pow256_mono(a, (b - 1) as nat);
        lemma_pow256_step((b - 1) as nat);
    }
}

/// Read a CompactSize at position `pos` of `data`: the value and the number
/// of bytes it took.
pub fn read_compact_size_at(data: &[u8], pos: usize) -> (r: GovernanceResult<(usize, usize)>)
    ensures
        read_compact_spec(data@, pos as int) matches Ok((v, w)) ==> r matches Ok((rv, rw)) && rv
            == v && rw == w,
        read_compact_spec(data@, pos as int) matches Err(m) ==> r matches Err(
            GovernanceError::InvalidInput(e),
        ) && e@ == m,
{
    if pos >= data.len() {
        return Err(GovernanceError::InvalidInput(string_of("Unexpected end of data")));
    }
    let marker = data[pos];
    if marker < 0xfd {
        Ok((marker as usize, 1))
    } else if marker == 0xfd {
        if data.len() - pos < 3 {
            return Err(GovernanceError::InvalidInput(string_of("Invalid compact size")));
        }
        let v = read_le(data, pos + 1, pos + 3);
        proof {
            lemma_le_value_bound(data@.subrange(pos + 1, pos + 3));
            lemma_pow256_values();
        }
        Ok((v as usize, 3))
    } else if marker == 0xfe {
        if data.len() - pos < 5 {
            return Err(GovernanceError::InvalidInput(string_of("Invalid compact size")));
        }
        let v = read_le(data, pos + 1, pos + 5);
        proof {
            lemma_le_value_bound(data@.subrange(pos + 1, pos + 5));
            lemma_pow256_values();
        }
        Ok((v as usize, 5))
    } else {
        if data.len() - pos < 9 {
            return Err(GovernanceError::InvalidInput(string_of("Invalid compact size")));
        }
        let v = read_le(data, pos + 1, pos + 9);
        Ok((v as usize, 9))
    }
}

/// Read a CompactSize at the start of `data`: the value and the number of
/// bytes it took.
pub fn read_compact_size(data: &[u8]) -> (r: GovernanceResult<(usize, usize)>)
    ensures
        read_compact_spec(data@, 0) matches Ok((v, w)) ==> r matches Ok((rv, rw)) && rv == v
            && rw == w,
        read_compact_spec(data@, 0) matches Err(m) ==> r matches Err(
            GovernanceError::InvalidInput(e),
        ) && e@ == m,
{
    read_compact_size_at(data, 0)
}

/// A piece of a piece of `d` is a piece of `d`.
pub proof fn lemma_subrange_of(d: Seq<u8>, pos: int, c: Seq<u8>, a: int, b: int)
    requires
        0 <= pos,
        pos + c.len() <= d.len(),
        d.subrange(pos, pos + c.len()) == c,
        0 <= a <= b <= c.len(),
    ensures
        d.subrange(pos + a, pos + b) == c.subrange(a, b),
{
    assert forall|i: int| 0 <= i < b - a implies #[trigger] d.subrange(pos + a, pos + b)[i]
        == c.subrange(a, b)[i] by {
        assert(d.subrange(pos, pos + c.len())[a + i] == c[a + i]);
    }
    assert(d.subrange(pos + a, pos + b) =~= c.subrange(a, b));
}

/// A CompactSize encoding reads back as the number it was written from.
pub proof fn lemma_compact_roundtrip(d: Seq<u8>, pos: int, n: nat)
    requires
        n <= usize::MAX,
        0 <= pos,
        pos + compact_size(n).len() <= d.len(),
        d.subrange(pos, pos + compact_size(n).len()) == compact_size(n),
    ensures
        read_compact_spec(d, pos) == Ok::<(nat, nat), Seq<char>>((n, compact_size(n).len())),
        compact_size(n).len() >= 1,
        compact_size(n)[0] == 0 <==> n == 0,
        compact_size(n)[0] != 0xff || n > 0xffff_ffff,
{
    let c = compact_size(n);
    assert(d[pos] == c[0]);
    if n < 0xfd {
    } else if n <= 0xffff {
        lemma_pow256_values();
        lemma_le_roundtrip(n, 2);
        lemma_subrange_of(d, pos, c, 1, 3);
        assert(c.subrange(1, 3) =~= le_bytes(n, 2));
    } else if n <= 0xffff_ffff {
        lemma_pow256_values();
        lemma_le_roundtrip(n, 4);
        lemma_subrange_of(d, pos, c, 1, 5);
        assert(c.subrange(1, 5) =~= le_bytes(n, 4));
    } else {
        lemma_pow256_values();
        lemma_le_roundtrip(n, 8);
        lemma_subrange_of(d, pos, c, 1, 9);
        assert(c.subrange(1, 9) =~= le_bytes(n, 8));
    }
}


/// Append the bytes of `bytes`.
pub(crate) fn append_bytes(out: &mut Vec<u8>, bytes: &[u8])
    ensures
        final(out)@ == old(out)@ + bytes@,
{
    let ghost start = out@;
    let mut i: usize = 0;
    while i < bytes.len()
        invariant
            i <= bytes@.len(),
            out@ == start + bytes@.take(i as int),
        decreases bytes@.len() - i,
    {
        out.push(bytes[i]);
        i = i + 1;
        proof {
            assert(bytes@.take(i as int) =~= bytes@.take(i - 1).push(bytes@[i - 1]));
        }
    }
    proof {
        assert(bytes@.take(i as int) =~= bytes@);
    }
}

/// A copy of `data[from..to]`.
fn copy_range(data: &[u8], from: usize, to: usize) -> (r: Vec<u8>)
    requires
        from <= to <= data@.len(),
    ensures
        r@ == data@.subrange(from as int, to as int),
{
    let mut r: Vec<u8> = Vec::new();
    let mut i: usize = from;
    while i < to
        invariant
            from <= i <= to,
            to <= data@.len(),
            r@ == data@.subrange(from as int, i as int),
        decreases to - i,
    {
        r.push(data[i]);
        i = i + 1;
        proof {
            assert(data@.subrange(from as int, i as int) =~= data@.subrange(from as int, i - 1).push(
                data@[i - 1],
            ));
        }
    }
    r
}

/// Write a map: each entry as `<key len><key><value len><value>`, in the
/// map's order, then the `0x00` end marker.
pub fn serialize_map(result: &mut Vec<u8>, map: &PsbtMap) -> (r: GovernanceResult<()>)
    ensures
        final(result)@ == old(result)@ + ser_map(map@),
        r is Ok,
{
    let entries = map.entries();
    let ghost start = result@;
    let ghost es = map@;
    let mut i: usize = 0;
    while i < entries.len()
        invariant
            i <= entries@.len(),
            entries_view(entries@) == es,
            result@ == start + ser_entries(es.take(i as int)),
        decreases entries@.len() - i,
    {
        let key = &entries[i].0;
        let value = &entries[i].1;
        proof {
            assert(es[i as int] == (key@, value@));
        }
        let _ = write_compact_size(result, key.len());
        append_bytes(result, key.as_slice());
        let _ = write_compact_size(result, value.len());
        append_bytes(result, value.as_slice());
        proof {
            let t = es.take(i + 1);
            assert(t.drop_last() =~= es.take(i as int));
            assert(t.last() == es[i as int]);
            assert(result@ =~= start + ser_entries(t));
        }
        i = i + 1;
    }
    proof {
        assert(es.take(i as int) =~= es);
    }
    result.push(0);
    proof {
        assert(result@ =~= start + ser_map(es));
    }
    Ok(())
}

/// Read a map starting at position `start` of `data`: the map and the
/// position after it.
pub fn deserialize_map_at(data: &[u8], start: usize) -> (r: GovernanceResult<(PsbtMap, usize)>)
    ensures
        parse_map_at(data@, start as nat, Seq::empty()) matches Ok((es, end)) ==> r matches Ok(
            (m, e),
        ) && m@ == es && e == end,
        parse_map_at(data@, start as nat, Seq::empty()) matches Err(msg) ==> r matches Err(
            GovernanceError::InvalidInput(em),
        ) && em@ == msg,
{
    let mut map = PsbtMap::new();
    if start >= data.len() {
        return Ok((map, start));
    }
    let mut offset = start;
    loop
        invariant
            start <= offset <= data@.len(),
            parse_map_at(data@, start as nat, Seq::empty()) == parse_map_at(
                data@,
                offset as nat,
                map@,
            ),
        decreases data@.len() - offset,
    {
        if offset >= data.len() {
            return Ok((map, offset));
        }
        if data[offset] == 0 {
            return Ok((map, offset + 1));
        }
        let (key_len, w) = match read_compact_size_at(data, offset) {
            Ok(x) => x,
            Err(e) => {
                return Err(e);
            },
        };
        if key_len > MAX_PSBT_KEY_LEN {
            let msg = concat_str("PSBT key too long: ", decimal_string(key_len as u64).as_str());
            let msg = concat_str(msg.as_str(), " bytes (max: 520)");
            return Err(GovernanceError::InvalidInput(msg));
        }
        let p1 = offset + w;
        if key_len > data.len() - p1 {
            return Err(GovernanceError::InvalidInput(string_of("Invalid key length")));
        }
        let key = copy_range(data, p1, p1 + key_len);
        let p2 = p1 + key_len;
        let (value_len, w2) = match read_compact_size_at(data, p2) {
            Ok(x) => x,
            Err(e) => {
                return Err(e);
            },
        };
        if value_len > MAX_PSBT_VALUE_LEN {
            let msg = concat_str("PSBT value too long: ", decimal_string(value_len as u64).as_str());
            let msg = concat_str(msg.as_str(), " bytes (max: 520000)");
            return Err(GovernanceError::InvalidInput(msg));
        }
        let p3 = p2 + w2;
        if value_len > data.len() - p3 {
            return Err(GovernanceError::InvalidInput(string_of("Invalid value length")));
        }
        let value = copy_range(data, p3, p3 + value_len);
        map.insert(key, value);
        offset = p3 + value_len;
    }
}

/// Read a map at the start of `data`: the map and the number of bytes it
/// took.
pub fn deserialize_map(data: &[u8]) -> (r: GovernanceResult<(PsbtMap, usize)>)
    ensures
        parse_map_at(data@, 0, Seq::empty()) matches Ok((es, end)) ==> r matches Ok((m, e))
            && m@ == es && e == end,
        parse_map_at(data@, 0, Seq::empty()) matches Err(msg) ==> r matches Err(
            GovernanceError::InvalidInput(em),
        ) && em@ == msg,
{
    deserialize_map_at(data, 0)
}

/// Every key is 1 to 520 bytes and every value at most 520000 bytes: the
/// entries that the map format can carry.
pub open spec fn entries_wf(es: Entries) -> bool {
    forall|i: int|
        0 <= i < es.len() ==> 1 <= (#[trigger] es[i]).0.len() <= 520 && es[i].1.len() <= 520000
}

/// The bytes of a nonempty list of entries: the first entry, then the rest.
pub proof fn lemma_ser_entries_front(es: Entries)
    requires
        es.len() > 0,
    ensures
        ser_entries(es) == entry_bytes(es[0]) + ser_entries(es.drop_first()),
    decreases es.len(),
{
    if es.len() == 1 {
        assert(es.drop_last() =~= Seq::<(Seq<u8>, Seq<u8>)>::empty());
        assert(es.drop_first() =~= Seq::<(Seq<u8>, Seq<u8>)>::empty());
        assert(ser_entries(es) =~= entry_bytes(es[0]) + ser_entries(es.drop_first()));
    } else {
        lemma_ser_entries_front(es.drop_last());
        assert(es.drop_last().drop_first() =~= es.drop_first().drop_last());
        assert(es.drop_first().last() == es.last());
        assert(es.drop_last()[0] == es[0]);
        assert(ser_entries(es) =~= entry_bytes(es[0]) + ser_entries(es.drop_first()));
    }
}

/// A serialized map reads back as the same entries, ending just after its
/// end marker.
pub proof fn lemma_map_roundtrip(d: Seq<u8>, pos: nat, acc: Entries, es: Entries)
    requires
        pos + ser_map(es).len() <= d.len(),
        d.subrange(pos as int, (pos + ser_map(es).len()) as int) == ser_map(es),
        entries_wf(es),
        keys_distinct(acc + es),
    ensures
        parse_map_at(d, pos, acc) == Ok::<(Entries, nat), Seq<char>>(
            (acc + es, pos + ser_map(es).len()),
        ),
    decreases es.len(),
{
    let sm = ser_map(es);
    if es.len() == 0 {
        assert(sm =~= seq![0u8]);
        assert(d[pos as int] == sm[0]);
        assert(acc + es =~= acc);
    } else {
        let e = es[0];
        let rest = es.drop_first();
        lemma_ser_entries_front(es);
        let eb = entry_bytes(e);
        assert(sm =~= eb + ser_map(rest));
        let ck = compact_size(e.0.len());
        let cv = compact_size(e.1.len());
        let klen = e.0.len();
        let vlen = e.1.len();
        assert(1 <= klen <= 520 && vlen <= 520000);
        let ckl: int = ck.len() as int;
        let kl: int = klen as int;
        let cvl: int = cv.len() as int;
        let ebl: int = eb.len() as int;
        let p: int = pos as int;
        // key length
        assert(sm.subrange(0, ckl) =~= ck);
        lemma_subrange_of(d, p, sm, 0, ckl);
        lemma_compact_roundtrip(d, p, klen);
        assert(d[p] == sm[0]);
        // key
        assert(sm.subrange(ckl, ckl + kl) =~= e.0);
        lemma_subrange_of(d, p, sm, ckl, ckl + kl);
        // value length
        assert(sm.subrange(ckl + kl, ckl + kl + cvl) =~= cv);
        lemma_subrange_of(d, p, sm, ckl + kl, ckl + kl + cvl);
        lemma_compact_roundtrip(d, p + ckl + kl, vlen);
        // value
        assert(sm.subrange(ckl + kl + cvl, ebl) =~= e.1);
        lemma_subrange_of(d, p, sm, ckl + kl + cvl, ebl);
        // insertion of a fresh key appends it
        lemma_key_index(acc, e.0);
        if key_index(acc, e.0) >= 0 {
            let j = key_index(acc, e.0);
            assert((acc + es)[j].0 == e.0);
            assert((acc + es)[acc.len() as int] == e);
        }
        assert(entries_insert(acc, e.0, e.1) == acc.push(e));
        // the rest
        assert(acc.push(e) + rest =~= acc + es);
        assert(sm.subrange(ebl, sm.len() as int) =~= ser_map(rest));
        lemma_subrange_of(d, p, sm, ebl, sm.len() as int);
        assert(entries_wf(rest)) by {
            assert forall|i: int| 0 <= i < rest.len() implies #[trigger] rest[i] == es[i + 1] by {}
        }
        lemma_map_roundtrip(d, pos + eb.len(), acc.push(e), rest);
    }
}

} // verus!
