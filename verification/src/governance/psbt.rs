//! BIP174 Partially Signed Bitcoin Transactions: a global map, one map per
//! input and one per output, written as `psbt 0xff <global> 0xff` followed
//! by each input map and each output map, every one closed by `0xff`.

use vstd::prelude::*;

use crate::governance::error::{GovernanceError, GovernanceResult};
use crate::governance::psbt_map::{
    copy_bytes, entries_get, entries_insert, key_index, keys_distinct, lemma_key_index, Entries,
    PsbtMap,
};
use crate::governance::psbt_wire::{
    deserialize_map_at, entries_wf, lemma_map_roundtrip, lemma_parse_map_progress,
    lemma_subrange_of, lemma_ser_entries_front, compact_size, entry_bytes, parse_map_at,
    ser_map, serialize_map,
};
use crate::text::string_of;

verus! {

/// PSBT magic bytes: "psbt".
pub const PSBT_MAGIC: [u8; 4] = [0x70, 0x73, 0x62, 0x74];

/// PSBT separator.
pub const PSBT_SEPARATOR: u8 = 0xff;

/// The magic bytes as a sequence.
pub open spec fn psbt_magic() -> Seq<u8> {
    seq![0x70u8, 0x73u8, 0x62u8, 0x74u8]
}

/// Global map key types.
#[derive(Debug, Clone, Copy, PartialEq, Eq, Structural)]
pub enum PsbtGlobalKey {
    /// Unsigned transaction, 0x00
    UnsignedTx,
    /// Extended public key, 0x01
    Xpub,
    /// Version number, 0xfb
    Version,
    /// Proprietary data, 0xfc
    Proprietary,
}

impl PsbtGlobalKey {
    /// The key type byte.
    pub fn to_byte(self) -> (r: u8)
        ensures
            r == match self {
                PsbtGlobalKey::UnsignedTx => 0x00u8,
                PsbtGlobalKey::Xpub => 0x01u8,
                PsbtGlobalKey::Version => 0xfbu8,
                PsbtGlobalKey::Proprietary => 0xfcu8,
            },
    {
        match self {
            PsbtGlobalKey::UnsignedTx => 0x00,
            PsbtGlobalKey::Xpub => 0x01,
            PsbtGlobalKey::Version => 0xfb,
            PsbtGlobalKey::Proprietary => 0xfc,
        }
    }
}

/// Input map key types.
#[derive(Debug, Clone, Copy, PartialEq, Eq, Structural)]
pub enum PsbtInputKey {
    /// Non-witness UTXO, 0x00
    NonWitnessUtxo,
    /// Witness UTXO, 0x01
    WitnessUtxo,
    /// Partial signature, 0x02
    PartialSig,
    /// Sighash type, 0x03
    SighashType,
    /// Redeem script, 0x04
    RedeemScript,
    /// Witness script, 0x05
    WitnessScript,
    /// BIP32 derivation path, 0x06
    Bip32Derivation,
    /// Final script sig, 0x07
    FinalScriptSig,
    /// Final script witness, 0x08
    FinalScriptWitness,
    /// Proprietary data, 0xfc
    Proprietary,
}

impl PsbtInputKey {
    /// The key type byte.
    pub fn to_byte(self) -> (r: u8)
        ensures
            r == match self {
                PsbtInputKey::NonWitnessUtxo => 0x00u8,
                PsbtInputKey::WitnessUtxo => 0x01u8,
                PsbtInputKey::PartialSig => 0x02u8,
                PsbtInputKey::SighashType => 0x03u8,
                PsbtInputKey::RedeemScript => 0x04u8,
                PsbtInputKey::WitnessScript => 0x05u8,
                PsbtInputKey::Bip32Derivation => 0x06u8,
                PsbtInputKey::FinalScriptSig => 0x07u8,
                PsbtInputKey::FinalScriptWitness => 0x08u8,
                PsbtInputKey::Proprietary => 0xfcu8,
            },
    {
        match self {
            PsbtInputKey::NonWitnessUtxo => 0x00,
            PsbtInputKey::WitnessUtxo => 0x01,
            PsbtInputKey::PartialSig => 0x02,
            PsbtInputKey::SighashType => 0x03,
            PsbtInputKey::RedeemScript => 0x04,
            PsbtInputKey::WitnessScript => 0x05,
            PsbtInputKey::Bip32Derivation => 0x06,
            PsbtInputKey::FinalScriptSig => 0x07,
            PsbtInputKey::FinalScriptWitness => 0x08,
            PsbtInputKey::Proprietary => 0xfc,
        }
    }
}

/// Output map key types.
#[derive(Debug, Clone, Copy, PartialEq, Eq, Structural)]
pub enum PsbtOutputKey {
    /// Redeem script, 0x00
    RedeemScript,
    /// Witness script, 0x01
    WitnessScript,
    /// BIP32 derivation path, 0x02
    Bip32Derivation,
    /// Proprietary data, 0xfc
    Proprietary,
}

impl PsbtOutputKey {
    /// The key type byte.
    pub fn to_byte(self) -> (r: u8)
        ensures
            r == match self {
                PsbtOutputKey::RedeemScript => 0x00u8,
                PsbtOutputKey::WitnessScript => 0x01u8,
                PsbtOutputKey::Bip32Derivation => 0x02u8,
                PsbtOutputKey::Proprietary => 0xfcu8,
            },
    {
        match self {
            PsbtOutputKey::RedeemScript => 0x00,
            PsbtOutputKey::WitnessScript => 0x01,
            PsbtOutputKey::Bip32Derivation => 0x02,
            PsbtOutputKey::Proprietary => 0xfc,
        }
    }
}

/// A BIP32 derivation path entry.
#[derive(Debug, Clone, PartialEq, Eq)]
pub struct Bip32Derivation {
    /// Public key (33 bytes compressed or 65 uncompressed)
    pub pubkey: Vec<u8>,
    /// Derivation path
    pub path: Vec<u32>,
    /// Master key fingerprint
    pub master_fingerprint: [u8; 4],
}

/// A partial signature entry.
#[derive(Debug, Clone, PartialEq, Eq)]
pub struct PartialSignature {
    /// Public key
    pub pubkey: Vec<u8>,
    /// Signature
    pub signature: Vec<u8>,
}

/// Sighash types.
#[derive(Debug, Clone, Copy, PartialEq, Eq, Structural)]
pub enum SighashType {
    /// SIGHASH_ALL, 0x01
    All,
    /// SIGHASH_NONE, 0x02
    SighashNone,
    /// SIGHASH_SINGLE, 0x03
    Single,
    /// SIGHASH_ALL | SIGHASH_ANYONECANPAY, 0x81
    AllAnyoneCanPay,
    /// SIGHASH_NONE | SIGHASH_ANYONECANPAY, 0x82
    NoneAnyoneCanPay,
    /// SIGHASH_SINGLE | SIGHASH_ANYONECANPAY, 0x83
    SingleAnyoneCanPay,
}

/// The byte of a sighash type.
pub open spec fn sighash_byte(t: SighashType) -> u8 {
    match t {
        SighashType::All => 0x01,
        SighashType::SighashNone => 0x02,
        SighashType::Single => 0x03,
        SighashType::AllAnyoneCanPay => 0x81,
        SighashType::NoneAnyoneCanPay => 0x82,
        SighashType::SingleAnyoneCanPay => 0x83,
    }
}

impl SighashType {
    /// The sighash type written as `byte`, if any.
    pub fn from_byte(byte: u8) -> (r: Option<Self>)
        ensures
            r matches Some(t) ==> sighash_byte(t) == byte,
            r is None ==> forall|t: SighashType| sighash_byte(t) != byte,
    {
        match byte {
            0x01 => Some(SighashType::All),
            0x02 => Some(SighashType::SighashNone),
            0x03 => Some(SighashType::Single),
            0x81 => Some(SighashType::AllAnyoneCanPay),
            0x82 => Some(SighashType::NoneAnyoneCanPay),
            0x83 => Some(SighashType::SingleAnyoneCanPay),
            _ => None,
        }
    }

    /// The byte of the sighash type.
    pub fn to_byte(self) -> (r: u8)
        ensures
            r == sighash_byte(self),
    {
        match self {
            SighashType::All => 0x01,
            SighashType::SighashNone => 0x02,
            SighashType::Single => 0x03,
            SighashType::AllAnyoneCanPay => 0x81,
            SighashType::NoneAnyoneCanPay => 0x82,
            SighashType::SingleAnyoneCanPay => 0x83,
        }
    }
}

/// The entries of each map.
pub open spec fn maps_view(v: Seq<PsbtMap>) -> Seq<Entries> {
    v.map_values(|m: PsbtMap| m@)
}

/// The maps after storing `value` under `key` in map `index`, after first
/// adding empty maps until there is one at `index`.
pub open spec fn maps_insert(ms: Seq<Entries>, index: int, key: Seq<u8>, value: Seq<u8>) -> Seq<
    Entries,
> {
    let padded = if index < ms.len() {
        ms
    } else {
        ms + Seq::new((index + 1 - ms.len()) as nat, |i: int| Seq::<(Seq<u8>, Seq<u8>)>::empty())
    };
    padded.update(index, entries_insert(padded[index], key, value))
}

/// The big-endian bytes of a `u32`.
pub open spec fn u32_be(x: u32) -> Seq<u8> {
    seq![
        (x / 0x1000000) as u8,
        ((x / 0x10000) % 256) as u8,
        ((x / 0x100) % 256) as u8,
        (x % 256) as u8,
    ]
}

/// The big-endian bytes of each index of a derivation path.
pub open spec fn path_bytes(p: Seq<u32>) -> Seq<u8>
    decreases p.len(),
{
    if p.len() == 0 {
        Seq::empty()
    } else {
        path_bytes(p.drop_last()) + u32_be(p.last())
    }
}

/// The bytes of each map, every one closed by the separator.
pub open spec fn ser_maps(ms: Seq<Entries>) -> Seq<u8>
    decreases ms.len(),
{
    if ms.len() == 0 {
        Seq::empty()
    } else {
        ser_maps(ms.drop_last()) + ser_map(ms.last()).push(0xff)
    }
}

/// Whether the input maps are marked off in the bytes: where there is
/// not exactly one input map and there are maps at all. The plain layout
/// reads its first map as the one input map, so only these PSBTs need the
/// mark.
pub open spec fn marked_layout(n_in: nat, n_out: nat) -> bool {
    n_in != 1 && n_in + n_out > 0
}

/// The bytes of a PSBT: magic, separator, the global map, separator, then
/// each input map and each output map closed by a separator. Where the
/// layout is marked, a separator stands before the input maps and another
/// after them.
pub open spec fn ser_psbt(g: Entries, ins: Seq<Entries>, outs: Seq<Entries>) -> Seq<u8> {
    let head = psbt_magic() + seq![0xffu8] + ser_map(g) + seq![0xffu8];
    if marked_layout(ins.len(), outs.len()) {
        head + seq![0xffu8] + ser_maps(ins) + seq![0xffu8] + ser_maps(outs)
    } else {
        head + ser_maps(ins) + ser_maps(outs)
    }
}

/// The version recorded in a global map: the first byte of its version
/// entry, or 0.
pub open spec fn version_of(g: Entries) -> u8 {
    match entries_get(g, seq![0xfbu8]) {
        Some(v) => if v.len() > 0 {
            v[0]
        } else {
            0
        },
        None => 0,
    }
}

/// Reading the input maps from position `pos`: maps are read while the
/// next byte is not the separator; a separator right after a map ends the
/// inputs.
pub open spec fn parse_inputs(d: Seq<u8>, pos: nat, acc: Seq<Entries>) -> Result<
    (Seq<Entries>, nat),
    Seq<char>,
>
    decreases d.len() - pos,
{
    if pos < d.len() && d[pos as int] != 0xff {
        match parse_map_at(d, pos, Seq::empty()) {
            Err(m) => Err(m),
            Ok((m, q)) => {
                proof {
                    lemma_parse_map_progress(d, pos, Seq::empty());
                }
                if q < d.len() && d[q as int] == 0xff {
                    Ok((acc.push(m), q + 1))
                } else {
                    parse_inputs(d, q, acc.push(m))
                }
            },
        }
    } else {
        Ok((acc, pos))
    }
}

/// Reading the input maps of the marked layout from position `pos`: a
/// separator where a map would start ends the inputs (and is skipped);
/// otherwise a map is read, and the separator after it skipped. The end of
/// the bytes ends them too.
pub open spec fn parse_marked_inputs(d: Seq<u8>, pos: nat, acc: Seq<Entries>) -> Result<
    (Seq<Entries>, nat),
    Seq<char>,
>
    decreases d.len() - pos,
{
    if pos >= d.len() {
        Ok((acc, pos))
    } else if d[pos as int] == 0xff {
        Ok((acc, pos + 1))
    } else {
        match parse_map_at(d, pos, Seq::empty()) {
            Err(m) => Err(m),
            Ok((m, q)) => {
                proof {
                    lemma_parse_map_progress(d, pos, Seq::empty());
                }
                if q < d.len() && d[q as int] == 0xff {
                    parse_marked_inputs(d, q + 1, acc.push(m))
                } else {
                    parse_marked_inputs(d, q, acc.push(m))
                }
            },
        }
    }
}

/// Reading the output maps from position `pos` to the end: a separator
/// after a map is skipped; a separator as the last byte ends the outputs.
pub open spec fn parse_outputs(d: Seq<u8>, pos: nat, acc: Seq<Entries>) -> Result<
    Seq<Entries>,
    Seq<char>,
>
    decreases d.len() - pos,
{
    if pos < d.len() {
        if d[pos as int] == 0xff && pos + 1 >= d.len() {
            Ok(acc)
        } else {
            match parse_map_at(d, pos, Seq::empty()) {
                Err(m) => Err(m),
                Ok((m, q)) => {
                    proof {
                        lemma_parse_map_progress(d, pos, Seq::empty());
                    }
                    let q2 = if q < d.len() && d[q as int] == 0xff {
                        q + 1
                    } else {
                        q
                    };
                    parse_outputs(d, q2, acc.push(m))
                },
            }
        }
    } else {
        Ok(acc)
    }
}

/// Reading a PSBT: the global map, the input maps, the output maps and the
/// version, or the message of the error. A separator right after the one
/// that closes the global map marks the input maps off: they run to the
/// next separator where a map would start. Otherwise input maps are read
/// until a separator follows one. The rest are output maps.
pub open spec fn parse_psbt(d: Seq<u8>) -> Result<
    (Entries, Seq<Entries>, Seq<Entries>, u8),
    Seq<char>,
> {
    if d.len() < 5 || d.take(4) != psbt_magic() || d[4] != 0xff {
        Err("Invalid PSBT magic bytes"@)
    } else {
        match parse_map_at(d, 5, Seq::empty()) {
            Err(m) => Err(m),
            Ok((g, p)) => if p >= d.len() || d[p as int] != 0xff {
                Err("Missing separator after global map"@)
            } else {
                let ins_read = if p + 1 < d.len() && d[p + 1 as int] == 0xff {
                    parse_marked_inputs(d, p + 2, Seq::empty())
                } else {
                    parse_inputs(d, p + 1, Seq::empty())
                };
                match ins_read {
                    Err(m) => Err(m),
                    Ok((ins, p2)) => match parse_outputs(d, p2, Seq::empty()) {
                        Err(m) => Err(m),
                        Ok(outs) => Ok((g, ins, outs, version_of(g))),
                    },
                }
            },
        }
    }
}

/// Whether map `m` holds a final script sig or a final script witness.
pub open spec fn input_finalized(m: Entries) -> bool {
    key_index(m, seq![0x07u8]) >= 0 || key_index(m, seq![0x08u8]) >= 0
}

/// A Partially Signed Bitcoin Transaction.
#[derive(Debug, Clone, PartialEq, Eq)]
pub struct PartiallySignedTransaction {
    /// Global map (unsigned transaction, xpubs, etc.)
    pub global: PsbtMap,
    /// Input maps (one per input)
    pub inputs: Vec<PsbtMap>,
    /// Output maps (one per output)
    pub outputs: Vec<PsbtMap>,
    /// Version (default: 0)
    pub version: u8,
}

/// Read input maps from `start` on: maps are read while the next byte is
/// not the separator, and a separator right after a map ends the inputs.
fn read_input_maps(data: &[u8], start: usize) -> (r: GovernanceResult<(Vec<PsbtMap>, usize)>)
    requires
        start <= data@.len(),
    ensures
        parse_inputs(data@, start as nat, Seq::empty()) matches Ok((ins, p)) ==> (r matches Ok(
            (v, q),
        ) && maps_view(v@) == ins && q == p),
        parse_inputs(data@, start as nat, Seq::empty()) matches Err(m) ==> (r matches Err(
            GovernanceError::InvalidInput(e),
        ) && e@ == m),
        r matches Ok((_, q)) ==> q <= data@.len(),
{
    let ghost d = data@;
    let mut inputs: Vec<PsbtMap> = Vec::new();
    let mut offset = start;
    proof {
        assert(maps_view(inputs@) =~= Seq::<Entries>::empty());
    }
    while offset < data.len() && data[offset] != PSBT_SEPARATOR
        invariant
            offset <= d.len(),
            d == data@,
            parse_inputs(d, start as nat, Seq::empty()) == parse_inputs(
                d,
                offset as nat,
                maps_view(inputs@),
            ),
        decreases d.len() - offset,
    {
        let (m, q) = match deserialize_map_at(data, offset) {
            Ok(x) => x,
            Err(e) => {
                return Err(e);
            },
        };
        proof {
            lemma_parse_map_progress(d, offset as nat, Seq::empty());
        }
        let ghost before = inputs@;
        inputs.push(m);
        proof {
            assert(maps_view(inputs@) =~= maps_view(before).push(m@));
        }
        if q < data.len() && data[q] == PSBT_SEPARATOR {
            return Ok((inputs, q + 1));
        }
        offset = q;
    }
    Ok((inputs, offset))
}

/// Read the input maps of the marked layout from `start` on: a separator
/// where a map would start ends the inputs; the separator after each map is
/// skipped.
fn read_marked_input_maps(data: &[u8], start: usize) -> (r: GovernanceResult<(Vec<PsbtMap>, usize)>)
    requires
        start <= data@.len(),
    ensures
        parse_marked_inputs(data@, start as nat, Seq::empty()) matches Ok((ins, p)) ==> (r matches Ok(
            (v, q),
        ) && maps_view(v@) == ins && q == p),
        parse_marked_inputs(data@, start as nat, Seq::empty()) matches Err(m) ==> (r matches Err(
            GovernanceError::InvalidInput(e),
        ) && e@ == m),
        r matches Ok((_, q)) ==> q <= data@.len(),
{
    let ghost d = data@;
    let mut inputs: Vec<PsbtMap> = Vec::new();
    let mut offset = start;
    proof {
        assert(maps_view(inputs@) =~= Seq::<Entries>::empty());
    }
    while offset < data.len()
        invariant
            offset <= d.len(),
            d == data@,
            parse_marked_inputs(d, start as nat, Seq::empty()) == parse_marked_inputs(
                d,
                offset as nat,
                maps_view(inputs@),
            ),
        decreases d.len() - offset,
    {
        if data[offset] == PSBT_SEPARATOR {
            return Ok((inputs, offset + 1));
        }
        let (m, q) = match deserialize_map_at(data, offset) {
            Ok(x) => x,
            Err(e) => {
                return Err(e);
            },
        };
        proof {
            lemma_parse_map_progress(d, offset as nat, Seq::empty());
        }
        let ghost before = inputs@;
        inputs.push(m);
        proof {
            assert(maps_view(inputs@) =~= maps_view(before).push(m@));
        }
        if q < data.len() && data[q] == PSBT_SEPARATOR {
            offset = q + 1;
        } else {
            offset = q;
        }
    }
    Ok((inputs, offset))
}

/// Read output maps from `start` to the end: a separator after a map is
/// skipped, and a separator as the last byte ends the outputs.
fn read_output_maps(data: &[u8], start: usize) -> (r: GovernanceResult<Vec<PsbtMap>>)
    requires
        start <= data@.len(),
    ensures
        parse_outputs(data@, start as nat, Seq::empty()) matches Ok(outs) ==> (r matches Ok(v)
            && maps_view(v@) == outs),
        parse_outputs(data@, start as nat, Seq::empty()) matches Err(m) ==> (r matches Err(
            GovernanceError::InvalidInput(e),
        ) && e@ == m),
{
    let ghost d = data@;
    let mut outputs: Vec<PsbtMap> = Vec::new();
    let mut offset = start;
    proof {
        assert(maps_view(outputs@) =~= Seq::<Entries>::empty());
    }
    while offset < data.len()
        invariant
            offset <= d.len(),
            d == data@,
            parse_outputs(d, start as nat, Seq::empty()) == parse_outputs(
                d,
                offset as nat,
                maps_view(outputs@),
            ),
        decreases d.len() - offset,
    {
        if data[offset] == PSBT_SEPARATOR && offset + 1 >= data.len() {
            return Ok(outputs);
        }
        let (m, q) = match deserialize_map_at(data, offset) {
            Ok(x) => x,
            Err(e) => {
                return Err(e);
            },
        };
        proof {
            lemma_parse_map_progress(d, offset as nat, Seq::empty());
        }
        let ghost before = outputs@;
        outputs.push(m);
        proof {
            assert(maps_view(outputs@) =~= maps_view(before).push(m@));
        }
        if q < data.len() && data[q] == PSBT_SEPARATOR {
            offset = q + 1;
        } else {
            offset = q;
        }
    }
    Ok(outputs)
}

/// Push empty maps until map `index` exists, then store `value` under `key`
/// in it.
fn insert_at(maps: &mut Vec<PsbtMap>, index: usize, key: Vec<u8>, value: Vec<u8>)
    requires
        index < usize::MAX,
    ensures
        maps_view(final(maps)@) == maps_insert(maps_view(old(maps)@), index as int, key@, value@),
{
    let ghost old_ms = maps_view(maps@);
    if maps.len() <= index {
        proof {
            assert(maps_view(maps@) =~= old_ms + Seq::new(
                0,
                |i: int| Seq::<(Seq<u8>, Seq<u8>)>::empty(),
            ));
        }
        while maps.len() <= index
            invariant
                index < usize::MAX,
                maps@.len() <= index + 1,
                old_ms.len() <= maps@.len(),
                maps_view(maps@) == old_ms + Seq::new(
                    (maps@.len() - old_ms.len()) as nat,
                    |i: int| Seq::<(Seq<u8>, Seq<u8>)>::empty(),
                ),
            decreases index + 1 - maps@.len(),
        {
            let ghost bv = maps@;
            let fresh = PsbtMap::new();
            maps.push(fresh);
            proof {
                assert(maps@ == bv.push(fresh));
                assert(maps_view(maps@) =~= maps_view(bv).push(fresh@));
                assert(maps_view(maps@) =~= old_ms + Seq::new(
                    (maps@.len() - old_ms.len()) as nat,
                    |i: int| Seq::<(Seq<u8>, Seq<u8>)>::empty(),
                ));
            }
        }
    }
    let ghost padded = maps_view(maps@);
    proof {
        if index < old_ms.len() {
            assert(padded =~= old_ms);
        } else {
            assert(padded =~= old_ms + Seq::new(
                (index + 1 - old_ms.len()) as nat,
                |i: int| Seq::<(Seq<u8>, Seq<u8>)>::empty(),
            ));
        }
    }
    let mut m = maps.remove(index);
    m.insert(key, value);
    maps.insert(index, m);
    proof {
        assert(maps_view(maps@) =~= padded.update(index as int, entries_insert(padded[index as int], key@, value@)));
    }
}

/// `prefix` followed by the bytes of `tail`.
fn prefixed(prefix: u8, tail: &[u8]) -> (r: Vec<u8>)
    ensures
        r@ == seq![prefix] + tail@,
{
    let mut r: Vec<u8> = Vec::new();
    r.push(prefix);
    let mut i: usize = 0;
    while i < tail.len()
        invariant
            i <= tail@.len(),
            r@ == seq![prefix] + tail@.take(i as int),
        decreases tail@.len() - i,
    {
        r.push(tail[i]);
        i = i + 1;
        proof {
            assert(tail@.take(i as int) =~= tail@.take(i - 1).push(tail@[i - 1]));
        }
    }
    proof {
        assert(tail@.take(i as int) =~= tail@);
    }
    r
}

impl PartiallySignedTransaction {
    /// A PSBT holding `unsigned_tx` and version 0 in its global map, with no
    /// input or output maps.
    pub fn new(unsigned_tx: &[u8]) -> (r: GovernanceResult<Self>)
        ensures
            r matches Ok(p) && p.global@ == seq![
                (seq![0x00u8], unsigned_tx@),
                (seq![0xfbu8], seq![0x00u8]),
            ] && p.inputs@.len() == 0 && p.outputs@.len() == 0 && p.version == 0,
    {
        let mut global = PsbtMap::new();
        let k0 = vec![PsbtGlobalKey::UnsignedTx.to_byte()];
        let k1 = vec![PsbtGlobalKey::Version.to_byte()];
        let v1 = vec![0x00u8];
        proof {
            assert(k0@ =~= seq![0x00u8]);
            assert(k1@ =~= seq![0xfbu8]);
            assert(v1@ =~= seq![0x00u8]);
            assert(k0@[0] != k1@[0]);
        }
        global.insert(k0, copy_bytes(unsigned_tx));
        global.insert(k1, v1);
        proof {
            reveal_with_fuel(key_index, 3);
            assert(global@ =~= seq![(seq![0x00u8], unsigned_tx@), (seq![0xfbu8], seq![0x00u8])]);
        }
        Ok(PartiallySignedTransaction { global, inputs: Vec::new(), outputs: Vec::new(), version: 0 })
    }

    /// Store `value` under `key` in input map `input_index`, adding empty
    /// input maps first until that one exists.
    pub fn add_input_data(&mut self, input_index: usize, key: Vec<u8>, value: Vec<u8>) -> (r:
        GovernanceResult<()>)
        requires
            input_index < usize::MAX,
        ensures
            r is Ok,
            maps_view(final(self).inputs@) == maps_insert(
                maps_view(old(self).inputs@),
                input_index as int,
                key@,
                value@,
            ),
            final(self).global@ == old(self).global@,
            maps_view(final(self).outputs@) == maps_view(old(self).outputs@),
            final(self).version == old(self).version,
    {
        insert_at(&mut self.inputs, input_index, key, value);
        Ok(())
    }

    /// Store `value` under `key` in output map `output_index`, adding empty
    /// output maps first until that one exists.
    pub fn add_output_data(&mut self, output_index: usize, key: Vec<u8>, value: Vec<u8>) -> (r:
        GovernanceResult<()>)
        requires
            output_index < usize::MAX,
        ensures
            r is Ok,
            maps_view(final(self).outputs@) == maps_insert(
                maps_view(old(self).outputs@),
                output_index as int,
                key@,
                value@,
            ),
            final(self).global@ == old(self).global@,
            maps_view(final(self).inputs@) == maps_view(old(self).inputs@),
            final(self).version == old(self).version,
    {
        insert_at(&mut self.outputs, output_index, key, value);
        Ok(())
    }

    /// Record a partial signature on an input: key `0x02 <pubkey>`, value
    /// `<signature length as a byte> <signature>`.
    pub fn add_partial_signature(&mut self, input_index: usize, pubkey: Vec<u8>, signature: Vec<
        u8,
    >) -> (r: GovernanceResult<()>)
        requires
            input_index < usize::MAX,
        ensures
            r is Ok,
            maps_view(final(self).inputs@) == maps_insert(
                maps_view(old(self).inputs@),
                input_index as int,
                seq![0x02u8] + pubkey@,
                seq![signature@.len() as u8] + signature@,
            ),
            final(self).global@ == old(self).global@,
            maps_view(final(self).outputs@) == maps_view(old(self).outputs@),
            final(self).version == old(self).version,
    {
        let key = prefixed(PsbtInputKey::PartialSig.to_byte(), pubkey.as_slice());
        let value = prefixed(signature.len() as u8, signature.as_slice());
        self.add_input_data(input_index, key, value)
    }

    /// Record a BIP32 derivation on an input: key `0x06 <pubkey>`, value
    /// `<fingerprint> <path length as a byte> <each index, big-endian>`.
    pub fn add_bip32_derivation(
        &mut self,
        input_index: usize,
        pubkey: Vec<u8>,
        derivation: Bip32Derivation,
    ) -> (r: GovernanceResult<()>)
        requires
            input_index < usize::MAX,
        ensures
            r is Ok,
            maps_view(final(self).inputs@) == maps_insert(
                maps_view(old(self).inputs@),
                input_index as int,
                seq![0x06u8] + pubkey@,
                derivation.master_fingerprint@ + seq![derivation.path@.len() as u8] + path_bytes(
                    derivation.path@,
                ),
            ),
            final(self).global@ == old(self).global@,
            maps_view(final(self).outputs@) == maps_view(old(self).outputs@),
            final(self).version == old(self).version,
    {
        let key = prefixed(PsbtInputKey::Bip32Derivation.to_byte(), pubkey.as_slice());
        let mut value: Vec<u8> = Vec::new();
        value.push(derivation.master_fingerprint[0]);
        value.push(derivation.master_fingerprint[1]);
        value.push(derivation.master_fingerprint[2]);
        value.push(derivation.master_fingerprint[3]);
        value.push(derivation.path.len() as u8);
        let ghost head = value@;
        proof {
            assert(head =~= derivation.master_fingerprint@ + seq![derivation.path@.len() as u8]);
        }
        let mut i: usize = 0;
        while i < derivation.path.len()
            invariant
                i <= derivation.path@.len(),
                value@ == head + path_bytes(derivation.path@.take(i as int)),
            decreases derivation.path@.len() - i,
        {
            let x = derivation.path[i];
            value.push((x / 0x1000000) as u8);
            value.push(((x / 0x10000) % 256) as u8);
            value.push(((x / 0x100) % 256) as u8);
            value.push((x % 256) as u8);
            proof {
                let t = derivation.path@.take(i + 1);
                assert(t.drop_last() =~= derivation.path@.take(i as int));
                assert(t.last() == x);
                assert(value@ =~= head + path_bytes(t));
            }
            i = i + 1;
        }
        proof {
            assert(derivation.path@.take(i as int) =~= derivation.path@);
        }
        self.add_input_data(input_index, key, value)
    }

    /// Record the sighash type of an input: key `0x03`, value its byte.
    pub fn set_sighash_type(&mut self, input_index: usize, sighash_type: SighashType) -> (r:
        GovernanceResult<()>)
        requires
            input_index < usize::MAX,
        ensures
            r is Ok,
            maps_view(final(self).inputs@) == maps_insert(
                maps_view(old(self).inputs@),
                input_index as int,
                seq![0x03u8],
                seq![sighash_byte(sighash_type)],
            ),
            final(self).global@ == old(self).global@,
            maps_view(final(self).outputs@) == maps_view(old(self).outputs@),
            final(self).version == old(self).version,
    {
        let key = vec![PsbtInputKey::SighashType.to_byte()];
        let value = vec![sighash_type.to_byte()];
        proof {
            assert(key@ =~= seq![0x03u8]);
            assert(value@ =~= seq![sighash_byte(sighash_type)]);
        }
        self.add_input_data(input_index, key, value)
    }

    /// Whether every input map holds a final script sig or a final script
    /// witness.
    pub fn is_finalized(&self) -> (r: bool)
        ensures
            r == forall|i: int|
                0 <= i < self.inputs@.len() ==> input_finalized(#[trigger] self.inputs@[i]@),
    {
        let sig_key: Vec<u8> = vec![PsbtInputKey::FinalScriptSig.to_byte()];
        let witness_key: Vec<u8> = vec![PsbtInputKey::FinalScriptWitness.to_byte()];
        proof {
            assert(sig_key@ =~= seq![0x07u8]);
            assert(witness_key@ =~= seq![0x08u8]);
        }
        let mut i: usize = 0;
        while i < self.inputs.len()
            invariant
                i <= self.inputs@.len(),
                sig_key@ == seq![0x07u8],
                witness_key@ == seq![0x08u8],
                forall|j: int| 0 <= j < i ==> input_finalized(#[trigger] self.inputs@[j]@),
            decreases self.inputs@.len() - i,
        {
            let has_final_sig = self.inputs[i].contains_key(sig_key.as_slice());
            let has_final_witness = self.inputs[i].contains_key(witness_key.as_slice());
            if !has_final_sig && !has_final_witness {
                return false;
            }
            i = i + 1;
        }
        true
    }

    /// The unsigned transaction of a finalized PSBT. Fails when some input
    /// is not finalized, or when the global map has no unsigned
    /// transaction.
    pub fn extract_transaction(&self) -> (r: GovernanceResult<Vec<u8>>)
        ensures
            !(forall|i: int|
                0 <= i < self.inputs@.len() ==> input_finalized(#[trigger] self.inputs@[i]@))
                ==> (r matches Err(GovernanceError::InvalidInput(m)) && m@
                == "PSBT is not finalized"@),
            (forall|i: int|
                0 <= i < self.inputs@.len() ==> input_finalized(#[trigger] self.inputs@[i]@))
                ==> match entries_get(self.global@, seq![0x00u8]) {
                Some(tx) => (r matches Ok(v) && v@ == tx),
                None => (r matches Err(GovernanceError::InvalidInput(m)) && m@
                    == "Missing unsigned transaction"@),
            },
    {
        if !self.is_finalized() {
            return Err(GovernanceError::InvalidInput(string_of("PSBT is not finalized")));
        }
        let key: Vec<u8> = vec![PsbtGlobalKey::UnsignedTx.to_byte()];
        proof {
            assert(key@ =~= seq![0x00u8]);
        }
        match self.global.get(key.as_slice()) {
            Some(tx) => Ok(copy_bytes(tx.as_slice())),
            None => Err(GovernanceError::InvalidInput(string_of("Missing unsigned transaction"))),
        }
    }

    /// The bytes of the PSBT: magic, separator, global map, separator, then
    /// each input map and each output map followed by a separator; where
    /// there is not exactly one input map (and there are maps), a separator
    /// before and after the input maps marks them off.
    pub fn serialize(&self) -> (r: GovernanceResult<Vec<u8>>)
        ensures
            r matches Ok(bytes) && bytes@ == ser_psbt(
                self.global@,
                maps_view(self.inputs@),
                maps_view(self.outputs@),
            ),
    {
        let mut result: Vec<u8> = Vec::new();
        result.push(PSBT_MAGIC[0]);
        result.push(PSBT_MAGIC[1]);
        result.push(PSBT_MAGIC[2]);
        result.push(PSBT_MAGIC[3]);
        result.push(PSBT_SEPARATOR);
        let _ = serialize_map(&mut result, &self.global);
        result.push(PSBT_SEPARATOR);
        let marked = self.inputs.len() != 1 && (self.inputs.len() > 0 || self.outputs.len() > 0);
        if marked {
            result.push(PSBT_SEPARATOR);
        }
        let ghost head = result@;
        proof {
            if marked {
                assert(head =~= psbt_magic() + seq![0xffu8] + ser_map(self.global@) + seq![0xffu8]
                    + seq![0xffu8]);
            } else {
                assert(head =~= psbt_magic() + seq![0xffu8] + ser_map(self.global@) + seq![0xffu8]);
            }
        }
        let mut i: usize = 0;
        while i < self.inputs.len()
            invariant
                i <= self.inputs@.len(),
                result@ == head + ser_maps(maps_view(self.inputs@).take(i as int)),
            decreases self.inputs@.len() - i,
        {
            let _ = serialize_map(&mut result, &self.inputs[i]);
            result.push(PSBT_SEPARATOR);
            proof {
                let t = maps_view(self.inputs@).take(i + 1);
                assert(t.drop_last() =~= maps_view(self.inputs@).take(i as int));
                assert(result@ =~= head + ser_maps(t));
            }
            i = i + 1;
        }
        proof {
            assert(maps_view(self.inputs@).take(i as int) =~= maps_view(self.inputs@));
        }
        if marked {
            result.push(PSBT_SEPARATOR);
        }
        let ghost mid = result@;
        let mut j: usize = 0;
        while j < self.outputs.len()
            invariant
                j <= self.outputs@.len(),
                result@ == mid + ser_maps(maps_view(self.outputs@).take(j as int)),
            decreases self.outputs@.len() - j,
        {
            let _ = serialize_map(&mut result, &self.outputs[j]);
            result.push(PSBT_SEPARATOR);
            proof {
                let t = maps_view(self.outputs@).take(j + 1);
                assert(t.drop_last() =~= maps_view(self.outputs@).take(j as int));
                assert(result@ =~= mid + ser_maps(t));
            }
            j = j + 1;
        }
        proof {
            assert(maps_view(self.outputs@).take(j as int) =~= maps_view(self.outputs@));
            let g = self.global@;
            let ins = maps_view(self.inputs@);
            let outs = maps_view(self.outputs@);
            assert(marked == marked_layout(ins.len(), outs.len()));
            if marked {
                assert(result@ =~= psbt_magic() + seq![0xffu8] + ser_map(g) + seq![0xffu8]
                    + seq![0xffu8] + ser_maps(ins) + seq![0xffu8] + ser_maps(outs));
            } else {
                assert(result@ =~= psbt_magic() + seq![0xffu8] + ser_map(g) + seq![0xffu8]
                    + ser_maps(ins) + ser_maps(outs));
            }
        }
        Ok(result)
    }

    /// Read a PSBT from its bytes: the global map; then, where a separator
    /// marks them off, the input maps up to the next separator where a map
    /// would start, otherwise input maps until a separator follows one; then
    /// output maps to the end. The version is the first byte of the global
    /// version entry, or 0.
    pub fn deserialize(data: &[u8]) -> (r: GovernanceResult<Self>)
        ensures
            parse_psbt(data@) matches Ok((g, ins, outs, v)) ==> (r matches Ok(p) && p.global@ == g
                && maps_view(p.inputs@) == ins && maps_view(p.outputs@) == outs && p.version == v),
            parse_psbt(data@) matches Err(m) ==> (r matches Err(GovernanceError::InvalidInput(e))
                && e@ == m),
    {
        let ghost d = data@;
        if data.len() < 5 || data[0] != PSBT_MAGIC[0] || data[1] != PSBT_MAGIC[1] || data[2]
            != PSBT_MAGIC[2] || data[3] != PSBT_MAGIC[3] || data[4] != PSBT_SEPARATOR {
            proof {
                if d.len() >= 5 && d[4] == 0xff {
                    assert(d.take(4)[0] == d[0] && d.take(4)[1] == d[1] && d.take(4)[2] == d[2]
                        && d.take(4)[3] == d[3]);
                }
            }
            return Err(GovernanceError::InvalidInput(string_of("Invalid PSBT magic bytes")));
        }
        proof {
            assert(d.take(4) =~= psbt_magic());
        }
        let (global, offset) = match deserialize_map_at(data, 5) {
            Ok(x) => x,
            Err(e) => {
                return Err(e);
            },
        };
        proof {
            lemma_parse_map_progress(d, 5, Seq::empty());
        }
        if offset >= data.len() || data[offset] != PSBT_SEPARATOR {
            return Err(
                GovernanceError::InvalidInput(string_of("Missing separator after global map")),
            );
        }
        let marked = offset + 1 < data.len() && data[offset + 1] == PSBT_SEPARATOR;
        let read = if marked {
            read_marked_input_maps(data, offset + 2)
        } else {
            read_input_maps(data, offset + 1)
        };
        let (inputs, after_inputs) = match read {
            Ok(x) => x,
            Err(e) => {
                return Err(e);
            },
        };
        let outputs = match read_output_maps(data, after_inputs) {
            Ok(x) => x,
            Err(e) => {
                return Err(e);
            },
        };
        let version_key: Vec<u8> = vec![PsbtGlobalKey::Version.to_byte()];
        proof {
            assert(version_key@ =~= seq![0xfbu8]);
        }
        let version = match global.get(version_key.as_slice()) {
            Some(v) => if v.len() > 0 {
                v[0]
            } else {
                0
            },
            None => 0,
        };
        Ok(PartiallySignedTransaction { global, inputs, outputs, version })
    }
}

/// A map that the format can carry: keys of 1 to 520 bytes, values of at
/// most 520000 bytes, no key twice.
pub open spec fn map_wf(es: Entries) -> bool {
    entries_wf(es) && keys_distinct(es)
}

/// The bytes of a map that the format can carry never start with the
/// separator.
pub proof fn lemma_ser_map_head(es: Entries)
    requires
        entries_wf(es),
    ensures
        ser_map(es).len() >= 1,
        ser_map(es)[0] != 0xff,
{
    if es.len() > 0 {
        lemma_ser_entries_front(es);
        let k = es[0].0.len();
        assert(1 <= k <= 520);
        let c = compact_size(k);
        assert(c[0] != 0xff);
        assert(ser_map(es)[0] == entry_bytes(es[0])[0]);
        assert(entry_bytes(es[0])[0] == c[0]);
    } else {
        assert(ser_map(es) =~= seq![0u8]);
    }
}

/// Writing two lists of maps one after the other writes their bytes one
/// after the other.
pub proof fn lemma_ser_maps_append(a: Seq<Entries>, b: Seq<Entries>)
    ensures
        ser_maps(a + b) == ser_maps(a) + ser_maps(b),
    decreases b.len(),
{
    if b.len() == 0 {
        assert(a + b =~= a);
        assert(ser_maps(a) + ser_maps(b) =~= ser_maps(a));
    } else {
        lemma_ser_maps_append(a, b.drop_last());
        assert((a + b).drop_last() =~= a + b.drop_last());
        assert((a + b).last() == b.last());
        assert(ser_maps(a + b) =~= ser_maps(a) + ser_maps(b));
    }
}

/// The bytes of a nonempty list of maps: the first map and its separator,
/// then the rest.
pub proof fn lemma_ser_maps_front(ms: Seq<Entries>)
    requires
        ms.len() > 0,
    ensures
        ser_maps(ms) == ser_map(ms[0]).push(0xff) + ser_maps(ms.drop_first()),
{
    let one = seq![ms[0]];
    assert(one + ms.drop_first() =~= ms);
    lemma_ser_maps_append(one, ms.drop_first());
    assert(one.drop_last() =~= Seq::<Entries>::empty());
    assert(ser_maps(Seq::<Entries>::empty()) =~= Seq::<u8>::empty());
    assert(one.last() == ms[0]);
    assert(ser_maps(one) =~= ser_map(ms[0]).push(0xff));
}

/// Where maps written one after another stand at `pos`, the first map
/// reads back at `pos`, its separator follows it, and the rest of the maps
/// follow the separator.
pub proof fn lemma_first_map(d: Seq<u8>, pos: nat, ms: Seq<Entries>)
    requires
        ms.len() > 0,
        forall|i: int| 0 <= i < ms.len() ==> map_wf(#[trigger] ms[i]),
        pos + ser_maps(ms).len() <= d.len(),
        d.subrange(pos as int, (pos + ser_maps(ms).len()) as int) == ser_maps(ms),
    ensures
        pos < d.len(),
        d[pos as int] != 0xff,
        parse_map_at(d, pos, Seq::empty()) == Ok::<(Entries, nat), Seq<char>>(
            (ms[0], pos + ser_map(ms[0]).len()),
        ),
        pos + ser_map(ms[0]).len() < d.len(),
        d[pos + ser_map(ms[0]).len() as int] == 0xff,
        pos + ser_map(ms[0]).len() + 1 + ser_maps(ms.drop_first()).len() == pos + ser_maps(ms).len(),
        d.subrange(
            pos + ser_map(ms[0]).len() as int + 1,
            (pos + ser_map(ms[0]).len() + 1 + ser_maps(ms.drop_first()).len()) as int,
        ) == ser_maps(ms.drop_first()),
        forall|i: int|
            0 <= i < ms.drop_first().len() ==> map_wf(#[trigger] ms.drop_first()[i]),
{
    let r0 = ms[0];
    let rest = ms.drop_first();
    assert(map_wf(r0));
    lemma_ser_maps_front(ms);
    let sm = ser_map(r0);
    let all = ser_maps(ms);
    let l: int = sm.len() as int;
    lemma_ser_map_head(r0);
    lemma_subrange_of(d, pos as int, all, 0, l);
    assert(all.subrange(0, l) =~= sm);
    assert(d[pos as int] == d.subrange(pos as int, (pos + all.len()) as int)[0]);
    assert(Seq::<(Seq<u8>, Seq<u8>)>::empty() + r0 =~= r0);
    lemma_map_roundtrip(d, pos, Seq::empty(), r0);
    assert(d[pos + l] == d.subrange(pos as int, (pos + all.len()) as int)[l]);
    lemma_subrange_of(d, pos as int, all, l + 1, all.len() as int);
    assert(all.subrange(l + 1, all.len() as int) =~= ser_maps(rest));
    assert forall|i: int| 0 <= i < rest.len() implies map_wf(#[trigger] rest[i]) by {
        assert(rest[i] == ms[i + 1]);
    }
}

/// Maps written one after another, each closed by the separator and
/// reaching the end of the bytes, read back as output maps.
pub proof fn lemma_outputs_roundtrip(d: Seq<u8>, pos: nat, acc: Seq<Entries>, rs: Seq<Entries>)
    requires
        forall|i: int| 0 <= i < rs.len() ==> map_wf(#[trigger] rs[i]),
        pos + ser_maps(rs).len() == d.len(),
        d.subrange(pos as int, d.len() as int) == ser_maps(rs),
    ensures
        parse_outputs(d, pos, acc) == Ok::<Seq<Entries>, Seq<char>>(acc + rs),
    decreases rs.len(),
{
    if rs.len() == 0 {
        assert(acc + rs =~= acc);
    } else {
        lemma_first_map(d, pos, rs);
        let l = ser_map(rs[0]).len();
        lemma_outputs_roundtrip(d, pos + l + 1, acc.push(rs[0]), rs.drop_first());
        assert(acc.push(rs[0]) + rs.drop_first() =~= acc + rs);
    }
}

/// The bytes that `serialize` writes begin with the magic, the separator,
/// the global map and the separator; the rest follows.
proof fn lemma_psbt_head(g: Entries, ins: Seq<Entries>, outs: Seq<Entries>)
    requires
        map_wf(g),
    ensures
        ({
            let d = ser_psbt(g, ins, outs);
            let p = 5 + ser_map(g).len();
            &&& d.len() >= 5
            &&& d.take(4) == psbt_magic()
            &&& d[4] == 0xff
            &&& parse_map_at(d, 5, Seq::empty()) == Ok::<(Entries, nat), Seq<char>>((g, p))
            &&& p < d.len()
            &&& d[p as int] == 0xff
        }),
{
    let d = ser_psbt(g, ins, outs);
    let sg = ser_map(g);
    let head = psbt_magic() + seq![0xffu8] + sg + seq![0xffu8];
    let tail = d.subrange(head.len() as int, d.len() as int);
    assert(d =~= head + tail);
    let p: int = 5 + sg.len() as int;
    assert(d[p] == head[p]);
    assert(d.take(4) =~= psbt_magic());
    assert(d.subrange(5, 5 + sg.len() as int) =~= sg);
    assert(Seq::<(Seq<u8>, Seq<u8>)>::empty() + g =~= g);
    lemma_map_roundtrip(d, 5, Seq::empty(), g);
}

/// In the marked layout the input maps stand between two separators after
/// the global map's, and the output maps follow to the end.
proof fn lemma_marked_layout(g: Entries, ins: Seq<Entries>, outs: Seq<Entries>)
    requires
        marked_layout(ins.len(), outs.len()),
    ensures
        ({
            let d = ser_psbt(g, ins, outs);
            let p = 5 + ser_map(g).len();
            let q = p + 2 + ser_maps(ins).len();
            &&& p + 1 < d.len()
            &&& d[p + 1 as int] == 0xff
            &&& q < d.len()
            &&& d.subrange(p as int + 2, q as int) == ser_maps(ins)
            &&& d[q as int] == 0xff
            &&& q + 1 + ser_maps(outs).len() == d.len()
            &&& d.subrange(q as int + 1, d.len() as int) == ser_maps(outs)
        }),
{
    let d = ser_psbt(g, ins, outs);
    let sg = ser_map(g);
    let si = ser_maps(ins);
    let so = ser_maps(outs);
    let head = psbt_magic() + seq![0xffu8] + sg + seq![0xffu8];
    assert(d =~= head + (seq![0xffu8] + (si + (seq![0xffu8] + so))));
    let p: int = 5 + sg.len() as int;
    let q: int = p + 2 + si.len() as int;
    assert(d[p + 1] == 0xff);
    assert(d.subrange(p + 2, q) =~= si);
    assert(d[q] == 0xff);
    assert(d.subrange(q + 1, d.len() as int) =~= so);
}

/// In the plain layout every map follows the global map's separator to
/// the end.
proof fn lemma_plain_layout(g: Entries, ins: Seq<Entries>, outs: Seq<Entries>)
    requires
        !marked_layout(ins.len(), outs.len()),
    ensures
        ({
            let d = ser_psbt(g, ins, outs);
            let p = 5 + ser_map(g).len();
            &&& p + 1 + ser_maps(ins + outs).len() == d.len()
            &&& d.subrange(p as int + 1, d.len() as int) == ser_maps(ins + outs)
        }),
{
    let d = ser_psbt(g, ins, outs);
    let sg = ser_map(g);
    lemma_ser_maps_append(ins, outs);
    let head = psbt_magic() + seq![0xffu8] + sg + seq![0xffu8];
    assert(d =~= head + ser_maps(ins + outs));
    let p: int = 5 + sg.len() as int;
    assert(d.subrange(p + 1, d.len() as int) =~= ser_maps(ins + outs));
}

/// Input maps written one after another from `pos`, followed by the
/// separator that ends them, read back as input maps, and the reading goes
/// on after that separator.
proof fn lemma_marked_inputs_roundtrip(d: Seq<u8>, pos: nat, acc: Seq<Entries>, ins: Seq<Entries>)
    requires
        forall|i: int| 0 <= i < ins.len() ==> map_wf(#[trigger] ins[i]),
        pos + ser_maps(ins).len() < d.len(),
        d.subrange(pos as int, (pos + ser_maps(ins).len()) as int) == ser_maps(ins),
        d[pos + ser_maps(ins).len() as int] == 0xff,
    ensures
        parse_marked_inputs(d, pos, acc) == Ok::<(Seq<Entries>, nat), Seq<char>>(
            (acc + ins, pos + ser_maps(ins).len() + 1),
        ),
    decreases ins.len(),
{
    if ins.len() == 0 {
        assert(ser_maps(ins) =~= Seq::<u8>::empty());
        assert(acc + ins =~= acc);
    } else {
        lemma_first_map(d, pos, ins);
        let l = ser_map(ins[0]).len();
        let rest = ins.drop_first();
        lemma_marked_inputs_roundtrip(d, pos + l + 1, acc.push(ins[0]), rest);
        assert(acc.push(ins[0]) + rest =~= acc + ins);
    }
}

/// In the plain layout, one input map followed by output maps reads back
/// as that input map, and the reading goes on after its separator.
proof fn lemma_single_input_roundtrip(d: Seq<u8>, pos: nat, ms: Seq<Entries>)
    requires
        ms.len() > 0,
        forall|i: int| 0 <= i < ms.len() ==> map_wf(#[trigger] ms[i]),
        pos + ser_maps(ms).len() == d.len(),
        d.subrange(pos as int, d.len() as int) == ser_maps(ms),
    ensures
        parse_inputs(d, pos, Seq::empty()) == Ok::<(Seq<Entries>, nat), Seq<char>>(
            (seq![ms[0]], pos + ser_map(ms[0]).len() + 1),
        ),
        pos + ser_map(ms[0]).len() + 1 + ser_maps(ms.drop_first()).len() == d.len(),
        d.subrange(pos + ser_map(ms[0]).len() as int + 1, d.len() as int) == ser_maps(
            ms.drop_first(),
        ),
        forall|i: int| 0 <= i < ms.drop_first().len() ==> map_wf(#[trigger] ms.drop_first()[i]),
{
    lemma_first_map(d, pos, ms);
    assert(Seq::<Entries>::empty().push(ms[0]) =~= seq![ms[0]]);
}

/// Whether a map has an entry under `key`.
pub open spec fn holds_key(m: Entries, key: Seq<u8>) -> bool {
    exists|j: int| 0 <= j < m.len() && (#[trigger] m[j]).0 == key
}

/// An input map is finalized exactly when it holds a final script sig
/// (key `0x07`) or a final script witness (key `0x08`); either alone is
/// enough.
pub proof fn lemma_input_finalized(m: Entries)
    ensures
        input_finalized(m) <==> (holds_key(m, seq![0x07u8]) || holds_key(m, seq![0x08u8])),
        holds_key(m, seq![0x07u8]) ==> input_finalized(m),
        holds_key(m, seq![0x08u8]) ==> input_finalized(m),
{
    lemma_key_index(m, seq![0x07u8]);
    lemma_key_index(m, seq![0x08u8]);
    if holds_key(m, seq![0x07u8]) {
        let j = choose|j: int| 0 <= j < m.len() && (#[trigger] m[j]).0 == seq![0x07u8];
        assert(m[j].0 == seq![0x07u8]);
    }
    if holds_key(m, seq![0x08u8]) {
        let j = choose|j: int| 0 <= j < m.len() && (#[trigger] m[j]).0 == seq![0x08u8];
        assert(m[j].0 == seq![0x08u8]);
    }
    if key_index(m, seq![0x07u8]) >= 0 {
        assert(m[key_index(m, seq![0x07u8])].0 == seq![0x07u8]);
    }
    if key_index(m, seq![0x08u8]) >= 0 {
        assert(m[key_index(m, seq![0x08u8])].0 == seq![0x08u8]);
    }
}

/// A PSBT is finalized (what `is_finalized` reports, and what
/// `extract_transaction` requires) exactly when every input map holds the
/// key `0x07` or the key `0x08`.
pub proof fn lemma_psbt_finalized(ins: Seq<Entries>)
    ensures
        (forall|i: int| 0 <= i < ins.len() ==> input_finalized(#[trigger] ins[i])) <==> (forall|i: int|
            0 <= i < ins.len() ==> holds_key(#[trigger] ins[i], seq![0x07u8]) || holds_key(
                ins[i],
                seq![0x08u8],
            )),
{
    assert forall|i: int| 0 <= i < ins.len() implies (input_finalized(#[trigger] ins[i]) <==> (
    holds_key(ins[i], seq![0x07u8]) || holds_key(ins[i], seq![0x08u8]))) by {
        lemma_input_finalized(ins[i]);
    }
}

/// A PSBT round trip: reading the bytes that `serialize` writes gives back
/// the global map, its version, and every input map and every output map
/// in order.
#[verifier::spinoff_prover]
#[verifier::rlimit(40)]
pub proof fn lemma_psbt_roundtrip(g: Entries, ins: Seq<Entries>, outs: Seq<Entries>)
    requires
        map_wf(g),
        forall|i: int| 0 <= i < ins.len() ==> map_wf(#[trigger] ins[i]),
        forall|i: int| 0 <= i < outs.len() ==> map_wf(#[trigger] outs[i]),
    ensures
        parse_psbt(ser_psbt(g, ins, outs)) == Ok::<
            (Entries, Seq<Entries>, Seq<Entries>, u8),
            Seq<char>,
        >((g, ins, outs, version_of(g))),
{
    lemma_psbt_head(g, ins, outs);
    let d = ser_psbt(g, ins, outs);
    let p: nat = 5 + ser_map(g).len();
    if marked_layout(ins.len(), outs.len()) {
        lemma_marked_roundtrip(g, ins, outs);
    } else if ins.len() == 0 {
        lemma_plain_layout(g, ins, outs);
        assert(ins =~= Seq::<Entries>::empty());
        assert(outs =~= Seq::<Entries>::empty());
        assert(ins + outs =~= Seq::<Entries>::empty());
        assert(d.len() == p + 1);
    } else {
        lemma_plain_roundtrip(g, ins, outs);
    }
}

/// The maps of the marked layout read back.
proof fn lemma_marked_roundtrip(g: Entries, ins: Seq<Entries>, outs: Seq<Entries>)
    requires
        map_wf(g),
        forall|i: int| 0 <= i < ins.len() ==> map_wf(#[trigger] ins[i]),
        forall|i: int| 0 <= i < outs.len() ==> map_wf(#[trigger] outs[i]),
        marked_layout(ins.len(), outs.len()),
    ensures
        ({
            let d = ser_psbt(g, ins, outs);
            let p = 5 + ser_map(g).len();
            &&& parse_marked_inputs(d, p + 2, Seq::empty()) == Ok::<(Seq<Entries>, nat), Seq<char>>(
                (ins, p + 2 + ser_maps(ins).len() + 1),
            )
            &&& parse_outputs(d, p + 2 + ser_maps(ins).len() + 1, Seq::empty()) == Ok::<
                Seq<Entries>,
                Seq<char>,
            >(outs)
            &&& p + 1 < d.len()
            &&& d[p + 1 as int] == 0xff
        }),
{
    lemma_marked_layout(g, ins, outs);
    let d = ser_psbt(g, ins, outs);
    let p: nat = 5 + ser_map(g).len();
    let q: nat = p + 2 + ser_maps(ins).len();
    lemma_marked_inputs_roundtrip(d, p + 2, Seq::empty(), ins);
    assert(Seq::<Entries>::empty() + ins =~= ins);
    lemma_outputs_roundtrip(d, q + 1, Seq::empty(), outs);
    assert(Seq::<Entries>::empty() + outs =~= outs);
}

/// The maps of the plain layout with one input map read back.
proof fn lemma_plain_roundtrip(g: Entries, ins: Seq<Entries>, outs: Seq<Entries>)
    requires
        map_wf(g),
        forall|i: int| 0 <= i < ins.len() ==> map_wf(#[trigger] ins[i]),
        forall|i: int| 0 <= i < outs.len() ==> map_wf(#[trigger] outs[i]),
        ins.len() == 1,
    ensures
        ({
            let d = ser_psbt(g, ins, outs);
            let p = 5 + ser_map(g).len();
            let q = p + 1 + ser_map(ins[0]).len() + 1;
            &&& p + 1 < d.len()
            &&& d[p + 1 as int] != 0xff
            &&& parse_inputs(d, p + 1, Seq::empty()) == Ok::<(Seq<Entries>, nat), Seq<char>>(
                (ins, q),
            )
            &&& parse_outputs(d, q, Seq::empty()) == Ok::<Seq<Entries>, Seq<char>>(outs)
        }),
{
    lemma_plain_layout(g, ins, outs);
    let d = ser_psbt(g, ins, outs);
    let p: nat = 5 + ser_map(g).len();
    let ms = ins + outs;
    lemma_maps_wf_append(ins, outs);
    assert(ms[0] == ins[0]);
    lemma_first_map(d, p + 1, ms);
    lemma_single_input_roundtrip(d, p + 1, ms);
    assert(seq![ms[0]] =~= ins);
    assert(ms.drop_first() =~= outs);
    let q: nat = p + 1 + ser_map(ms[0]).len() + 1;
    lemma_outputs_roundtrip(d, q, Seq::empty(), outs);
    assert(Seq::<Entries>::empty() + outs =~= outs);
}

/// The plain layout for a list of maps: magic, separator, the global map,
/// separator, then each map closed by a separator.
pub open spec fn plain_psbt_bytes(g: Entries, ms: Seq<Entries>) -> Seq<u8> {
    psbt_magic() + seq![0xffu8] + ser_map(g) + seq![0xffu8] + ser_maps(ms)
}

/// The plain bytes begin with the magic, the separator, the global map and
/// its separator, and the maps follow to the end.
proof fn lemma_plain_bytes_head(g: Entries, ms: Seq<Entries>)
    requires
        map_wf(g),
    ensures
        ({
            let d = plain_psbt_bytes(g, ms);
            let p = 5 + ser_map(g).len();
            &&& d.len() >= 5
            &&& d.take(4) == psbt_magic()
            &&& d[4] == 0xff
            &&& parse_map_at(d, 5, Seq::empty()) == Ok::<(Entries, nat), Seq<char>>((g, p))
            &&& p < d.len()
            &&& d[p as int] == 0xff
            &&& p + 1 + ser_maps(ms).len() == d.len()
            &&& d.subrange(p as int + 1, d.len() as int) == ser_maps(ms)
        }),
{
    let d = plain_psbt_bytes(g, ms);
    let sg = ser_map(g);
    let head = psbt_magic() + seq![0xffu8] + sg + seq![0xffu8];
    assert(d =~= head + ser_maps(ms));
    let p: int = 5 + sg.len() as int;
    assert(d[p] == head[p]);
    assert(d.take(4) =~= psbt_magic());
    assert(d.subrange(5, 5 + sg.len() as int) =~= sg);
    assert(Seq::<(Seq<u8>, Seq<u8>)>::empty() + g =~= g);
    lemma_map_roundtrip(d, 5, Seq::empty(), g);
    assert(d.subrange(p + 1, d.len() as int) =~= ser_maps(ms));
}

/// Bytes in the plain layout read as they always have: the first map after
/// the global map is the one input map, every later map an output map.
#[verifier::spinoff_prover]
#[verifier::rlimit(40)]
pub proof fn lemma_plain_bytes_read(g: Entries, ms: Seq<Entries>)
    requires
        map_wf(g),
        forall|i: int| 0 <= i < ms.len() ==> map_wf(#[trigger] ms[i]),
    ensures
        ({
            let k: int = if ms.len() == 0 { 0 } else { 1 };
            parse_psbt(plain_psbt_bytes(g, ms)) == Ok::<
                (Entries, Seq<Entries>, Seq<Entries>, u8),
                Seq<char>,
            >((g, ms.take(k), ms.skip(k), version_of(g)))
        }),
{
    lemma_plain_bytes_head(g, ms);
    let d = plain_psbt_bytes(g, ms);
    let p: nat = 5 + ser_map(g).len();
    if ms.len() == 0 {
        assert(ser_maps(ms) =~= Seq::<u8>::empty());
        assert(d.len() == p + 1);
        assert(parse_inputs(d, p + 1, Seq::empty()) == Ok::<(Seq<Entries>, nat), Seq<char>>(
            (Seq::<Entries>::empty(), p + 1),
        ));
        assert(parse_outputs(d, p + 1, Seq::empty()) == Ok::<Seq<Entries>, Seq<char>>(
            Seq::<Entries>::empty(),
        ));
        assert(ms.take(0) =~= ms);
        assert(ms.skip(0) =~= ms);
        assert(ms =~= Seq::<Entries>::empty());
        assert(!(p + 1 < d.len()));
        assert(parse_psbt(d) == Ok::<(Entries, Seq<Entries>, Seq<Entries>, u8), Seq<char>>(
            (g, ms, ms, version_of(g)),
        ));
    } else {
        lemma_first_map(d, p + 1, ms);
        lemma_single_input_roundtrip(d, p + 1, ms);
        assert(ms.take(1) =~= seq![ms[0]]);
        assert(ms.skip(1) =~= ms.drop_first());
        let q: nat = p + 1 + ser_map(ms[0]).len() + 1;
        lemma_outputs_roundtrip(d, q, Seq::empty(), ms.drop_first());
        assert(Seq::<Entries>::empty() + ms.drop_first() =~= ms.drop_first());
        assert(d[p + 1 as int] != 0xff);
        assert(parse_psbt(d) == Ok::<(Entries, Seq<Entries>, Seq<Entries>, u8), Seq<char>>(
            (g, seq![ms[0]], ms.drop_first(), version_of(g)),
        ));
    }
}

/// Every map of two lists of carriable maps, one after the other, is
/// carriable.
proof fn lemma_maps_wf_append(ins: Seq<Entries>, outs: Seq<Entries>)
    requires
        forall|i: int| 0 <= i < ins.len() ==> map_wf(#[trigger] ins[i]),
        forall|i: int| 0 <= i < outs.len() ==> map_wf(#[trigger] outs[i]),
    ensures
        forall|i: int| 0 <= i < (ins + outs).len() ==> map_wf(#[trigger] (ins + outs)[i]),
{
    let ms = ins + outs;
    assert forall|i: int| 0 <= i < ms.len() implies map_wf(#[trigger] ms[i]) by {
        if i < ins.len() {
            assert(ms[i] == ins[i]);
        } else {
            assert(ms[i] == outs[i - ins.len()]);
        }
    }
}

} // verus!
