//! The binary codec: a fail-fast parser and a serializer that are proven
//! to invert each other, modulo the compressed bytes' exact form.

use vstd::arithmetic::div_mod::lemma_fundamental_div_mod;
use vstd::prelude::*;
use vstd::utf8::{decode_utf8, encode_utf8, valid_utf8};

use crate::error::{Error, ParseErrorKind};
use crate::node::{lemma_probability_byte_roundtrip, RawNode, SpawnProbability};
use crate::schematic::{volume_u64, GridModel, Schematic};
use crate::vector::{MapVector, MAX_MAP_DIMENSION};
use crate::zlib::{spec_deflate, spec_inflate, zlib_compress, zlib_decompress};

verus! {

/// The four magic bytes every schematic starts with: `MTSM`.
pub open spec fn spec_magic() -> Seq<u8> {
    seq![77u8, 84u8, 83u8, 77u8]
}

/// The big-endian 16-bit value stored at byte offset `i`.
pub open spec fn be16(b: Seq<u8>, i: int) -> int {
    (b[i] as int) * 256 + (b[i + 1] as int)
}

/// The two big-endian bytes of a 16-bit value.
pub open spec fn be16_bytes(v: int) -> Seq<u8>
    recommends
        0 <= v < 0x10000,
{
    seq![(v / 256) as u8, (v % 256) as u8]
}

/// The wire form of one dictionary entry: 16-bit length prefix, then the
/// name's UTF-8 bytes.
pub open spec fn spec_name_bytes(name: Seq<char>) -> Seq<u8> {
    be16_bytes(encode_utf8(name).len() as int) + encode_utf8(name)
}

/// The wire form of the whole dictionary, entries in order.
pub open spec fn spec_names_bytes(names: Seq<Seq<char>>) -> Seq<u8>
    decreases names.len(),
{
    if names.len() == 0 {
        seq![]
    } else {
        spec_name_bytes(names[0]) + spec_names_bytes(names.subrange(1, names.len() as int))
    }
}

/// The packed per-cell byte: bit 7 is the force-placement flag, the low 7
/// bits the probability.
pub open spec fn spec_pack(c: RawNode) -> u8
    recommends
        c.spawn_probability <= 127,
{
    if c.force_placement {
        (c.spawn_probability + 128) as u8
    } else {
        c.spawn_probability
    }
}

/// The uncompressed cell payload: three parallel arrays, one value per
/// cell each — big-endian content ids, then packed probability bytes, then
/// param2 bytes.
pub open spec fn spec_payload_bytes(m: GridModel) -> Seq<u8> {
    Seq::new(
        (2 * m.cells.len()) as nat,
        |i: int|
            if i % 2 == 0 {
                (m.cells[i / 2].content_id as int / 256) as u8
            } else {
                (m.cells[i / 2].content_id as int % 256) as u8
            },
    ) + m.cells.map_values(|c: RawNode| spec_pack(c)) + m.cells.map_values(
        |c: RawNode| c.param2,
    )
}

/// The uncompressed header: magic, version 4, the three dimensions, one
/// probability byte per Y layer, then the dictionary.
pub open spec fn spec_header_bytes(m: GridModel) -> Seq<u8> {
    spec_magic() + be16_bytes(4) + be16_bytes(m.dims.x as int) + be16_bytes(m.dims.y as int)
        + be16_bytes(m.dims.z as int) + m.layer_probs.map_values(
        |p: SpawnProbability| p.spec_to_byte(),
    ) + be16_bytes(m.names.len() as int) + spec_names_bytes(m.names)
}

/// The full wire form: the header, then the cell payload as one zlib
/// stream.
pub open spec fn spec_serialize(m: GridModel) -> Seq<u8> {
    spec_header_bytes(m) + spec_deflate(spec_payload_bytes(m))
}

/// The content id of cell `k` in the decompressed payload.
pub open spec fn spec_cell_id(payload: Seq<u8>, k: int) -> int {
    be16(payload, 2 * k)
}

/// Reads `count` length-prefixed UTF-8 names starting at `pos`, yielding
/// the names and the position just past them; fails on truncation or
/// invalid UTF-8.
pub open spec fn spec_parse_names(b: Seq<u8>, pos: int, count: int) -> Option<
    (Seq<Seq<char>>, int),
>
    decreases count,
{
    if count <= 0 {
        Some((Seq::empty(), pos))
    } else if pos + 2 > b.len() {
        None
    } else {
        let n = be16(b, pos);
        if pos + 2 + n > b.len() {
            None
        } else {
            let nb = b.subrange(pos + 2, pos + 2 + n);
            if !valid_utf8(nb) {
                None
            } else {
                match spec_parse_names(b, pos + 2 + n, count - 1) {
                    Some(p) => Some((seq![decode_utf8(nb)] + p.0, p.1)),
                    None => None,
                }
            }
        }
    }
}

/// What decoding a byte sequence yields: the grid it describes, or nothing
/// when any field is malformed. Strictly sequential and fail-fast: magic,
/// version 4, dimensions (each below the map bound), one probability byte
/// per layer (each at most 127), the dictionary, then the zlib-compressed
/// cell arrays, whose content ids must point into the dictionary.
pub open spec fn spec_parse(b: Seq<u8>) -> Option<GridModel> {
    if b.len() < 12 {
        None
    } else if b.subrange(0, 4) != spec_magic() {
        None
    } else if be16(b, 4) != 4 {
        None
    } else {
        let x = be16(b, 6);
        let y = be16(b, 8);
        let z = be16(b, 10);
        if !(x < MAX_MAP_DIMENSION && y < MAX_MAP_DIMENSION && z < MAX_MAP_DIMENSION) {
            None
        } else if b.len() < 14 + y {
            None
        } else {
            let prob_bytes = b.subrange(12, 12 + y);
            if exists|i: int| 0 <= i < prob_bytes.len() && prob_bytes[i] > 127 {
                None
            } else {
                let count = be16(b, 12 + y);
                match spec_parse_names(b, 14 + y, count) {
                    None => None,
                    Some(p) => {
                        let names = p.0;
                        match spec_inflate(b.subrange(p.1, b.len() as int)) {
                            None => None,
                            Some(payload) => {
                                let vol = x * y * z;
                                if payload.len() < 4 * vol {
                                    None
                                } else if exists|k: int|
                                    0 <= k < vol && !(#[trigger] spec_cell_id(payload, k)
                                        < count) {
                                    None
                                } else {
                                    Some(
                                        GridModel {
                                            dims: MapVector {
                                                x: x as u16,
                                                y: y as u16,
                                                z: z as u16,
                                            },
                                            layer_probs: prob_bytes.map_values(
                                                |pb: u8| SpawnProbability::spec_from_byte(pb),
                                            ),
                                            names,
                                            cells: Seq::new(
                                                vol as nat,
                                                |k: int|
                                                    RawNode {
                                                        content_id: spec_cell_id(
                                                            payload,
                                                            k,
                                                        ) as u16,
                                                        spawn_probability: (payload[2 * vol + k]
                                                            as int % 128) as u8,
                                                        force_placement: payload[2 * vol + k]
                                                            >= 128,
                                                        param2: payload[3 * vol + k],
                                                    },
                                            ),
                                        },
                                    )
                                }
                            },
                        }
                    },
                }
            }
        }
    }
}

/// The kind of the first defect in the dictionary section, meaningful only
/// when [`spec_parse_names`] fails there.
pub open spec fn spec_parse_names_error(b: Seq<u8>, pos: int, count: int) -> ParseErrorKind
    decreases count,
{
    if count <= 0 {
        ParseErrorKind::Truncated
    } else if pos + 2 > b.len() {
        ParseErrorKind::Truncated
    } else {
        let n = be16(b, pos);
        if pos + 2 + n > b.len() {
            ParseErrorKind::Truncated
        } else if !valid_utf8(b.subrange(pos + 2, pos + 2 + n)) {
            ParseErrorKind::InvalidName
        } else {
            spec_parse_names_error(b, pos + 2 + n, count - 1)
        }
    }
}

/// The kind of the first defect in the input: which stage of
/// [`spec_parse`] rejects it. Meaningful only when parsing fails.
pub open spec fn spec_parse_error(b: Seq<u8>) -> ParseErrorKind {
    if b.len() < 12 {
        ParseErrorKind::Truncated
    } else if b.subrange(0, 4) != spec_magic() {
        ParseErrorKind::BadMagic
    } else if be16(b, 4) != 4 {
        ParseErrorKind::UnsupportedVersion
    } else {
        let x = be16(b, 6);
        let y = be16(b, 8);
        let z = be16(b, 10);
        if !(x < MAX_MAP_DIMENSION && y < MAX_MAP_DIMENSION && z < MAX_MAP_DIMENSION) {
            ParseErrorKind::DimensionOutOfRange
        } else if b.len() < 14 + y {
            ParseErrorKind::Truncated
        } else if ({
            let prob_bytes = b.subrange(12, 12 + y);
            exists|i: int| 0 <= i < prob_bytes.len() && prob_bytes[i] > 127
        }) {
            ParseErrorKind::InvalidProbability
        } else {
            let count = be16(b, 12 + y);
            match spec_parse_names(b, 14 + y, count) {
                None => spec_parse_names_error(b, 14 + y, count),
                Some(p) => {
                    match spec_inflate(b.subrange(p.1, b.len() as int)) {
                        None => ParseErrorKind::CorruptPayload,
                        Some(payload) => {
                            let vol = x * y * z;
                            if payload.len() < 4 * vol {
                                ParseErrorKind::CorruptPayload
                            } else {
                                ParseErrorKind::InvalidContentId
                            }
                        },
                    }
                },
            }
        }
    }
}

/// Relies on `String::from_utf8`: it succeeds exactly on valid UTF-8 input
/// and decodes it to the characters whose UTF-8 encoding the input is.
#[verifier::external_body]
fn string_from_utf8(bytes: Vec<u8>) -> (r: Option<String>)
    ensures
        match r {
            Some(s) => valid_utf8(bytes@) && s@ == decode_utf8(bytes@),
            None => !valid_utf8(bytes@),
        },
{
    String::from_utf8(bytes).ok()
}

/// Reads the big-endian 16-bit value at byte offset `i`.
fn read_u16(b: &Vec<u8>, i: usize) -> (r: u16)
    requires
        i + 2 <= b@.len(),
    ensures
        r as int == be16(b@, i as int),
{
    let len = b.len();
    proof {
        assert(i + 2 <= len);
    }
    (b[i] as u16) * 256 + (b[i + 1] as u16)
}

/// Appends the two big-endian bytes of a 16-bit value.
fn push_u16(out: &mut Vec<u8>, v: u16)
    ensures
        final(out)@ == old(out)@ + be16_bytes(v as int),
{
    out.push((v / 256) as u8);
    out.push((v % 256) as u8);
    proof {
        assert(final(out)@ =~= old(out)@ + be16_bytes(v as int));
    }
}

impl Schematic {
    /// Decodes a schematic from its binary wire form, exactly as
    /// [`spec_parse`] describes: strictly sequential and fail-fast. Any
    /// malformed input yields a structured parse error; no partially built
    /// grid is ever returned.
    pub fn from_bytes(bytes: &Vec<u8>) -> (r: Result<Schematic, Error>)
        ensures
            match r {
                Ok(g) => spec_parse(bytes@) == Some(g.model()) && g.wf(),
                Err(e) => spec_parse(bytes@) is None && e == Error::ParseError(
                    spec_parse_error(bytes@),
                ),
            },
    {
        let total = bytes.len();
        if total < 12 {
            return Err(Error::ParseError(ParseErrorKind::Truncated));
        }
        if !(bytes[0] == 77 && bytes[1] == 84 && bytes[2] == 83 && bytes[3] == 77) {
            proof {
                assert(bytes@.subrange(0, 4) != spec_magic()) by {
                    if bytes@.subrange(0, 4) == spec_magic() {
                        assert(bytes@.subrange(0, 4)[0] == bytes@[0]);
                        assert(bytes@.subrange(0, 4)[1] == bytes@[1]);
                        assert(bytes@.subrange(0, 4)[2] == bytes@[2]);
                        assert(bytes@.subrange(0, 4)[3] == bytes@[3]);
                    }
                }
            }
            return Err(Error::ParseError(ParseErrorKind::BadMagic));
        }
        proof {
            assert(bytes@.subrange(0, 4) =~= spec_magic());
        }
        let version = read_u16(bytes, 4);
        if version != 4 {
            return Err(Error::ParseError(ParseErrorKind::UnsupportedVersion));
        }
        let x = read_u16(bytes, 6);
        let y = read_u16(bytes, 8);
        let z = read_u16(bytes, 10);
        if x >= MAX_MAP_DIMENSION || y >= MAX_MAP_DIMENSION || z >= MAX_MAP_DIMENSION {
            return Err(Error::ParseError(ParseErrorKind::DimensionOutOfRange));
        }
        if total - 12 < y as usize + 2 {
            return Err(Error::ParseError(ParseErrorKind::Truncated));
        }

        // One probability byte per Y layer, each at most 127.
        let ghost prob_region = bytes@.subrange(12, 12 + y as int);
        let mut layer_probabilities: Vec<SpawnProbability> = Vec::new();
        let mut i: usize = 0;
        while i < y as usize
            invariant
                total == bytes@.len(),
                14 + y as int <= total,
                prob_region == bytes@.subrange(12, 12 + y as int),
                prob_region.len() == y,
                i <= y,
                layer_probabilities@.len() == i,
                forall|j: int| 0 <= j < i ==> #[trigger] prob_region[j] <= 127,
                forall|j: int|
                    0 <= j < i ==> layer_probabilities@[j] == SpawnProbability::spec_from_byte(
                        #[trigger] prob_region[j],
                    ),
                (exists|ii: int|
                    0 <= ii < y && #[trigger] prob_region[ii] > 127) ==> spec_parse(
                    bytes@,
                ) is None && spec_parse_error(bytes@) == ParseErrorKind::InvalidProbability,
            decreases y as usize - i,
        {
            let pb = bytes[12 + i];
            if pb > 127 {
                proof {
                    assert(prob_region[i as int] == bytes@[12 + i]);
                    assert(prob_region[i as int] > 127);
                }
                return Err(Error::ParseError(ParseErrorKind::InvalidProbability));
            }
            proof {
                assert(prob_region[i as int] == bytes@[12 + i]);
            }
            layer_probabilities.push(SpawnProbability::from_byte(pb));
            i += 1;
        }
        proof {
            assert(!(exists|ii: int| 0 <= ii < prob_region.len() && #[trigger] prob_region[ii]
                > 127));
            assert(layer_probabilities@ =~= prob_region.map_values(
                |pb: u8| SpawnProbability::spec_from_byte(pb),
            ));
        }

        let count = read_u16(bytes, 12 + y as usize);

        // The dictionary: `count` length-prefixed UTF-8 names.
        let first_pos: usize = 14 + y as usize;
        let mut content_names: Vec<String> = Vec::new();
        let mut pos: usize = first_pos;
        let mut ni: usize = 0;
        while ni < count as usize
            invariant
                total == bytes@.len(),
                first_pos == 14 + y as int,
                pos <= total,
                ni <= count,
                content_names@.len() == ni,
                ({
                    let tail = spec_parse_names(bytes@, pos as int, count as int - ni as int);
                    spec_parse_names(bytes@, first_pos as int, count as int) == (match tail {
                        Some(p) => Some::<(Seq<Seq<char>>, int)>(
                            (content_names@.map_values(|s: String| s@) + p.0, p.1),
                        ),
                        None => None::<(Seq<Seq<char>>, int)>,
                    })
                }),
                spec_parse_names(bytes@, first_pos as int, count as int) is None ==> spec_parse(
                    bytes@,
                ) is None && spec_parse_error(bytes@) == spec_parse_names_error(
                    bytes@,
                    pos as int,
                    count as int - ni as int,
                ),
            decreases count as usize - ni,
        {
            if total - pos < 2 {
                return Err(Error::ParseError(ParseErrorKind::Truncated));
            }
            let n = read_u16(bytes, pos) as usize;
            if total - pos - 2 < n {
                return Err(Error::ParseError(ParseErrorKind::Truncated));
            }
            let mut nb: Vec<u8> = Vec::new();
            let mut j: usize = 0;
            while j < n
                invariant
                    total == bytes@.len(),
                    pos as int + 2 + n as int <= total,
                    j <= n,
                    nb@ == bytes@.subrange(pos as int + 2, pos as int + 2 + j as int),
                decreases n - j,
            {
                nb.push(bytes[pos + 2 + j]);
                proof {
                    assert(nb@ =~= bytes@.subrange(pos as int + 2, pos as int + 2 + j + 1));
                }
                j += 1;
            }
            let ghost nbv = bytes@.subrange(pos as int + 2, pos as int + 2 + n as int);
            let ghost acc_before = content_names@.map_values(|s: String| s@);
            let name = match string_from_utf8(nb) {
                Some(s) => s,
                None => {
                    return Err(Error::ParseError(ParseErrorKind::InvalidName));
                },
            };
            content_names.push(name);
            proof {
                assert(content_names@.map_values(|s: String| s@) =~= acc_before.push(
                    decode_utf8(nbv),
                ));
                match spec_parse_names(
                    bytes@,
                    pos as int + 2 + n as int,
                    count as int - ni as int - 1,
                ) {
                    Some(p2) => {
                        assert((acc_before + (seq![decode_utf8(nbv)] + p2.0)) =~= (acc_before.push(
                            decode_utf8(nbv),
                        ) + p2.0));
                    },
                    None => {},
                }
            }
            proof {
                assert(spec_parse_names_error(bytes@, pos as int, count as int - ni as int)
                    == spec_parse_names_error(
                    bytes@,
                    pos as int + 2 + n as int,
                    count as int - ni as int - 1,
                ));
            }
            pos = pos + 2 + n;
            ni += 1;
        }
        proof {
            assert(spec_parse_names(bytes@, pos as int, 0) == Some(
                (Seq::<Seq<char>>::empty(), pos as int),
            ));
            assert((content_names@.map_values(|s: String| s@) + Seq::<Seq<char>>::empty()) =~= (
            content_names@.map_values(|s: String| s@)));
        }

        // The rest of the input is one zlib stream holding the three cell
        // arrays.
        let payload = match zlib_decompress(bytes, pos) {
            Some(p) => p,
            None => {
                return Err(Error::ParseError(ParseErrorKind::CorruptPayload));
            },
        };
        let dims = MapVector { x, y, z };
        let vol64: u64 = volume_u64(dims);
        proof {
            assert(0 <= dims.spec_volume() <= 0xFFFF * 0xFFFF * 0xFFFF) by (nonlinear_arith)
                requires
                    0 <= dims.x as int <= 0xFFFF,
                    0 <= dims.y as int <= 0xFFFF,
                    0 <= dims.z as int <= 0xFFFF,
                    dims.spec_volume() == dims.x * dims.y * dims.z,
            ;
        }
        if (payload.len() as u64) < 4 * vol64 {
            return Err(Error::ParseError(ParseErrorKind::CorruptPayload));
        }
        let vol = vol64 as usize;

        let mut nodes: Vec<RawNode> = Vec::new();
        let mut k: usize = 0;
        while k < vol
            invariant
                vol as int == dims.spec_volume(),
                4 * vol as int <= payload@.len(),
                4 * vol as int <= usize::MAX,
                k <= vol,
                nodes@.len() == k,
                forall|j: int| 0 <= j < k ==> spec_cell_id(payload@, j) < count,
                forall|j: int|
                    0 <= j < k ==> nodes@[j] == (RawNode {
                        content_id: spec_cell_id(payload@, j) as u16,
                        spawn_probability: (payload@[2 * vol as int + j] as int % 128) as u8,
                        force_placement: payload@[2 * vol as int + j] >= 128,
                        param2: payload@[3 * vol as int + j],
                    }),
                (exists|kk: int|
                    0 <= kk < dims.spec_volume() && !(#[trigger] spec_cell_id(payload@, kk)
                        < count as int)) ==> spec_parse(bytes@) is None && spec_parse_error(
                    bytes@,
                ) == ParseErrorKind::InvalidContentId,
            decreases vol - k,
        {
            let id = read_u16(&payload, 2 * k);
            if id >= count {
                proof {
                    assert(spec_cell_id(payload@, k as int) == id);
                    assert(0 <= k < dims.spec_volume() && !(spec_cell_id(payload@, k as int)
                        < count as int));
                }
                return Err(Error::ParseError(ParseErrorKind::InvalidContentId));
            }
            proof {
                assert(spec_cell_id(payload@, k as int) == id);
            }
            let pb = payload[2 * vol + k];
            nodes.push(
                RawNode {
                    content_id: id,
                    spawn_probability: pb % 128,
                    force_placement: pb >= 128,
                    param2: payload[3 * vol + k],
                },
            );
            k += 1;
        }

        let g = Schematic { version: 4, dimensions: dims, layer_probabilities, content_names, nodes };
        proof {
            assert(!(exists|kk: int|
                0 <= kk < dims.spec_volume() && !(#[trigger] spec_cell_id(payload@, kk)
                    < count as int))) by {
                if exists|kk: int|
                    0 <= kk < dims.spec_volume() && !(#[trigger] spec_cell_id(payload@, kk)
                        < count as int) {
                    let kk = choose|kk: int|
                        0 <= kk < dims.spec_volume() && !(#[trigger] spec_cell_id(payload@, kk)
                            < count as int);
                    assert(spec_cell_id(payload@, kk) < count);
                }
            }
            assert(g.nodes@ =~= Seq::new(
                dims.spec_volume() as nat,
                |kk: int|
                    RawNode {
                        content_id: spec_cell_id(payload@, kk) as u16,
                        spawn_probability: (payload@[2 * dims.spec_volume() + kk] as int
                            % 128) as u8,
                        force_placement: payload@[2 * dims.spec_volume() + kk] >= 128,
                        param2: payload@[3 * dims.spec_volume() + kk],
                    },
            ));
            assert(spec_parse(bytes@) == Some(g.model()));
            assert forall|j: int| 0 <= j < g.nodes@.len() implies (
            #[trigger] g.nodes@[j]).content_id < g.content_names@.len()
                && g.nodes@[j].spawn_probability <= 127 by {
                assert(spec_cell_id(payload@, j) < count);
            }
            assert forall|j: int| 0 <= j < g.layer_probabilities@.len() implies (
            #[trigger] g.layer_probabilities@[j]).is_valid() by {
                assert(prob_region[j] <= 127);
            }
        }
        Ok(g)
    }
}

/// Reading back the two big-endian bytes of a 16-bit value yields the
/// value.
proof fn lemma_be16_roundtrip(b: Seq<u8>, i: int, v: int)
    requires
        0 <= v < 0x10000,
        0 <= i,
        i + 2 <= b.len(),
        b[i] == be16_bytes(v)[0],
        b[i + 1] == be16_bytes(v)[1],
    ensures
        be16(b, i) == v,
{
    lemma_fundamental_div_mod(v, 256);
}

/// Appending one entry to the dictionary appends its wire form.
proof fn lemma_names_bytes_push(s: Seq<Seq<char>>, x: Seq<char>)
    ensures
        spec_names_bytes(s.push(x)) == spec_names_bytes(s) + spec_name_bytes(x),
    decreases s.len(),
{
    if s.len() == 0 {
        assert(s.push(x)[0] == x);
        assert(s.push(x).subrange(1, 1) =~= Seq::<Seq<char>>::empty());
        assert(spec_names_bytes(s.push(x)) == spec_name_bytes(x) + spec_names_bytes(
            Seq::<Seq<char>>::empty(),
        ));
        assert(spec_names_bytes(s.push(x)) =~= spec_names_bytes(s) + spec_name_bytes(x));
    } else {
        let tail = s.subrange(1, s.len() as int);
        assert(s.push(x)[0] == s[0]);
        assert(s.push(x).subrange(1, s.len() as int + 1) =~= tail.push(x));
        assert(spec_names_bytes(s.push(x)) == spec_name_bytes(s[0]) + spec_names_bytes(
            tail.push(x),
        ));
        lemma_names_bytes_push(tail, x);
        assert(spec_names_bytes(s.push(x)) == spec_name_bytes(s[0]) + (spec_names_bytes(tail)
            + spec_name_bytes(x)));
        assert(spec_names_bytes(s) == spec_name_bytes(s[0]) + spec_names_bytes(tail));
        assert(spec_names_bytes(s.push(x)) =~= spec_names_bytes(s) + spec_name_bytes(x));
    }
}

/// The dictionary section parses back to exactly the names it was written
/// from.
proof fn lemma_parse_names_inverts(b: Seq<u8>, pos: int, names: Seq<Seq<char>>)
    requires
        0 <= pos,
        pos + spec_names_bytes(names).len() <= b.len(),
        b.subrange(pos, pos + spec_names_bytes(names).len() as int) == spec_names_bytes(names),
        forall|i: int| 0 <= i < names.len() ==> #[trigger] encode_utf8(names[i]).len() <= 0xFFFF,
    ensures
        spec_parse_names(b, pos, names.len() as int) == Some(
            (names, pos + spec_names_bytes(names).len() as int),
        ),
    decreases names.len(),
{
    if names.len() > 0 {
        let first = names[0];
        let eb = encode_utf8(first);
        let n = eb.len() as int;
        let rest = names.subrange(1, names.len() as int);
        let all = spec_names_bytes(names);
        assert(all == spec_name_bytes(first) + spec_names_bytes(rest));
        assert(forall|t: int| 0 <= t < all.len() ==> b[pos + t] == #[trigger] all[t]) by {
            assert(forall|t: int|
                0 <= t < all.len() ==> b.subrange(pos, pos + all.len() as int)[t] == #[trigger] all[t]);
        }
        assert(all[0] == be16_bytes(n)[0]);
        assert(all[1] == be16_bytes(n)[1]);
        assert(b[pos] == all[0]);
        assert(b[pos + 1] == all[1]);
        lemma_be16_roundtrip(b, pos, n);
        assert(b.subrange(pos + 2, pos + 2 + n) =~= eb) by {
            assert forall|q: int| 0 <= q < n implies b.subrange(pos + 2, pos + 2 + n)[q]
                == eb[q] by {
                assert(b[pos + (2 + q)] == all[2 + q]);
                assert(all[2 + q] == eb[q]);
            }
        }
        vstd::utf8::encode_utf8_valid_utf8(first);
        vstd::utf8::encode_utf8_decode_utf8(first);
        let restb = spec_names_bytes(rest);
        assert(b.subrange(pos + 2 + n, pos + 2 + n + restb.len() as int) =~= restb) by {
            assert forall|q: int| 0 <= q < restb.len() implies b.subrange(
                pos + 2 + n,
                pos + 2 + n + restb.len() as int,
            )[q] == restb[q] by {
                assert(b[pos + (2 + n + q)] == all[2 + n + q]);
                assert(all[2 + n + q] == restb[q]);
            }
        }
        assert(forall|i: int|
            0 <= i < rest.len() ==> #[trigger] encode_utf8(rest[i]).len() <= 0xFFFF) by {
            assert(forall|i: int| 0 <= i < rest.len() ==> rest[i] == names[i + 1]);
        }
        lemma_parse_names_inverts(b, pos + 2 + n, rest);
        assert(seq![decode_utf8(b.subrange(pos + 2, pos + 2 + n))] + rest =~= names);
    }
}

impl Schematic {
    /// The grid can be written to the wire: it is well-formed, its
    /// dictionary and every name's UTF-8 length fit their 16-bit wire
    /// fields, and the cell payload fits in memory.
    pub open spec fn serializable(self) -> bool {
        &&& self.wf()
        &&& self.content_names@.len() <= 0xFFFF
        &&& forall|i: int|
            0 <= i < self.names_seq().len() ==> #[trigger] encode_utf8(
                self.names_seq()[i],
            ).len() <= 0xFFFF
        &&& 4 * self.dimensions.spec_volume() <= usize::MAX
    }
}

impl Schematic {
    /// Encodes the grid into its binary wire form — the structural inverse
    /// of [`Schematic::from_bytes`]: the uncompressed header, then the
    /// three cell arrays as one zlib stream. Decoding the result recovers
    /// exactly this grid's semantic content, though the compressed bytes
    /// themselves need not match another encoder's output.
    pub fn to_bytes(&self) -> (r: Vec<u8>)
        requires
            self.serializable(),
        ensures
            r@ == spec_serialize(self.model()),
            spec_parse(r@) == Some(self.model()),
    {
        let mut out: Vec<u8> = Vec::new();
        out.push(77);
        out.push(84);
        out.push(83);
        out.push(77);
        proof {
            assert(out@ =~= spec_magic());
        }
        push_u16(&mut out, self.version);
        push_u16(&mut out, self.dimensions.x);
        push_u16(&mut out, self.dimensions.y);
        push_u16(&mut out, self.dimensions.z);
        let ghost hdr0 = spec_magic() + be16_bytes(4) + be16_bytes(self.dimensions.x as int)
            + be16_bytes(self.dimensions.y as int) + be16_bytes(self.dimensions.z as int);
        proof {
            assert(out@ == hdr0);
        }

        // One probability byte per Y layer.
        let mut li: usize = 0;
        while li < self.layer_probabilities.len()
            invariant
                hdr0 == spec_magic() + be16_bytes(4) + be16_bytes(self.dimensions.x as int)
                    + be16_bytes(self.dimensions.y as int) + be16_bytes(self.dimensions.z as int),
                li <= self.layer_probabilities@.len(),
                out@ == hdr0 + self.layer_probabilities@.subrange(0, li as int).map_values(
                    |p: SpawnProbability| p.spec_to_byte(),
                ),
            decreases self.layer_probabilities@.len() - li,
        {
            out.push(self.layer_probabilities[li].to_byte());
            proof {
                assert(out@ =~= hdr0 + self.layer_probabilities@.subrange(
                    0,
                    li as int + 1,
                ).map_values(|p: SpawnProbability| p.spec_to_byte()));
            }
            li += 1;
        }
        proof {
            assert(self.layer_probabilities@.subrange(
                0,
                self.layer_probabilities@.len() as int,
            ) =~= self.layer_probabilities@);
        }

        // The dictionary: count, then each name length-prefixed.
        push_u16(&mut out, self.content_names.len() as u16);
        let ghost hdr1 = out@;
        let mut ni: usize = 0;
        while ni < self.content_names.len()
            invariant
                self.serializable(),
                ni <= self.content_names@.len(),
                out@ == hdr1 + spec_names_bytes(self.names_seq().subrange(0, ni as int)),
            decreases self.content_names@.len() - ni,
        {
            let ghost prefix = self.names_seq().subrange(0, ni as int);
            let name_bytes: &[u8] = self.content_names[ni].as_str().as_bytes();
            let blen = name_bytes.len();
            proof {
                assert(name_bytes@ == encode_utf8(self.names_seq()[ni as int]));
                assert(blen <= 0xFFFF);
            }
            push_u16(&mut out, blen as u16);
            let ghost mid = out@;
            let mut bj: usize = 0;
            while bj < blen
                invariant
                    bj <= blen,
                    blen == name_bytes@.len(),
                    out@ == mid + name_bytes@.subrange(0, bj as int),
                decreases blen - bj,
            {
                out.push(*vstd::slice::slice_index_get(name_bytes, bj));
                proof {
                    assert(out@ =~= mid + name_bytes@.subrange(0, bj as int + 1));
                }
                bj += 1;
            }
            proof {
                assert(name_bytes@.subrange(0, blen as int) =~= name_bytes@);
                lemma_names_bytes_push(prefix, self.names_seq()[ni as int]);
                assert(self.names_seq().subrange(0, ni as int + 1) =~= prefix.push(
                    self.names_seq()[ni as int],
                ));
                assert(out@ =~= hdr1 + spec_names_bytes(
                    self.names_seq().subrange(0, ni as int + 1),
                ));
            }
            ni += 1;
        }
        proof {
            assert(self.names_seq().subrange(0, self.names_seq().len() as int)
                =~= self.names_seq());
            assert(out@ =~= spec_header_bytes(self.model()));
        }

        // The three cell arrays, then compressed as one zlib stream.
        let vol = self.nodes.len();
        let mut node_data: Vec<u8> = Vec::new();
        let mut k: usize = 0;
        while k < vol
            invariant
                vol == self.nodes@.len(),
                4 * vol as int <= usize::MAX,
                k <= vol,
                node_data@.len() == 2 * k,
                forall|i: int|
                    0 <= i < 2 * k ==> #[trigger] node_data@[i] == (if i % 2 == 0 {
                        (self.nodes@[i / 2].content_id as int / 256) as u8
                    } else {
                        (self.nodes@[i / 2].content_id as int % 256) as u8
                    }),
            decreases vol - k,
        {
            let id = self.nodes[k].content_id;
            node_data.push((id / 256) as u8);
            node_data.push((id % 256) as u8);
            proof {
                assert((2 * k as int) % 2 == 0 && (2 * k as int) / 2 == k as int && (2 * k as int
                    + 1) % 2 == 1 && (2 * k as int + 1) / 2 == k as int);
            }
            k += 1;
        }
        let ghost ids_part = node_data@;
        let mut k2: usize = 0;
        while k2 < vol
            invariant
                self.serializable(),
                vol == self.nodes@.len(),
                k2 <= vol,
                ids_part.len() == 2 * vol,
                forall|i: int|
                    0 <= i < 2 * vol ==> #[trigger] ids_part[i] == (if i % 2 == 0 {
                        (self.nodes@[i / 2].content_id as int / 256) as u8
                    } else {
                        (self.nodes@[i / 2].content_id as int % 256) as u8
                    }),
                node_data@ == ids_part + self.nodes@.subrange(0, k2 as int).map_values(
                    |c: RawNode| spec_pack(c),
                ),
            decreases vol - k2,
        {
            let c = self.nodes[k2];
            proof {
                assert(self.nodes@[k2 as int].spawn_probability <= 127);
            }
            let pb = if c.force_placement {
                c.spawn_probability + 128
            } else {
                c.spawn_probability
            };
            node_data.push(pb);
            proof {
                assert(node_data@ =~= ids_part + self.nodes@.subrange(
                    0,
                    k2 as int + 1,
                ).map_values(|cc: RawNode| spec_pack(cc)));
            }
            k2 += 1;
        }
        let ghost packs_part = self.nodes@.map_values(|c: RawNode| spec_pack(c));
        proof {
            assert(self.nodes@.subrange(0, vol as int) =~= self.nodes@);
        }
        let mut k3: usize = 0;
        while k3 < vol
            invariant
                vol == self.nodes@.len(),
                k3 <= vol,
                ids_part.len() == 2 * vol,
                forall|i: int|
                    0 <= i < 2 * vol ==> #[trigger] ids_part[i] == (if i % 2 == 0 {
                        (self.nodes@[i / 2].content_id as int / 256) as u8
                    } else {
                        (self.nodes@[i / 2].content_id as int % 256) as u8
                    }),
                packs_part == self.nodes@.map_values(|c: RawNode| spec_pack(c)),
                node_data@ == ids_part + packs_part + self.nodes@.subrange(
                    0,
                    k3 as int,
                ).map_values(|c: RawNode| c.param2),
            decreases vol - k3,
        {
            node_data.push(self.nodes[k3].param2);
            proof {
                assert(node_data@ =~= ids_part + packs_part + self.nodes@.subrange(
                    0,
                    k3 as int + 1,
                ).map_values(|c: RawNode| c.param2));
            }
            k3 += 1;
        }
        proof {
            assert(self.nodes@.subrange(0, vol as int) =~= self.nodes@);
            assert(node_data@ =~= spec_payload_bytes(self.model()));
        }

        let compressed = zlib_compress(&node_data);
        let ghost header = out@;
        let mut ci: usize = 0;
        while ci < compressed.len()
            invariant
                ci <= compressed@.len(),
                out@ == header + compressed@.subrange(0, ci as int),
            decreases compressed@.len() - ci,
        {
            out.push(compressed[ci]);
            proof {
                assert(out@ =~= header + compressed@.subrange(0, ci as int + 1));
            }
            ci += 1;
        }
        proof {
            assert(compressed@.subrange(0, compressed@.len() as int) =~= compressed@);
            assert(out@ == spec_serialize(self.model()));
            lemma_serialize_parses_back(*self);
        }
        out
    }
}

/// Parsing inverts serialization: the wire form of a serializable grid
/// decodes to exactly the grid's semantic content. The zlib round trip is
/// taken as a hypothesis, discharged by the compressor's contract at the
/// call site.
proof fn lemma_serialize_parses_back(g: Schematic)
    requires
        g.serializable(),
        spec_inflate(spec_deflate(spec_payload_bytes(g.model()))) == Some(
            spec_payload_bytes(g.model()),
        ),
    ensures
        spec_parse(spec_serialize(g.model())) == Some(g.model()),
{
    let m = g.model();
    let h = spec_header_bytes(m);
    let payload = spec_payload_bytes(m);
    let c = spec_deflate(payload);
    let b = h + c;
    let x = m.dims.x as int;
    let y = m.dims.y as int;
    let z = m.dims.z as int;
    let probs = m.layer_probs.map_values(|p: SpawnProbability| p.spec_to_byte());
    let count = m.names.len() as int;
    let nb = spec_names_bytes(m.names);
    let vol = m.cells.len() as int;

    assert(h.len() == 14 + y + nb.len());
    assert(b.subrange(0, 4) =~= spec_magic());
    lemma_be16_roundtrip(b, 4, 4);
    lemma_be16_roundtrip(b, 6, x);
    lemma_be16_roundtrip(b, 8, y);
    lemma_be16_roundtrip(b, 10, z);
    let pr = b.subrange(12, 12 + y);
    assert(pr =~= probs);
    assert(!(exists|i: int| 0 <= i < pr.len() && #[trigger] pr[i] > 127)) by {
        if exists|i: int| 0 <= i < pr.len() && #[trigger] pr[i] > 127 {
            let i = choose|i: int| 0 <= i < pr.len() && #[trigger] pr[i] > 127;
            assert(m.layer_probs[i].is_valid());
            assert(probs[i] <= 127);
        }
    }
    lemma_be16_roundtrip(b, 12 + y, count);
    assert(b.subrange(14 + y, 14 + y + nb.len() as int) =~= nb);
    lemma_parse_names_inverts(b, 14 + y, m.names);
    assert(b.subrange(h.len() as int, b.len() as int) =~= c);
    assert(payload.len() == 4 * vol);
    assert(vol == x * y * z);

    // Each wire field of each cell reads back as written.
    assert forall|kk: int| 0 <= kk < vol implies #[trigger] spec_cell_id(payload, kk)
        == m.cells[kk].content_id && payload[2 * vol + kk] == spec_pack(m.cells[kk]) && payload[3
        * vol + kk] == m.cells[kk].param2 by {
        assert((2 * kk) % 2 == 0 && (2 * kk) / 2 == kk && (2 * kk + 1) % 2 == 1 && (2 * kk + 1)
            / 2 == kk);
        assert(payload[2 * kk] == (m.cells[kk].content_id as int / 256) as u8);
        assert(payload[2 * kk + 1] == (m.cells[kk].content_id as int % 256) as u8);
        lemma_fundamental_div_mod(m.cells[kk].content_id as int, 256);
    }
    assert(!(exists|kk: int| 0 <= kk < vol && !(#[trigger] spec_cell_id(payload, kk) < count)))
        by {
        if exists|kk: int| 0 <= kk < vol && !(#[trigger] spec_cell_id(payload, kk) < count) {
            let kk = choose|kk: int|
                0 <= kk < vol && !(#[trigger] spec_cell_id(payload, kk) < count);
            assert(m.cells[kk].content_id < count);
        }
    }
    assert(Seq::new(
        vol as nat,
        |kk: int|
            RawNode {
                content_id: spec_cell_id(payload, kk) as u16,
                spawn_probability: (payload[2 * vol + kk] as int % 128) as u8,
                force_placement: payload[2 * vol + kk] >= 128,
                param2: payload[3 * vol + kk],
            },
    ) =~= m.cells) by {
        assert forall|kk: int| 0 <= kk < vol implies Seq::new(
            vol as nat,
            |kk2: int|
                RawNode {
                    content_id: spec_cell_id(payload, kk2) as u16,
                    spawn_probability: (payload[2 * vol + kk2] as int % 128) as u8,
                    force_placement: payload[2 * vol + kk2] >= 128,
                    param2: payload[3 * vol + kk2],
                },
        )[kk] == m.cells[kk] by {
            let cell = m.cells[kk];
            assert(cell.spawn_probability <= 127);
            if cell.force_placement {
                assert((spec_pack(cell) as int) % 128 == cell.spawn_probability);
                assert(spec_pack(cell) >= 128);
            } else {
                assert((spec_pack(cell) as int) % 128 == cell.spawn_probability);
                assert(spec_pack(cell) < 128);
            }
        }
    }
    assert(pr.map_values(|pb: u8| SpawnProbability::spec_from_byte(pb)) =~= m.layer_probs) by {
        assert forall|i: int| 0 <= i < y implies SpawnProbability::spec_from_byte(pr[i])
            == m.layer_probs[i] by {
            assert(m.layer_probs[i].is_valid());
            lemma_probability_byte_roundtrip(m.layer_probs[i], pr[i]);
        }
    }
    assert(MapVector { x: x as u16, y: y as u16, z: z as u16 } == m.dims);
    assert(spec_parse(b) == Some(m));
}

} // verus!
