//! The PNG chunk scanner.
//!
//! A PNG file is the eight-byte signature followed by chunks, each a 4-byte
//! big-endian length, a 4-byte type tag, the payload, and a 4-byte CRC. The
//! scanner walks that layout looking only for `tEXt` chunks whose keyword
//! (the payload up to the first zero byte, compared without regard to ASCII
//! case) is `ccv3` or `chara`; the text after the zero byte, when it is
//! valid UTF-8, is the captured card payload, the last occurrence winning.
//! A malformed `tEXt` payload (no separator, bad UTF-8) is skipped; running
//! out of bytes at a chunk boundary ends the scan; a `tEXt` body or type tag
//! cut short by the end of the stream is a truncation error.

use vstd::prelude::*;

use vstd::utf8::{decode_utf8, valid_utf8};

use crate::text::string_from_utf8;
use vstd::string::StringExecFns;

verus! {

/// A typed scan or decode failure. `JsonError` carries a display-ready
/// message naming the decoding step that failed.
#[derive(Debug, PartialEq)]
pub enum ParseError {
    InvalidFormat,
    TruncatedChunk,
    NoCardFound,
    Base64Error,
    EncodingError,
    JsonError(String),
}

impl ParseError {
    /// A display-ready description of the failure.
    pub fn message(&self) -> (r: String)
        ensures
            self is JsonError ==> r@ == self->JsonError_0@,
    {
        match self {
            ParseError::InvalidFormat => String::from_str("not a valid PNG image"),
            ParseError::TruncatedChunk => String::from_str(
                "PNG chunk is longer than the remaining data",
            ),
            ParseError::NoCardFound => String::from_str(
                "no character card (chara/ccv3) found in the image",
            ),
            ParseError::Base64Error => String::from_str("card payload is not valid base64"),
            ParseError::EncodingError => String::from_str("card payload is not valid UTF-8"),
            ParseError::JsonError(m) => m.clone(),
        }
    }
}

/// Which card payloads a PNG carried: the V3 (`ccv3`) text, the V2 (`chara`)
/// text, both, or neither.
#[derive(Debug, PartialEq)]
pub enum CardPayload {
    Neither,
    V2Only(String),
    V3Only(String),
    Both(String, String),
}

impl CardPayload {
    /// The captured V3 payload text.
    pub open spec fn v3_view(self) -> Option<Seq<char>> {
        match self {
            CardPayload::V3Only(p) => Some(p@),
            CardPayload::Both(p, _) => Some(p@),
            _ => None,
        }
    }

    /// The captured V2 payload text.
    pub open spec fn v2_view(self) -> Option<Seq<char>> {
        match self {
            CardPayload::V2Only(p) => Some(p@),
            CardPayload::Both(_, p) => Some(p@),
            _ => None,
        }
    }
}

/// Whether the stream opens with the fixed PNG signature.
pub open spec fn png_sig(b: Seq<u8>) -> bool {
    &&& b.len() >= 8
    &&& b[0] == 137u8
    &&& b[1] == 80u8
    &&& b[2] == 78u8
    &&& b[3] == 71u8
    &&& b[4] == 13u8
    &&& b[5] == 10u8
    &&& b[6] == 26u8
    &&& b[7] == 10u8
}

/// The big-endian 32-bit value at `i`.
pub open spec fn be32(b: Seq<u8>, i: int) -> int {
    b[i] * 0x1000000 + b[i + 1] * 0x10000 + b[i + 2] * 0x100 + b[i + 3]
}

/// Whether the chunk at `pos` has type `tEXt`.
pub open spec fn is_text_chunk(b: Seq<u8>, pos: int) -> bool {
    b[pos + 4] == 0x74u8 && b[pos + 5] == 0x45u8 && b[pos + 6] == 0x58u8 && b[pos + 7] == 0x74u8
}

/// The ASCII lower-case image of a byte.
pub open spec fn lower_byte(x: u8) -> u8 {
    if 65 <= x <= 90 {
        (x + 32) as u8
    } else {
        x
    }
}

/// Whether the keyword bytes spell `ccv3`, ASCII case ignored.
pub open spec fn kw_ccv3(kw: Seq<u8>) -> bool {
    kw.len() == 4 && lower_byte(kw[0]) == 0x63u8 && lower_byte(kw[1]) == 0x63u8 && lower_byte(
        kw[2],
    ) == 0x76u8 && lower_byte(kw[3]) == 0x33u8
}

/// Whether the keyword bytes spell `chara`, ASCII case ignored.
pub open spec fn kw_chara(kw: Seq<u8>) -> bool {
    kw.len() == 5 && lower_byte(kw[0]) == 0x63u8 && lower_byte(kw[1]) == 0x68u8 && lower_byte(
        kw[2],
    ) == 0x61u8 && lower_byte(kw[3]) == 0x72u8 && lower_byte(kw[4]) == 0x61u8
}

/// The position of the first zero byte at or after `i`, or the length.
pub open spec fn first_zero(p: Seq<u8>, i: int) -> int
    decreases p.len() - i,
{
    if 0 <= i < p.len() {
        if p[i] == 0u8 {
            i
        } else {
            first_zero(p, i + 1)
        }
    } else {
        i
    }
}

/// `first_zero` stays within `[i, p.len()]`, lands on a zero byte if
/// anywhere, and skips only non-zero bytes.
pub proof fn lemma_first_zero(p: Seq<u8>, i: int)
    requires
        0 <= i <= p.len(),
    ensures
        i <= first_zero(p, i) <= p.len(),
        first_zero(p, i) < p.len() ==> p[first_zero(p, i)] == 0u8,
        forall|k: int| i <= k < first_zero(p, i) ==> p[k] != 0u8,
    decreases p.len() - i,
{
    if 0 <= i < p.len() && p[i] != 0u8 {
        lemma_first_zero(p, i + 1);
    }
}

/// Walks the chunks from `pos` with the payloads captured so far; `None` is
/// a truncation failure, otherwise the final captures are returned.
pub open spec fn scan_chunks(
    b: Seq<u8>,
    pos: int,
    v3: Option<Seq<char>>,
    v2: Option<Seq<char>>,
) -> Option<(Option<Seq<char>>, Option<Seq<char>>)>
    recommends
        0 <= pos <= b.len(),
    decreases b.len() - pos,
{
    if !(0 <= pos) {
        None
    } else if pos + 4 > b.len() {
        Some((v3, v2))
    } else if pos + 8 > b.len() {
        None
    } else {
        let len = be32(b, pos);
        if is_text_chunk(b, pos) {
            if pos + 8 + len > b.len() {
                None
            } else {
                let p = b.subrange(pos + 8, pos + 8 + len);
                let z = first_zero(p, 0);
                let next = if pos + 12 + len > b.len() {
                    b.len() as int
                } else {
                    pos + 12 + len
                };
                if z < p.len() {
                    let kw = p.subrange(0, z);
                    let txt = p.subrange(z + 1, p.len() as int);
                    if kw_ccv3(kw) && valid_utf8(txt) {
                        scan_chunks(b, next, Some(decode_utf8(txt)), v2)
                    } else if kw_chara(kw) && valid_utf8(txt) {
                        scan_chunks(b, next, v3, Some(decode_utf8(txt)))
                    } else {
                        scan_chunks(b, next, v3, v2)
                    }
                } else {
                    scan_chunks(b, next, v3, v2)
                }
            }
        } else {
            let next = if pos + 12 + len > b.len() {
                b.len() as int
            } else {
                pos + 12 + len
            };
            scan_chunks(b, next, v3, v2)
        }
    }
}

/// What scanning a whole byte stream yields.
pub open spec fn scan_spec(b: Seq<u8>) -> Option<(Option<Seq<char>>, Option<Seq<char>>)> {
    scan_chunks(b, 8, None, None)
}

/// How a returned `CardPayload` relates to the captured payload texts.
pub open spec fn payload_matches(
    p: CardPayload,
    v3: Option<Seq<char>>,
    v2: Option<Seq<char>>,
) -> bool {
    p.v3_view() == v3 && p.v2_view() == v2
}

/// Scans a PNG byte stream for the `ccv3` and `chara` text chunks.
#[verifier::loop_isolation(false)]
pub fn scan_png(bytes: &[u8]) -> (r: Result<CardPayload, ParseError>)
    ensures
        !png_sig(bytes@) ==> r == Err::<CardPayload, ParseError>(ParseError::InvalidFormat),
        png_sig(bytes@) ==> match scan_spec(bytes@) {
            None => r == Err::<CardPayload, ParseError>(ParseError::TruncatedChunk),
            Some((v3, v2)) => match r {
                Ok(p) => payload_matches(p, v3, v2),
                Err(_) => false,
            },
        },
{
    if bytes.len() < 8 {
        return Err(ParseError::InvalidFormat);
    }
    if !(bytes[0] == 137 && bytes[1] == 80 && bytes[2] == 78 && bytes[3] == 71 && bytes[4] == 13
        && bytes[5] == 10 && bytes[6] == 26 && bytes[7] == 10) {
        return Err(ParseError::InvalidFormat);
    }
    let blen: usize = bytes.len();
    let mut pos: usize = 8;
    let mut v3: Option<String> = None;
    let mut v2: Option<String> = None;
    loop
        invariant
            png_sig(bytes@),
            8 <= pos <= blen,
            blen == bytes@.len(),
            scan_chunks(bytes@, pos as int, crate::card_json::opt_str_views(v3),
                crate::card_json::opt_str_views(v2)) == scan_spec(bytes@),
        decreases blen - pos,
    {
        let ghost pos0 = pos as int;
        let ghost gv3 = crate::card_json::opt_str_views(v3);
        let ghost gv2 = crate::card_json::opt_str_views(v2);
        if blen - pos < 4 {
            break;
        }
        if blen - pos < 8 {
            return Err(ParseError::TruncatedChunk);
        }
        let len_u64: u64 = (bytes[pos] as u64) * 0x1000000 + (bytes[pos + 1] as u64) * 0x10000 + (
        bytes[pos + 2] as u64) * 0x100 + (bytes[pos + 3] as u64);
        proof {
            assert(len_u64 as int == be32(bytes@, pos as int));
        }
        let is_text = bytes[pos + 4] == 0x74 && bytes[pos + 5] == 0x45 && bytes[pos + 6] == 0x58
            && bytes[pos + 7] == 0x74;
        let remaining: u64 = (blen - pos) as u64;
        let next: usize = if remaining < 12 + len_u64 {
            blen
        } else {
            pos + 12 + (len_u64 as usize)
        };
        proof {
            assert(next as int == (if pos0 + 12 + be32(bytes@, pos0) > bytes@.len() {
                bytes@.len() as int
            } else {
                pos0 + 12 + be32(bytes@, pos0)
            }));
        }
        if is_text {
            if remaining < 8 + len_u64 {
                return Err(ParseError::TruncatedChunk);
            }
            let len: usize = len_u64 as usize;
            let ghost p = bytes@.subrange(pos0 + 8, pos0 + 8 + len_u64 as int);
            // find the zero separator inside the payload
            let mut z: usize = 0;
            while z < len && bytes[pos + 8 + z] != 0
                invariant
                    z <= len,
                    pos + 8 + len <= blen,
                    p == bytes@.subrange(pos0 + 8, pos0 + 8 + len as int),
                    first_zero(p, 0) == first_zero(p, z as int),
                decreases len - z,
            {
                proof {
                    assert(p[z as int] == bytes@[pos0 + 8 + z]);
                }
                z = z + 1;
            }
            proof {
                if z < len {
                    assert(p[z as int] == bytes@[pos0 + 8 + z]);
                    assert(first_zero(p, 0) == z as int);
                } else {
                    assert(first_zero(p, 0) == len as int);
                }
            }
            if z < len {
                let ghost kw = p.subrange(0, z as int);
                let ghost txt = p.subrange(z + 1, p.len() as int);
                // keyword match, ASCII case ignored
                let is_v3 = z == 4 && lower_eq(bytes[pos + 8], 0x63) && lower_eq(
                    bytes[pos + 9],
                    0x63,
                ) && lower_eq(bytes[pos + 10], 0x76) && lower_eq(bytes[pos + 11], 0x33);
                let is_v2 = z == 5 && lower_eq(bytes[pos + 8], 0x63) && lower_eq(
                    bytes[pos + 9],
                    0x68,
                ) && lower_eq(bytes[pos + 10], 0x61) && lower_eq(bytes[pos + 11], 0x72)
                    && lower_eq(bytes[pos + 12], 0x61);
                proof {
                    assert(forall|q: int| 0 <= q < z ==> kw[q] == bytes@[pos0 + 8 + q]);
                    assert(is_v3 == kw_ccv3(kw));
                    assert(is_v2 == kw_chara(kw));
                }
                if is_v3 || is_v2 {
                    // copy the text bytes and decode them
                    let mut tb: Vec<u8> = Vec::new();
                    let mut t: usize = z + 1;
                    while t < len
                        invariant
                            z + 1 <= t <= len,
                            pos + 8 + len <= blen,
                            tb@ == bytes@.subrange(pos0 + 8 + z + 1, pos0 + 8 + t as int),
                        decreases len - t,
                    {
                        tb.push(bytes[pos + 8 + t]);
                        proof {
                            assert(tb@ =~= bytes@.subrange(pos0 + 8 + z + 1, pos0 + 8 + t + 1));
                        }
                        t = t + 1;
                    }
                    proof {
                        assert(tb@ =~= txt);
                    }
                    match string_from_utf8(tb) {
                        Some(s) => {
                            if is_v3 {
                                v3 = Some(s);
                            } else {
                                v2 = Some(s);
                            }
                        },
                        None => {},
                    }
                }
            }
            pos = next;
            proof {
                assert(scan_chunks(bytes@, pos as int, crate::card_json::opt_str_views(v3),
                    crate::card_json::opt_str_views(v2)) == scan_chunks(bytes@, pos0, gv3, gv2));
            }
        } else {
            pos = next;
            proof {
                assert(scan_chunks(bytes@, pos as int, crate::card_json::opt_str_views(v3),
                    crate::card_json::opt_str_views(v2)) == scan_chunks(bytes@, pos0, gv3, gv2));
            }
        }
    }
    proof {
        assert(scan_spec(bytes@) == Some(
            (crate::card_json::opt_str_views(v3), crate::card_json::opt_str_views(v2)),
        ));
    }
    match (v3, v2) {
        (None, None) => Ok(CardPayload::Neither),
        (Some(p3), None) => Ok(CardPayload::V3Only(p3)),
        (None, Some(p2)) => Ok(CardPayload::V2Only(p2)),
        (Some(p3), Some(p2)) => Ok(CardPayload::Both(p3, p2)),
    }
}

/// Whether a byte equals an ASCII letter, case ignored.
fn lower_eq(x: u8, target: u8) -> (r: bool)
    ensures
        r == (lower_byte(x) == target),
{
    let lx = if 65 <= x && x <= 90 {
        x + 32
    } else {
        x
    };
    lx == target
}

} // verus!
