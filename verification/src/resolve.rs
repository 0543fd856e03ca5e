//! The version resolver.
//!
//! Of the two possible captured payloads, V3 (`ccv3`) always wins; V2
//! (`chara`) is consulted only when no V3 payload exists. The winning
//! payload is base64-decoded, read as UTF-8, parsed as JSON, and mapped onto
//! the card model; the whole decoded document (envelope included, on the V3
//! path) is re-serialized as the canonical pretty-printed JSON text.

use vstd::prelude::*;

use vstd::string::StringExecFns;
use vstd::utf8::{decode_utf8, valid_utf8};

use crate::card::CharaCardV3;
use crate::card::CharacterData;
use crate::card_json::{
    data_from_json, data_json_ok, data_jsonv, data_matches, data_to_json, lookup, v3_from_json,
    v3_json_ok, v3_jsonv, v3_matches, v3_to_json,
};
use crate::json::JsonV;
use crate::json_parse::{json_parse, parse_json};
use crate::json_text::{json_to_string, pp};
use crate::scan::{scan_png, scan_spec, png_sig, CardPayload, ParseError};
use crate::text::string_from_utf8;

verus! {

/// What the standard, padded base64 alphabet decodes a text to, if the text
/// is valid base64.
pub uninterp spec fn b64_decode_of(s: Seq<char>) -> Option<Seq<u8>>;

/// Relies on `base64::engine::general_purpose::STANDARD` and its
/// `Engine::decode`: decoding depends on the input text alone, succeeding
/// exactly on valid standard-alphabet, padded base64.
#[verifier::external_body]
fn b64_decode(s: &str) -> (r: Option<Vec<u8>>)
    ensures
        match r {
            Some(b) => b64_decode_of(s@) == Some(b@),
            None => b64_decode_of(s@) is None,
        },
{
    match base64::Engine::decode(&base64::engine::general_purpose::STANDARD, s) {
        Ok(v) => Some(v),
        Err(_) => None,
    }
}

/// What resolving must yield for the V3 payload text `p`: each decoding step
/// fails with its own error, and on success the returned card is the `data`
/// member of the decoded envelope, the returned text the envelope's
/// canonical JSON.
pub open spec fn v3_outcome(p: Seq<char>, r: Result<(CharacterData, String), ParseError>) -> bool {
    match b64_decode_of(p) {
        None => r == Err::<(CharacterData, String), ParseError>(ParseError::Base64Error),
        Some(b) => if !valid_utf8(b) {
            r == Err::<(CharacterData, String), ParseError>(ParseError::EncodingError)
        } else {
            match json_parse(decode_utf8(b)) {
                None => r matches Err(ParseError::JsonError(m)) && m@
                    == "V3 card payload is not valid JSON"@,
                Some(v) => if !v3_json_ok(v) {
                    r matches Err(ParseError::JsonError(m)) && m@
                        == "V3 card payload does not fit the card shape"@
                } else {
                    r matches Ok((c, s)) && data_matches(c, lookup(v->Obj_0, "data"@)->0)
                        && exists|w: CharaCardV3|
                        #[trigger] v3_matches(w, v) && w.data == c && s@ == pp(v3_jsonv(w), 0)
                },
            }
        },
    }
}

/// What resolving must yield for the V2 payload text `p`.
pub open spec fn v2_outcome(p: Seq<char>, r: Result<(CharacterData, String), ParseError>) -> bool {
    match b64_decode_of(p) {
        None => r == Err::<(CharacterData, String), ParseError>(ParseError::Base64Error),
        Some(b) => if !valid_utf8(b) {
            r == Err::<(CharacterData, String), ParseError>(ParseError::EncodingError)
        } else {
            match json_parse(decode_utf8(b)) {
                None => r matches Err(ParseError::JsonError(m)) && m@
                    == "V2 card payload is not valid JSON"@,
                Some(v) => if !data_json_ok(v) {
                    r matches Err(ParseError::JsonError(m)) && m@
                        == "V2 card payload does not fit the card shape"@
                } else {
                    r matches Ok((c, s)) && data_matches(c, v) && s@ == pp(data_jsonv(c), 0)
                },
            }
        },
    }
}

/// What resolving must yield given both captures: the V3 payload is
/// authoritative whenever present, and with no capture at all the result is
/// `NoCardFound`.
pub open spec fn resolve_outcome(
    v3: Option<Seq<char>>,
    v2: Option<Seq<char>>,
    r: Result<(CharacterData, String), ParseError>,
) -> bool {
    match v3 {
        Some(p) => v3_outcome(p, r),
        None => match v2 {
            Some(p) => v2_outcome(p, r),
            None => r == Err::<(CharacterData, String), ParseError>(ParseError::NoCardFound),
        },
    }
}

/// Decodes the V3 payload text into a card and its canonical JSON.
fn resolve_v3(p: &String) -> (r: Result<(CharacterData, String), ParseError>)
    ensures
        v3_outcome(p@, r),
{
    let bytes = match b64_decode(p.as_str()) {
        Some(b) => b,
        None => {
            return Err(ParseError::Base64Error);
        },
    };
    let text = match string_from_utf8(bytes) {
        Some(t) => t,
        None => {
            return Err(ParseError::EncodingError);
        },
    };
    let doc = match parse_json(text.as_str()) {
        Some(v) => v,
        None => {
            return Err(
                ParseError::JsonError(String::from_str("V3 card payload is not valid JSON")),
            );
        },
    };
    let wrapper = match v3_from_json(&doc) {
        Ok(w) => w,
        Err(_) => {
            return Err(
                ParseError::JsonError(
                    String::from_str("V3 card payload does not fit the card shape"),
                ),
            );
        },
    };
    let encoded = v3_to_json(&wrapper);
    let canonical = json_to_string(&encoded);
    let out = Ok((wrapper.data, canonical));
    proof {
        assert(v3_outcome(p@, out));
    }
    out
}

/// Decodes the V2 payload text into a card and its canonical JSON.
fn resolve_v2(p: &String) -> (r: Result<(CharacterData, String), ParseError>)
    ensures
        v2_outcome(p@, r),
{
    let bytes = match b64_decode(p.as_str()) {
        Some(b) => b,
        None => {
            return Err(ParseError::Base64Error);
        },
    };
    let text = match string_from_utf8(bytes) {
        Some(t) => t,
        None => {
            return Err(ParseError::EncodingError);
        },
    };
    let doc = match parse_json(text.as_str()) {
        Some(v) => v,
        None => {
            return Err(
                ParseError::JsonError(String::from_str("V2 card payload is not valid JSON")),
            );
        },
    };
    let card = match data_from_json(&doc) {
        Ok(c) => c,
        Err(_) => {
            return Err(
                ParseError::JsonError(
                    String::from_str("V2 card payload does not fit the card shape"),
                ),
            );
        },
    };
    let encoded = data_to_json(&card);
    let canonical = json_to_string(&encoded);
    Ok((card, canonical))
}

/// Resolves the captured payloads into one card and its canonical JSON,
/// preferring V3.
pub fn resolve(payloads: &CardPayload) -> (r: Result<(CharacterData, String), ParseError>)
    ensures
        resolve_outcome(payloads.v3_view(), payloads.v2_view(), r),
{
    match payloads {
        CardPayload::Neither => Err(ParseError::NoCardFound),
        CardPayload::V3Only(p) => resolve_v3(p),
        CardPayload::Both(p, _) => resolve_v3(p),
        CardPayload::V2Only(p) => resolve_v2(p),
    }
}

/// Reads the character card embedded in a PNG byte stream: scans for the
/// payload chunks, resolves the authoritative one, and returns the card with
/// its canonical pretty-printed JSON text.
pub fn parse_png(bytes: &[u8]) -> (r: Result<(CharacterData, String), ParseError>)
    ensures
        !png_sig(bytes@) ==> r == Err::<(CharacterData, String), ParseError>(
            ParseError::InvalidFormat,
        ),
        png_sig(bytes@) ==> match scan_spec(bytes@) {
            None => r == Err::<(CharacterData, String), ParseError>(ParseError::TruncatedChunk),
            Some((v3, v2)) => resolve_outcome(v3, v2, r),
        },
{
    let payloads = match scan_png(bytes) {
        Ok(p) => p,
        Err(e) => {
            return Err(e);
        },
    };
    resolve(&payloads)
}

/// The V2 capture never influences the result once a V3 payload exists:
/// whatever outcome is correct beside one V2 capture is correct beside any
/// other.
pub proof fn lemma_v3_wins(
    p: Seq<char>,
    v2a: Option<Seq<char>>,
    v2b: Option<Seq<char>>,
    r: Result<(CharacterData, String), ParseError>,
)
    ensures
        resolve_outcome(Some(p), v2a, r) == resolve_outcome(Some(p), v2b, r),
{
}

} // verus!
