//! Reader for character cards embedded in PNG images.
//!
//! Chat persona tooling stores a character definition as base64-encoded JSON
//! inside a PNG `tEXt` chunk keyed `chara` (the flat V2 convention) or `ccv3`
//! (the V3 convention with a wrapper envelope). This crate scans the PNG byte
//! stream for those chunks, decodes and validates the payload, maps it onto a
//! typed card model, and renders the card both as canonical pretty-printed
//! JSON and as a human-readable text report.

pub mod card;
pub mod card_json;
pub mod config;
pub mod dec;
pub mod json;
pub mod json_parse;
pub mod json_text;
pub mod laws;
pub mod render;
pub mod resolve;
pub mod round_trip;
pub mod scan;
pub mod util;
pub(crate) mod text;

pub use card::{CardExtensions, CharaCardV3, CharacterBook, CharacterData, DepthPrompt, LoreEntry, RegexScript};
pub use config::{get, Config};
pub use json::Json;
pub use json::JsonV;
pub use render::format_readable_text;
pub use resolve::parse_png;
pub use scan::{CardPayload, ParseError};
pub use util::{parse_command, sanitize, MsgSegment};
