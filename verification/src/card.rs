//! The character-card model.
//!
//! Two generations of the embedded-card convention exist: the flat V2 record
//! and the V3 record, which nests the same data inside a `{spec,
//! spec_version, data}` envelope and adds world-book and extension content.
//! The structs here mirror the JSON shapes; every recognized field has a
//! default (empty text, `false`, `0`, empty list, absent), and every
//! unrecognized member is preserved in an `extra` list so that
//! re-serialization is lossless. A recognized key that appears more than
//! once keeps its first occurrence.

use vstd::prelude::*;

use crate::json::Json;

verus! {

/// The V3 envelope: `spec_id`/`version_tag` hold the JSON members `spec` and
/// `spec_version`.
#[derive(Debug, PartialEq)]
pub struct CharaCardV3 {
    pub spec_id: String,
    pub version_tag: String,
    pub data: CharacterData,
    pub extra: Vec<(String, Json)>,
}

/// The card itself: the flat V2 record, and the `data` member of V3.
#[derive(Debug, PartialEq)]
pub struct CharacterData {
    pub name: String,
    pub description: String,
    pub personality: String,
    pub scenario: String,
    pub first_mes: String,
    pub mes_example: String,
    pub creator_notes: String,
    pub system_prompt: String,
    pub post_history_instructions: String,
    pub creator: String,
    pub character_version: String,
    pub alternate_greetings: Vec<String>,
    pub tags: Vec<String>,
    pub group_only_greetings: Vec<String>,
    pub character_book: Option<CharacterBook>,
    pub extensions: Option<CardExtensions>,
    pub extra: Vec<(String, Json)>,
}

/// The world book: an ordered list of lore entries.
#[derive(Debug, PartialEq)]
pub struct CharacterBook {
    pub entries: Vec<LoreEntry>,
    pub name: String,
    pub description: Option<String>,
    pub scan_depth: Option<i32>,
    pub extra: Vec<(String, Json)>,
}

/// One world-book entry. `insertion_order` defines display order in the
/// report; `extensions` is an opaque JSON value carried along unread.
#[derive(Debug, PartialEq)]
pub struct LoreEntry {
    pub id: i32,
    pub keys: Vec<String>,
    pub secondary_keys: Vec<String>,
    pub comment: String,
    pub content: String,
    pub constant: bool,
    pub selective: bool,
    pub insertion_order: i32,
    pub enabled: bool,
    pub position: String,
    pub use_regex: bool,
    pub extensions: Json,
    pub extra: Vec<(String, Json)>,
}

/// Card extensions: favourite flag, world tag, talkativeness, an optional
/// depth prompt and a list of regex scripts.
#[derive(Debug, PartialEq)]
pub struct CardExtensions {
    pub fav: bool,
    pub world: String,
    pub talkativeness: String,
    pub depth_prompt: Option<DepthPrompt>,
    pub regex_scripts: Vec<RegexScript>,
    pub extra: Vec<(String, Json)>,
}

/// A depth prompt: a prompt injected at a given depth with a given role.
#[derive(Debug, PartialEq)]
pub struct DepthPrompt {
    pub depth: i32,
    pub prompt: String,
    pub role: String,
    pub extra: Vec<(String, Json)>,
}

/// A regex script: find/replace metadata. The JSON members use camel-case
/// keys (`scriptName`, `findRegex`, `replaceString`, `runOnEdit`,
/// `markdownOnly`, `promptOnly`, `minDepth`, `maxDepth`).
#[derive(Debug, PartialEq)]
pub struct RegexScript {
    pub id: String,
    pub script_name: String,
    pub find_regex: String,
    pub replace_string: String,
    pub run_on_edit: bool,
    pub disabled: bool,
    pub markdown_only: bool,
    pub prompt_only: bool,
    pub min_depth: Option<i32>,
    pub max_depth: Option<i32>,
    pub extra: Vec<(String, Json)>,
}

} // verus!
