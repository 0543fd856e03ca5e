//! Decoding cards from JSON values and encoding them back.
//!
//! Decoding follows the conventions of card files in the wild: a recognized
//! member that is missing takes its default; a recognized member with the
//! wrong type is an error; `null` clears an optional member; everything
//! unrecognized is kept, in order, in the record's `extra` list. Encoding
//! writes the recognized members in their fixed order and then the kept
//! extras, so a decode/encode pair is lossless.

use vstd::prelude::*;

use crate::card::{
    CardExtensions, CharaCardV3, CharacterBook, CharacterData, DepthPrompt, LoreEntry, RegexScript,
};
use crate::dec::{all_digits, dec_val, parse_digits_u32};
use crate::json::{clone_json, pair_views_of, Json, JsonV};
use crate::text::{chars_of, chars_to_string, str_eq};
use vstd::string::StringExecFns;

verus! {

/// The value of the first member with the given key, if any.
pub open spec fn lookup(ps: Seq<(Seq<char>, JsonV)>, key: Seq<char>) -> Option<JsonV>
    decreases ps.len(),
{
    if ps.len() == 0 {
        None
    } else if ps[0].0 == key {
        Some(ps[0].1)
    } else {
        lookup(ps.drop_first(), key)
    }
}

/// Which record's recognized key set to use.
#[derive(Clone, Copy, Debug, PartialEq)]
pub enum Record {
    Envelope,
    Data,
    Book,
    Entry,
    Ext,
    Depth,
    Script,
}

/// Whether `k` is a recognized member key of the given record.
pub open spec fn known_key(o: Record, k: Seq<char>) -> bool {
    match o {
        Record::Envelope => k == "spec"@ || k == "spec_version"@ || k == "data"@,
        Record::Data => k == "name"@ || k == "description"@ || k == "personality"@ || k
            == "scenario"@ || k == "first_mes"@ || k == "mes_example"@ || k == "creator_notes"@
            || k == "system_prompt"@ || k == "post_history_instructions"@ || k == "creator"@ || k
            == "character_version"@ || k == "alternate_greetings"@ || k == "tags"@ || k
            == "group_only_greetings"@ || k == "character_book"@ || k == "extensions"@,
        Record::Book => k == "entries"@ || k == "name"@ || k == "description"@ || k
            == "scan_depth"@,
        Record::Entry => k == "id"@ || k == "keys"@ || k == "secondary_keys"@ || k == "comment"@
            || k == "content"@ || k == "constant"@ || k == "selective"@ || k == "insertion_order"@
            || k == "enabled"@ || k == "position"@ || k == "use_regex"@ || k == "extensions"@,
        Record::Ext => k == "fav"@ || k == "world"@ || k == "talkativeness"@ || k
            == "depth_prompt"@ || k == "regex_scripts"@,
        Record::Depth => k == "depth"@ || k == "prompt"@ || k == "role"@,
        Record::Script => k == "id"@ || k == "scriptName"@ || k == "findRegex"@ || k
            == "replaceString"@ || k == "runOnEdit"@ || k == "disabled"@ || k == "markdownOnly"@
            || k == "promptOnly"@ || k == "minDepth"@ || k == "maxDepth"@,
    }
}

/// The members of `ps` whose keys the record does not recognize, in order.
pub open spec fn extras_of(ps: Seq<(Seq<char>, JsonV)>, o: Record) -> Seq<(Seq<char>, JsonV)>
    decreases ps.len(),
{
    if ps.len() == 0 {
        Seq::empty()
    } else {
        let rest = extras_of(ps.drop_last(), o);
        if known_key(o, ps.last().0) {
            rest
        } else {
            rest.push(ps.last())
        }
    }
}

/// A text member: missing means empty, anything but a string is an error.
pub open spec fn str_field_ok(lk: Option<JsonV>) -> bool {
    match lk {
        None => true,
        Some(v) => v is Str,
    }
}

pub open spec fn str_field_val(lk: Option<JsonV>) -> Seq<char> {
    match lk {
        Some(JsonV::Str(t)) => t,
        _ => Seq::empty(),
    }
}

/// A flag member: missing means `false`, anything but a bool is an error.
pub open spec fn bool_field_ok(lk: Option<JsonV>) -> bool {
    match lk {
        None => true,
        Some(v) => v is Bool,
    }
}

pub open spec fn bool_field_val(lk: Option<JsonV>) -> bool {
    match lk {
        Some(JsonV::Bool(b)) => b,
        _ => false,
    }
}

/// The integer a number token denotes, when it is a plain (sign-and-digits)
/// token whose value fits an `i32`.
pub open spec fn int_of_token(t: Seq<char>) -> Option<int> {
    if t.len() >= 1 && t[0] == '-' {
        let d = t.subrange(1, t.len() as int);
        if d.len() >= 1 && all_digits(d) && dec_val(d) <= 0x8000_0000 {
            Some(-(dec_val(d) as int))
        } else {
            None
        }
    } else if t.len() >= 1 && all_digits(t) && dec_val(t) <= 0x7FFF_FFFF {
        Some(dec_val(t) as int)
    } else {
        None
    }
}

/// An integer member: missing means `0`; a non-number, a non-integer token
/// or a value outside `i32` is an error.
pub open spec fn i32_field_ok(lk: Option<JsonV>) -> bool {
    match lk {
        None => true,
        Some(JsonV::Num(t)) => int_of_token(t) is Some,
        Some(_) => false,
    }
}

pub open spec fn i32_field_val(lk: Option<JsonV>) -> int {
    match lk {
        Some(JsonV::Num(t)) => int_of_token(t)->0,
        _ => 0,
    }
}

/// An optional integer member: missing or `null` means absent.
pub open spec fn opt_i32_field_ok(lk: Option<JsonV>) -> bool {
    match lk {
        None => true,
        Some(JsonV::Null) => true,
        Some(JsonV::Num(t)) => int_of_token(t) is Some,
        Some(_) => false,
    }
}

pub open spec fn opt_i32_field_val(lk: Option<JsonV>) -> Option<int> {
    match lk {
        Some(JsonV::Num(t)) => int_of_token(t),
        _ => None,
    }
}

/// An optional text member: missing or `null` means absent.
pub open spec fn opt_str_field_ok(lk: Option<JsonV>) -> bool {
    match lk {
        None => true,
        Some(JsonV::Null) => true,
        Some(JsonV::Str(_)) => true,
        Some(_) => false,
    }
}

pub open spec fn opt_str_field_val(lk: Option<JsonV>) -> Option<Seq<char>> {
    match lk {
        Some(JsonV::Str(t)) => Some(t),
        _ => None,
    }
}

/// The texts of a sequence of strings.
pub open spec fn str_views(v: Seq<String>) -> Seq<Seq<char>> {
    Seq::new(
        v.len(),
        |i: int|
            if 0 <= i < v.len() {
                v[i]@
            } else {
                Seq::empty()
            },
    )
}

/// A list-of-text member: missing means empty; the member must be an array
/// of strings.
pub open spec fn strlist_field_ok(lk: Option<JsonV>) -> bool {
    match lk {
        None => true,
        Some(JsonV::Arr(items)) => forall|i: int|
            0 <= i < items.len() ==> (#[trigger] items[i]) is Str,
        Some(_) => false,
    }
}

pub open spec fn strlist_field_val(lk: Option<JsonV>) -> Seq<Seq<char>> {
    match lk {
        Some(JsonV::Arr(items)) => Seq::new(
            items.len(),
            |i: int|
                if 0 <= i < items.len() {
                    items[i]->Str_0
                } else {
                    Seq::empty()
                },
        ),
        _ => Seq::empty(),
    }
}

/// A member kept as-is: missing means `null`.
pub open spec fn any_field_val(lk: Option<JsonV>) -> JsonV {
    match lk {
        None => JsonV::Null,
        Some(v) => v,
    }
}

/// Finds the first member with the given key.
fn lookup_exec(ps: &Vec<(String, Json)>, key: &str) -> (r: Option<usize>)
    ensures
        match r {
            Some(i) => i < ps@.len() && ps@[i as int].0@ == key@ && lookup(
                pair_views_of(ps@),
                key@,
            ) == Some(pair_views_of(ps@)[i as int].1),
            None => lookup(pair_views_of(ps@), key@) is None,
        },
{
    let ghost pvs = pair_views_of(ps@);
    proof {
        assert(pvs.subrange(0, pvs.len() as int) =~= pvs);
    }
    let mut i: usize = 0;
    while i < ps.len()
        invariant
            i <= ps@.len(),
            pvs == pair_views_of(ps@),
            lookup(pvs, key@) == lookup(pvs.subrange(i as int, pvs.len() as int), key@),
        decreases ps@.len() - i,
    {
        let hit = str_eq(ps[i].0.as_str(), key);
        proof {
            assert(pvs.subrange(i as int, pvs.len() as int)[0] == pvs[i as int]);
            assert(pvs.subrange(i as int, pvs.len() as int).drop_first() =~= pvs.subrange(
                i + 1,
                pvs.len() as int,
            ));
        }
        if hit {
            return Some(i);
        }
        i = i + 1;
    }
    proof {
        assert(pvs.subrange(ps@.len() as int, pvs.len() as int).len() == 0);
    }
    None
}

/// Reads an `i32` from a number token, per [`int_of_token`].
#[verifier::loop_isolation(false)]
fn parse_i32_token(t: &String) -> (r: Option<i32>)
    ensures
        match r {
            Some(v) => int_of_token(t@) == Some(v as int),
            None => int_of_token(t@) is None,
        },
{
    let tv = chars_of(t.as_str());
    let n = tv.len();
    if n == 0 {
        return None;
    }
    let neg = tv[0] == '-';
    let from: usize = if neg {
        1
    } else {
        0
    };
    if from >= n {
        return None;
    }
    let ghost d = if neg {
        t@.subrange(1, t@.len() as int)
    } else {
        t@
    };
    let mut k: usize = from;
    while k < n
        invariant
            from <= k <= n,
            n == tv@.len(),
            tv@ == t@,
            forall|q: int| from <= q < k ==> crate::dec::is_digit(#[trigger] tv@[q]),
        decreases n - k,
    {
        let c = tv[k];
        let u = c as u32;
        if !(48 <= u && u <= 57) {
            proof {
                if neg {
                    assert(d[k - 1] == t@[k as int]);
                    assert(!all_digits(d));
                } else {
                    assert(!all_digits(t@));
                }
            }
            return None;
        }
        k = k + 1;
    }
    proof {
        if neg {
            assert(forall|q: int| 0 <= q < d.len() ==> d[q] == t@[q + 1]);
            assert(all_digits(d));
        } else {
            assert(all_digits(d));
        }
        if !neg {
            assert(d =~= tv@.subrange(0, n as int));
        } else {
            assert(d =~= tv@.subrange(1, n as int));
        }
    }
    let v = match parse_digits_u32(&tv, from, n) {
        Some(v) => v,
        None => {
            proof {
                assert(dec_val(d) > u32::MAX);
            }
            return None;
        },
    };
    if neg {
        if v > 0x8000_0000 {
            return None;
        }
        if v == 0x8000_0000 {
            return Some(i32::MIN);
        }
        let out: i32 = -(v as i32);
        return Some(out);
    }
    if v > 0x7FFF_FFFF {
        return None;
    }
    Some(v as i32)
}

} // verus!

verus! {

/// `Option<i32>` as mathematical integers.
pub open spec fn opt_i32_views(o: Option<i32>) -> Option<int> {
    match o {
        None => None,
        Some(v) => Some(v as int),
    }
}

/// `Option<String>` as text.
pub open spec fn opt_str_views(o: Option<String>) -> Option<Seq<char>> {
    match o {
        None => None,
        Some(s) => Some(s@),
    }
}

/// Reads a text member.
fn get_str(ps: &Vec<(String, Json)>, key: &str) -> (r: Result<String, ()>)
    ensures
        ({
            let lk = lookup(pair_views_of(ps@), key@);
            match r {
                Ok(s) => str_field_ok(lk) && s@ == str_field_val(lk),
                Err(_) => !str_field_ok(lk),
            }
        }),
{
    match lookup_exec(ps, key) {
        None => Ok(String::new()),
        Some(i) => match &ps[i].1 {
            Json::Str(s) => Ok(s.clone()),
            _ => Err(()),
        },
    }
}

/// Reads an optional text member.
fn get_opt_str(ps: &Vec<(String, Json)>, key: &str) -> (r: Result<Option<String>, ()>)
    ensures
        ({
            let lk = lookup(pair_views_of(ps@), key@);
            match r {
                Ok(s) => opt_str_field_ok(lk) && opt_str_views(s) == opt_str_field_val(lk),
                Err(_) => !opt_str_field_ok(lk),
            }
        }),
{
    match lookup_exec(ps, key) {
        None => Ok(None),
        Some(i) => match &ps[i].1 {
            Json::Str(s) => Ok(Some(s.clone())),
            Json::Null => Ok(None),
            _ => Err(()),
        },
    }
}

/// Reads a flag member.
fn get_bool(ps: &Vec<(String, Json)>, key: &str) -> (r: Result<bool, ()>)
    ensures
        ({
            let lk = lookup(pair_views_of(ps@), key@);
            match r {
                Ok(b) => bool_field_ok(lk) && b == bool_field_val(lk),
                Err(_) => !bool_field_ok(lk),
            }
        }),
{
    match lookup_exec(ps, key) {
        None => Ok(false),
        Some(i) => match &ps[i].1 {
            Json::Bool(b) => Ok(*b),
            _ => Err(()),
        },
    }
}

/// Reads an integer member.
fn get_i32(ps: &Vec<(String, Json)>, key: &str) -> (r: Result<i32, ()>)
    ensures
        ({
            let lk = lookup(pair_views_of(ps@), key@);
            match r {
                Ok(v) => i32_field_ok(lk) && v as int == i32_field_val(lk),
                Err(_) => !i32_field_ok(lk),
            }
        }),
{
    match lookup_exec(ps, key) {
        None => Ok(0),
        Some(i) => match &ps[i].1 {
            Json::Num(t) => match parse_i32_token(t) {
                Some(v) => Ok(v),
                None => Err(()),
            },
            _ => Err(()),
        },
    }
}

/// Reads an optional integer member.
fn get_opt_i32(ps: &Vec<(String, Json)>, key: &str) -> (r: Result<Option<i32>, ()>)
    ensures
        ({
            let lk = lookup(pair_views_of(ps@), key@);
            match r {
                Ok(v) => opt_i32_field_ok(lk) && opt_i32_views(v) == opt_i32_field_val(lk),
                Err(_) => !opt_i32_field_ok(lk),
            }
        }),
{
    match lookup_exec(ps, key) {
        None => Ok(None),
        Some(i) => match &ps[i].1 {
            Json::Num(t) => match parse_i32_token(t) {
                Some(v) => Ok(Some(v)),
                None => Err(()),
            },
            Json::Null => Ok(None),
            _ => Err(()),
        },
    }
}

/// Reads a list-of-text member.
#[verifier::loop_isolation(false)]
fn get_strlist(ps: &Vec<(String, Json)>, key: &str) -> (r: Result<Vec<String>, ()>)
    ensures
        ({
            let lk = lookup(pair_views_of(ps@), key@);
            match r {
                Ok(v) => strlist_field_ok(lk) && str_views(v@) == strlist_field_val(lk),
                Err(_) => !strlist_field_ok(lk),
            }
        }),
{
    match lookup_exec(ps, key) {
        None => {
            let out: Vec<String> = Vec::new();
            proof {
                assert(str_views(out@) =~= strlist_field_val(
                    lookup(pair_views_of(ps@), key@),
                ));
            }
            Ok(out)
        },
        Some(i) => {
            let ghost lk = lookup(pair_views_of(ps@), key@);
            proof {
                assert(lk == Some(ps@[i as int].1@));
            }
            match &ps[i].1 {
                Json::Arr(items) => {
                    let ghost iv = ps@[i as int].1@->Arr_0;
                    proof {
                        assert(iv =~= crate::json::views_of(items@));
                    }
                    let mut out: Vec<String> = Vec::new();
                    let mut k: usize = 0;
                    while k < items.len()
                        invariant
                            k <= items@.len(),
                            iv == crate::json::views_of(items@),
                            out@.len() == k as int,
                            forall|q: int| 0 <= q < k ==> (#[trigger] items@[q].jv()) is Str,
                            forall|q: int|
                                0 <= q < k ==> #[trigger] out@[q]@ == items@[q].jv()->Str_0,
                        decreases items@.len() - k,
                    {
                        match &items[k] {
                            Json::Str(s) => {
                                out.push(s.clone());
                            },
                            _ => {
                                proof {
                                    assert(iv[k as int] == items@[k as int].jv());
                                    assert(!(iv[k as int] is Str));
                                    assert(!strlist_field_ok(lk));
                                }
                                return Err(());
                            },
                        }
                        k = k + 1;
                    }
                    proof {
                        assert(forall|q: int|
                            0 <= q < iv.len() ==> (#[trigger] iv[q]) == items@[q].jv());
                        assert(strlist_field_ok(lk));
                        assert(str_views(out@) =~= strlist_field_val(lk));
                    }
                    Ok(out)
                },
                _ => {
                    proof {
                        assert(!strlist_field_ok(lk));
                    }
                    Err(())
                },
            }
        },
    }
}

/// Reads a member kept as-is (`null` when missing).
fn get_any(ps: &Vec<(String, Json)>, key: &str) -> (r: Json)
    ensures
        r@ == any_field_val(lookup(pair_views_of(ps@), key@)),
{
    match lookup_exec(ps, key) {
        None => Json::Null,
        Some(i) => clone_json(&ps[i].1),
    }
}

/// Whether `k` is a recognized member key of the record.
fn is_known_key(o: Record, k: &str) -> (r: bool)
    ensures
        r == known_key(o, k@),
{
    match o {
        Record::Envelope => str_eq(k, "spec") || str_eq(k, "spec_version") || str_eq(k, "data"),
        Record::Data => str_eq(k, "name") || str_eq(k, "description") || str_eq(k, "personality")
            || str_eq(k, "scenario") || str_eq(k, "first_mes") || str_eq(k, "mes_example")
            || str_eq(k, "creator_notes") || str_eq(k, "system_prompt") || str_eq(
            k,
            "post_history_instructions",
        ) || str_eq(k, "creator") || str_eq(k, "character_version") || str_eq(
            k,
            "alternate_greetings",
        ) || str_eq(k, "tags") || str_eq(k, "group_only_greetings") || str_eq(
            k,
            "character_book",
        ) || str_eq(k, "extensions"),
        Record::Book => str_eq(k, "entries") || str_eq(k, "name") || str_eq(k, "description")
            || str_eq(k, "scan_depth"),
        Record::Entry => str_eq(k, "id") || str_eq(k, "keys") || str_eq(k, "secondary_keys")
            || str_eq(k, "comment") || str_eq(k, "content") || str_eq(k, "constant") || str_eq(
            k,
            "selective",
        ) || str_eq(k, "insertion_order") || str_eq(k, "enabled") || str_eq(k, "position")
            || str_eq(k, "use_regex") || str_eq(k, "extensions"),
        Record::Ext => str_eq(k, "fav") || str_eq(k, "world") || str_eq(k, "talkativeness")
            || str_eq(k, "depth_prompt") || str_eq(k, "regex_scripts"),
        Record::Depth => str_eq(k, "depth") || str_eq(k, "prompt") || str_eq(k, "role"),
        Record::Script => str_eq(k, "id") || str_eq(k, "scriptName") || str_eq(k, "findRegex")
            || str_eq(k, "replaceString") || str_eq(k, "runOnEdit") || str_eq(k, "disabled")
            || str_eq(k, "markdownOnly") || str_eq(k, "promptOnly") || str_eq(k, "minDepth")
            || str_eq(k, "maxDepth"),
    }
}

/// Collects the unrecognized members, in order.
#[verifier::loop_isolation(false)]
fn collect_extras(ps: &Vec<(String, Json)>, o: Record) -> (r: Vec<(String, Json)>)
    ensures
        pair_views_of(r@) == extras_of(pair_views_of(ps@), o),
{
    let ghost pvs = pair_views_of(ps@);
    let mut out: Vec<(String, Json)> = Vec::new();
    let mut i: usize = 0;
    proof {
        assert(pvs.subrange(0, 0) =~= Seq::<(Seq<char>, JsonV)>::empty());
        assert(pair_views_of(out@) =~= extras_of(pvs.subrange(0, 0), o));
    }
    while i < ps.len()
        invariant
            i <= ps@.len(),
            pair_views_of(out@) == extras_of(pvs.subrange(0, i as int), o),
        decreases ps@.len() - i,
    {
        let known = is_known_key(o, ps[i].0.as_str());
        let ghost out0 = out@;
        if !known {
            let key = ps[i].0.clone();
            let val = clone_json(&ps[i].1);
            out.push((key, val));
        }
        proof {
            assert(pvs.subrange(0, i + 1).drop_last() =~= pvs.subrange(0, i as int));
            assert(pvs.subrange(0, i + 1).last() == pvs[i as int]);
            assert(pvs[i as int].0 == ps@[i as int].0@);
            if !known {
                assert(pair_views_of(out@) =~= pair_views_of(out0).push(
                    (ps@[i as int].0@, ps@[i as int].1@),
                ));
                assert(pair_views_of(out@) =~= extras_of(pvs.subrange(0, i + 1), o));
            } else {
                assert(pair_views_of(out@) =~= extras_of(pvs.subrange(0, i + 1), o));
            }
        }
        i = i + 1;
    }
    proof {
        assert(pvs.subrange(0, ps@.len() as int) =~= pvs);
    }
    out
}

} // verus!

verus! {

/// Whether a JSON value has the depth-prompt shape.
pub open spec fn depth_json_ok(v: JsonV) -> bool {
    &&& v is Obj
    &&& i32_field_ok(lookup(v->Obj_0, "depth"@))
    &&& str_field_ok(lookup(v->Obj_0, "prompt"@))
    &&& str_field_ok(lookup(v->Obj_0, "role"@))
}

/// How a decoded depth prompt relates to its JSON source.
pub open spec fn depth_matches(d: DepthPrompt, v: JsonV) -> bool {
    let ps = v->Obj_0;
    &&& d.depth as int == i32_field_val(lookup(ps, "depth"@))
    &&& d.prompt@ == str_field_val(lookup(ps, "prompt"@))
    &&& d.role@ == str_field_val(lookup(ps, "role"@))
    &&& pair_views_of(d.extra@) == extras_of(ps, Record::Depth)
}

/// Decodes a depth prompt.
pub fn depth_from_json(v: &Json) -> (r: Result<DepthPrompt, ()>)
    ensures
        match r {
            Ok(d) => depth_json_ok(v@) && depth_matches(d, v@),
            Err(_) => !depth_json_ok(v@),
        },
{
    let ps = match v {
        Json::Obj(ps) => ps,
        _ => {
            return Err(());
        },
    };
    proof {
        assert(v@->Obj_0 =~= pair_views_of(ps@));
    }
    let depth = match get_i32(ps, "depth") {
        Ok(x) => x,
        Err(_) => {
            return Err(());
        },
    };
    let prompt = match get_str(ps, "prompt") {
        Ok(x) => x,
        Err(_) => {
            return Err(());
        },
    };
    let role = match get_str(ps, "role") {
        Ok(x) => x,
        Err(_) => {
            return Err(());
        },
    };
    let extra = collect_extras(ps, Record::Depth);
    Ok(DepthPrompt { depth, prompt, role, extra })
}

/// Whether a JSON value has the regex-script shape.
pub open spec fn script_json_ok(v: JsonV) -> bool {
    &&& v is Obj
    &&& str_field_ok(lookup(v->Obj_0, "id"@))
    &&& str_field_ok(lookup(v->Obj_0, "scriptName"@))
    &&& str_field_ok(lookup(v->Obj_0, "findRegex"@))
    &&& str_field_ok(lookup(v->Obj_0, "replaceString"@))
    &&& bool_field_ok(lookup(v->Obj_0, "runOnEdit"@))
    &&& bool_field_ok(lookup(v->Obj_0, "disabled"@))
    &&& bool_field_ok(lookup(v->Obj_0, "markdownOnly"@))
    &&& bool_field_ok(lookup(v->Obj_0, "promptOnly"@))
    &&& opt_i32_field_ok(lookup(v->Obj_0, "minDepth"@))
    &&& opt_i32_field_ok(lookup(v->Obj_0, "maxDepth"@))
}

/// How a decoded regex script relates to its JSON source.
pub open spec fn script_matches(s: RegexScript, v: JsonV) -> bool {
    let ps = v->Obj_0;
    &&& s.id@ == str_field_val(lookup(ps, "id"@))
    &&& s.script_name@ == str_field_val(lookup(ps, "scriptName"@))
    &&& s.find_regex@ == str_field_val(lookup(ps, "findRegex"@))
    &&& s.replace_string@ == str_field_val(lookup(ps, "replaceString"@))
    &&& s.run_on_edit == bool_field_val(lookup(ps, "runOnEdit"@))
    &&& s.disabled == bool_field_val(lookup(ps, "disabled"@))
    &&& s.markdown_only == bool_field_val(lookup(ps, "markdownOnly"@))
    &&& s.prompt_only == bool_field_val(lookup(ps, "promptOnly"@))
    &&& opt_i32_views(s.min_depth) == opt_i32_field_val(lookup(ps, "minDepth"@))
    &&& opt_i32_views(s.max_depth) == opt_i32_field_val(lookup(ps, "maxDepth"@))
    &&& pair_views_of(s.extra@) == extras_of(ps, Record::Script)
}

/// Decodes a regex script.
pub fn script_from_json(v: &Json) -> (r: Result<RegexScript, ()>)
    ensures
        match r {
            Ok(s) => script_json_ok(v@) && script_matches(s, v@),
            Err(_) => !script_json_ok(v@),
        },
{
    let ps = match v {
        Json::Obj(ps) => ps,
        _ => {
            return Err(());
        },
    };
    proof {
        assert(v@->Obj_0 =~= pair_views_of(ps@));
    }
    let id = match get_str(ps, "id") {
        Ok(x) => x,
        Err(_) => {
            return Err(());
        },
    };
    let script_name = match get_str(ps, "scriptName") {
        Ok(x) => x,
        Err(_) => {
            return Err(());
        },
    };
    let find_regex = match get_str(ps, "findRegex") {
        Ok(x) => x,
        Err(_) => {
            return Err(());
        },
    };
    let replace_string = match get_str(ps, "replaceString") {
        Ok(x) => x,
        Err(_) => {
            return Err(());
        },
    };
    let run_on_edit = match get_bool(ps, "runOnEdit") {
        Ok(x) => x,
        Err(_) => {
            return Err(());
        },
    };
    let disabled = match get_bool(ps, "disabled") {
        Ok(x) => x,
        Err(_) => {
            return Err(());
        },
    };
    let markdown_only = match get_bool(ps, "markdownOnly") {
        Ok(x) => x,
        Err(_) => {
            return Err(());
        },
    };
    let prompt_only = match get_bool(ps, "promptOnly") {
        Ok(x) => x,
        Err(_) => {
            return Err(());
        },
    };
    let min_depth = match get_opt_i32(ps, "minDepth") {
        Ok(x) => x,
        Err(_) => {
            return Err(());
        },
    };
    let max_depth = match get_opt_i32(ps, "maxDepth") {
        Ok(x) => x,
        Err(_) => {
            return Err(());
        },
    };
    let extra = collect_extras(ps, Record::Script);
    Ok(
        RegexScript {
            id,
            script_name,
            find_regex,
            replace_string,
            run_on_edit,
            disabled,
            markdown_only,
            prompt_only,
            min_depth,
            max_depth,
            extra,
        },
    )
}

/// Whether a JSON value has the lore-entry shape.
pub open spec fn entry_json_ok(v: JsonV) -> bool {
    &&& v is Obj
    &&& i32_field_ok(lookup(v->Obj_0, "id"@))
    &&& strlist_field_ok(lookup(v->Obj_0, "keys"@))
    &&& strlist_field_ok(lookup(v->Obj_0, "secondary_keys"@))
    &&& str_field_ok(lookup(v->Obj_0, "comment"@))
    &&& str_field_ok(lookup(v->Obj_0, "content"@))
    &&& bool_field_ok(lookup(v->Obj_0, "constant"@))
    &&& bool_field_ok(lookup(v->Obj_0, "selective"@))
    &&& i32_field_ok(lookup(v->Obj_0, "insertion_order"@))
    &&& bool_field_ok(lookup(v->Obj_0, "enabled"@))
    &&& str_field_ok(lookup(v->Obj_0, "position"@))
    &&& bool_field_ok(lookup(v->Obj_0, "use_regex"@))
}

/// How a decoded lore entry relates to its JSON source.
pub open spec fn entry_matches(e: LoreEntry, v: JsonV) -> bool {
    let ps = v->Obj_0;
    &&& e.id as int == i32_field_val(lookup(ps, "id"@))
    &&& str_views(e.keys@) == strlist_field_val(lookup(ps, "keys"@))
    &&& str_views(e.secondary_keys@) == strlist_field_val(lookup(ps, "secondary_keys"@))
    &&& e.comment@ == str_field_val(lookup(ps, "comment"@))
    &&& e.content@ == str_field_val(lookup(ps, "content"@))
    &&& e.constant == bool_field_val(lookup(ps, "constant"@))
    &&& e.selective == bool_field_val(lookup(ps, "selective"@))
    &&& e.insertion_order as int == i32_field_val(lookup(ps, "insertion_order"@))
    &&& e.enabled == bool_field_val(lookup(ps, "enabled"@))
    &&& e.position@ == str_field_val(lookup(ps, "position"@))
    &&& e.use_regex == bool_field_val(lookup(ps, "use_regex"@))
    &&& e.extensions@ == any_field_val(lookup(ps, "extensions"@))
    &&& pair_views_of(e.extra@) == extras_of(ps, Record::Entry)
}

/// Decodes a lore entry.
pub fn entry_from_json(v: &Json) -> (r: Result<LoreEntry, ()>)
    ensures
        match r {
            Ok(e) => entry_json_ok(v@) && entry_matches(e, v@),
            Err(_) => !entry_json_ok(v@),
        },
{
    let ps = match v {
        Json::Obj(ps) => ps,
        _ => {
            return Err(());
        },
    };
    proof {
        assert(v@->Obj_0 =~= pair_views_of(ps@));
    }
    let id = match get_i32(ps, "id") {
        Ok(x) => x,
        Err(_) => {
            return Err(());
        },
    };
    let keys = match get_strlist(ps, "keys") {
        Ok(x) => x,
        Err(_) => {
            return Err(());
        },
    };
    let secondary_keys = match get_strlist(ps, "secondary_keys") {
        Ok(x) => x,
        Err(_) => {
            return Err(());
        },
    };
    let comment = match get_str(ps, "comment") {
        Ok(x) => x,
        Err(_) => {
            return Err(());
        },
    };
    let content = match get_str(ps, "content") {
        Ok(x) => x,
        Err(_) => {
            return Err(());
        },
    };
    let constant = match get_bool(ps, "constant") {
        Ok(x) => x,
        Err(_) => {
            return Err(());
        },
    };
    let selective = match get_bool(ps, "selective") {
        Ok(x) => x,
        Err(_) => {
            return Err(());
        },
    };
    let insertion_order = match get_i32(ps, "insertion_order") {
        Ok(x) => x,
        Err(_) => {
            return Err(());
        },
    };
    let enabled = match get_bool(ps, "enabled") {
        Ok(x) => x,
        Err(_) => {
            return Err(());
        },
    };
    let position = match get_str(ps, "position") {
        Ok(x) => x,
        Err(_) => {
            return Err(());
        },
    };
    let use_regex = match get_bool(ps, "use_regex") {
        Ok(x) => x,
        Err(_) => {
            return Err(());
        },
    };
    let extensions = get_any(ps, "extensions");
    let extra = collect_extras(ps, Record::Entry);
    Ok(
        LoreEntry {
            id,
            keys,
            secondary_keys,
            comment,
            content,
            constant,
            selective,
            insertion_order,
            enabled,
            position,
            use_regex,
            extensions,
            extra,
        },
    )
}

} // verus!

verus! {

/// Whether a JSON value has the card-extensions shape.
pub open spec fn ext_json_ok(v: JsonV) -> bool {
    &&& v is Obj
    &&& bool_field_ok(lookup(v->Obj_0, "fav"@))
    &&& str_field_ok(lookup(v->Obj_0, "world"@))
    &&& str_field_ok(lookup(v->Obj_0, "talkativeness"@))
    &&& match lookup(v->Obj_0, "depth_prompt"@) {
        None => true,
        Some(JsonV::Null) => true,
        Some(o) => depth_json_ok(o),
    }
    &&& match lookup(v->Obj_0, "regex_scripts"@) {
        None => true,
        Some(JsonV::Arr(items)) => forall|i: int|
            0 <= i < items.len() ==> script_json_ok(#[trigger] items[i]),
        Some(_) => false,
    }
}

/// How decoded card extensions relate to their JSON source.
pub open spec fn ext_matches(x: CardExtensions, v: JsonV) -> bool {
    let ps = v->Obj_0;
    &&& x.fav == bool_field_val(lookup(ps, "fav"@))
    &&& x.world@ == str_field_val(lookup(ps, "world"@))
    &&& x.talkativeness@ == str_field_val(lookup(ps, "talkativeness"@))
    &&& match lookup(ps, "depth_prompt"@) {
        None => x.depth_prompt is None,
        Some(JsonV::Null) => x.depth_prompt is None,
        Some(o) => x.depth_prompt is Some && depth_matches(x.depth_prompt->0, o),
    }
    &&& match lookup(ps, "regex_scripts"@) {
        None => x.regex_scripts@.len() == 0,
        Some(JsonV::Arr(items)) => x.regex_scripts@.len() == items.len() && forall|i: int|
            0 <= i < items.len() ==> script_matches(
                #[trigger] x.regex_scripts@[i],
                items[i],
            ),
        Some(_) => true,
    }
    &&& pair_views_of(x.extra@) == extras_of(ps, Record::Ext)
}

/// Decodes card extensions.
#[verifier::loop_isolation(false)]
pub fn ext_from_json(v: &Json) -> (r: Result<CardExtensions, ()>)
    ensures
        match r {
            Ok(x) => ext_json_ok(v@) && ext_matches(x, v@),
            Err(_) => !ext_json_ok(v@),
        },
{
    let ps = match v {
        Json::Obj(ps) => ps,
        _ => {
            return Err(());
        },
    };
    proof {
        assert(v@->Obj_0 =~= pair_views_of(ps@));
    }
    let fav = match get_bool(ps, "fav") {
        Ok(x) => x,
        Err(_) => {
            return Err(());
        },
    };
    let world = match get_str(ps, "world") {
        Ok(x) => x,
        Err(_) => {
            return Err(());
        },
    };
    let talkativeness = match get_str(ps, "talkativeness") {
        Ok(x) => x,
        Err(_) => {
            return Err(());
        },
    };
    let depth_prompt = match lookup_exec(ps, "depth_prompt") {
        None => None,
        Some(i) => match &ps[i].1 {
            Json::Null => None,
            _ => match depth_from_json(&ps[i].1) {
                Ok(d) => Some(d),
                Err(_) => {
                    return Err(());
                },
            },
        },
    };
    let regex_scripts = match lookup_exec(ps, "regex_scripts") {
        None => Vec::new(),
        Some(i) => match &ps[i].1 {
            Json::Arr(items) => {
                let ghost iv = crate::json::views_of(items@);
                proof {
                    assert(ps@[i as int].1@->Arr_0 =~= iv);
                }
                let mut out: Vec<RegexScript> = Vec::new();
                let mut k: usize = 0;
                while k < items.len()
                    invariant
                        k <= items@.len(),
                        iv == crate::json::views_of(items@),
                        out@.len() == k as int,
                        forall|q: int| 0 <= q < k ==> script_json_ok(#[trigger] iv[q]),
                        forall|q: int|
                            0 <= q < k ==> script_matches(#[trigger] out@[q], iv[q]),
                    decreases items@.len() - k,
                {
                    match script_from_json(&items[k]) {
                        Ok(sc) => {
                            proof {
                                assert(iv[k as int] == items@[k as int]@);
                            }
                            out.push(sc);
                        },
                        Err(_) => {
                            proof {
                                assert(iv[k as int] == items@[k as int]@);
                                assert(!ext_json_ok(v@));
                            }
                            return Err(());
                        },
                    }
                    k = k + 1;
                }
                out
            },
            _ => {
                return Err(());
            },
        },
    };
    let extra = collect_extras(ps, Record::Ext);
    Ok(CardExtensions { fav, world, talkativeness, depth_prompt, regex_scripts, extra })
}

/// Whether a JSON value has the character-book shape.
pub open spec fn book_json_ok(v: JsonV) -> bool {
    &&& v is Obj
    &&& match lookup(v->Obj_0, "entries"@) {
        None => true,
        Some(JsonV::Arr(items)) => forall|i: int|
            0 <= i < items.len() ==> entry_json_ok(#[trigger] items[i]),
        Some(_) => false,
    }
    &&& str_field_ok(lookup(v->Obj_0, "name"@))
    &&& opt_str_field_ok(lookup(v->Obj_0, "description"@))
    &&& opt_i32_field_ok(lookup(v->Obj_0, "scan_depth"@))
}

/// How a decoded character book relates to its JSON source.
pub open spec fn book_matches(b: CharacterBook, v: JsonV) -> bool {
    let ps = v->Obj_0;
    &&& match lookup(ps, "entries"@) {
        None => b.entries@.len() == 0,
        Some(JsonV::Arr(items)) => b.entries@.len() == items.len() && forall|i: int|
            0 <= i < items.len() ==> entry_matches(#[trigger] b.entries@[i], items[i]),
        Some(_) => true,
    }
    &&& b.name@ == str_field_val(lookup(ps, "name"@))
    &&& opt_str_views(b.description) == opt_str_field_val(lookup(ps, "description"@))
    &&& opt_i32_views(b.scan_depth) == opt_i32_field_val(lookup(ps, "scan_depth"@))
    &&& pair_views_of(b.extra@) == extras_of(ps, Record::Book)
}

/// Decodes a character book.
#[verifier::loop_isolation(false)]
pub fn book_from_json(v: &Json) -> (r: Result<CharacterBook, ()>)
    ensures
        match r {
            Ok(b) => book_json_ok(v@) && book_matches(b, v@),
            Err(_) => !book_json_ok(v@),
        },
{
    let ps = match v {
        Json::Obj(ps) => ps,
        _ => {
            return Err(());
        },
    };
    proof {
        assert(v@->Obj_0 =~= pair_views_of(ps@));
    }
    let entries = match lookup_exec(ps, "entries") {
        None => Vec::new(),
        Some(i) => match &ps[i].1 {
            Json::Arr(items) => {
                let ghost iv = crate::json::views_of(items@);
                proof {
                    assert(ps@[i as int].1@->Arr_0 =~= iv);
                }
                let mut out: Vec<LoreEntry> = Vec::new();
                let mut k: usize = 0;
                while k < items.len()
                    invariant
                        k <= items@.len(),
                        iv == crate::json::views_of(items@),
                        out@.len() == k as int,
                        forall|q: int| 0 <= q < k ==> entry_json_ok(#[trigger] iv[q]),
                        forall|q: int|
                            0 <= q < k ==> entry_matches(#[trigger] out@[q], iv[q]),
                    decreases items@.len() - k,
                {
                    match entry_from_json(&items[k]) {
                        Ok(en) => {
                            proof {
                                assert(iv[k as int] == items@[k as int]@);
                            }
                            out.push(en);
                        },
                        Err(_) => {
                            proof {
                                assert(iv[k as int] == items@[k as int]@);
                                assert(!book_json_ok(v@));
                            }
                            return Err(());
                        },
                    }
                    k = k + 1;
                }
                out
            },
            _ => {
                return Err(());
            },
        },
    };
    let name = match get_str(ps, "name") {
        Ok(x) => x,
        Err(_) => {
            return Err(());
        },
    };
    let description = match get_opt_str(ps, "description") {
        Ok(x) => x,
        Err(_) => {
            return Err(());
        },
    };
    let scan_depth = match get_opt_i32(ps, "scan_depth") {
        Ok(x) => x,
        Err(_) => {
            return Err(());
        },
    };
    let extra = collect_extras(ps, Record::Book);
    Ok(CharacterBook { entries, name, description, scan_depth, extra })
}

/// Whether a JSON value has the card (`data`) shape.
pub open spec fn data_json_ok(v: JsonV) -> bool {
    &&& v is Obj
    &&& str_field_ok(lookup(v->Obj_0, "name"@))
    &&& str_field_ok(lookup(v->Obj_0, "description"@))
    &&& str_field_ok(lookup(v->Obj_0, "personality"@))
    &&& str_field_ok(lookup(v->Obj_0, "scenario"@))
    &&& str_field_ok(lookup(v->Obj_0, "first_mes"@))
    &&& str_field_ok(lookup(v->Obj_0, "mes_example"@))
    &&& str_field_ok(lookup(v->Obj_0, "creator_notes"@))
    &&& str_field_ok(lookup(v->Obj_0, "system_prompt"@))
    &&& str_field_ok(lookup(v->Obj_0, "post_history_instructions"@))
    &&& str_field_ok(lookup(v->Obj_0, "creator"@))
    &&& str_field_ok(lookup(v->Obj_0, "character_version"@))
    &&& strlist_field_ok(lookup(v->Obj_0, "alternate_greetings"@))
    &&& strlist_field_ok(lookup(v->Obj_0, "tags"@))
    &&& strlist_field_ok(lookup(v->Obj_0, "group_only_greetings"@))
    &&& match lookup(v->Obj_0, "character_book"@) {
        None => true,
        Some(JsonV::Null) => true,
        Some(o) => book_json_ok(o),
    }
    &&& match lookup(v->Obj_0, "extensions"@) {
        None => true,
        Some(JsonV::Null) => true,
        Some(o) => ext_json_ok(o),
    }
}

/// How a decoded card relates to its JSON source.
pub open spec fn data_matches(c: CharacterData, v: JsonV) -> bool {
    let ps = v->Obj_0;
    &&& c.name@ == str_field_val(lookup(ps, "name"@))
    &&& c.description@ == str_field_val(lookup(ps, "description"@))
    &&& c.personality@ == str_field_val(lookup(ps, "personality"@))
    &&& c.scenario@ == str_field_val(lookup(ps, "scenario"@))
    &&& c.first_mes@ == str_field_val(lookup(ps, "first_mes"@))
    &&& c.mes_example@ == str_field_val(lookup(ps, "mes_example"@))
    &&& c.creator_notes@ == str_field_val(lookup(ps, "creator_notes"@))
    &&& c.system_prompt@ == str_field_val(lookup(ps, "system_prompt"@))
    &&& c.post_history_instructions@ == str_field_val(
        lookup(ps, "post_history_instructions"@),
    )
    &&& c.creator@ == str_field_val(lookup(ps, "creator"@))
    &&& c.character_version@ == str_field_val(lookup(ps, "character_version"@))
    &&& str_views(c.alternate_greetings@) == strlist_field_val(
        lookup(ps, "alternate_greetings"@),
    )
    &&& str_views(c.tags@) == strlist_field_val(lookup(ps, "tags"@))
    &&& str_views(c.group_only_greetings@) == strlist_field_val(
        lookup(ps, "group_only_greetings"@),
    )
    &&& match lookup(ps, "character_book"@) {
        None => c.character_book is None,
        Some(JsonV::Null) => c.character_book is None,
        Some(o) => c.character_book is Some && book_matches(c.character_book->0, o),
    }
    &&& match lookup(ps, "extensions"@) {
        None => c.extensions is None,
        Some(JsonV::Null) => c.extensions is None,
        Some(o) => c.extensions is Some && ext_matches(c.extensions->0, o),
    }
    &&& pair_views_of(c.extra@) == extras_of(ps, Record::Data)
}

/// Decodes a card from its flat JSON record.
pub fn data_from_json(v: &Json) -> (r: Result<CharacterData, ()>)
    ensures
        match r {
            Ok(c) => data_json_ok(v@) && data_matches(c, v@),
            Err(_) => !data_json_ok(v@),
        },
{
    let ps = match v {
        Json::Obj(ps) => ps,
        _ => {
            return Err(());
        },
    };
    proof {
        assert(v@->Obj_0 =~= pair_views_of(ps@));
    }
    let name = match get_str(ps, "name") {
        Ok(x) => x,
        Err(_) => {
            return Err(());
        },
    };
    let description = match get_str(ps, "description") {
        Ok(x) => x,
        Err(_) => {
            return Err(());
        },
    };
    let personality = match get_str(ps, "personality") {
        Ok(x) => x,
        Err(_) => {
            return Err(());
        },
    };
    let scenario = match get_str(ps, "scenario") {
        Ok(x) => x,
        Err(_) => {
            return Err(());
        },
    };
    let first_mes = match get_str(ps, "first_mes") {
        Ok(x) => x,
        Err(_) => {
            return Err(());
        },
    };
    let mes_example = match get_str(ps, "mes_example") {
        Ok(x) => x,
        Err(_) => {
            return Err(());
        },
    };
    let creator_notes = match get_str(ps, "creator_notes") {
        Ok(x) => x,
        Err(_) => {
            return Err(());
        },
    };
    let system_prompt = match get_str(ps, "system_prompt") {
        Ok(x) => x,
        Err(_) => {
            return Err(());
        },
    };
    let post_history_instructions = match get_str(ps, "post_history_instructions") {
        Ok(x) => x,
        Err(_) => {
            return Err(());
        },
    };
    let creator = match get_str(ps, "creator") {
        Ok(x) => x,
        Err(_) => {
            return Err(());
        },
    };
    let character_version = match get_str(ps, "character_version") {
        Ok(x) => x,
        Err(_) => {
            return Err(());
        },
    };
    let alternate_greetings = match get_strlist(ps, "alternate_greetings") {
        Ok(x) => x,
        Err(_) => {
            return Err(());
        },
    };
    let tags = match get_strlist(ps, "tags") {
        Ok(x) => x,
        Err(_) => {
            return Err(());
        },
    };
    let group_only_greetings = match get_strlist(ps, "group_only_greetings") {
        Ok(x) => x,
        Err(_) => {
            return Err(());
        },
    };
    let character_book = match lookup_exec(ps, "character_book") {
        None => None,
        Some(i) => match &ps[i].1 {
            Json::Null => None,
            _ => match book_from_json(&ps[i].1) {
                Ok(b) => Some(b),
                Err(_) => {
                    return Err(());
                },
            },
        },
    };
    let extensions = match lookup_exec(ps, "extensions") {
        None => None,
        Some(i) => match &ps[i].1 {
            Json::Null => None,
            _ => match ext_from_json(&ps[i].1) {
                Ok(x) => Some(x),
                Err(_) => {
                    return Err(());
                },
            },
        },
    };
    let extra = collect_extras(ps, Record::Data);
    Ok(
        CharacterData {
            name,
            description,
            personality,
            scenario,
            first_mes,
            mes_example,
            creator_notes,
            system_prompt,
            post_history_instructions,
            creator,
            character_version,
            alternate_greetings,
            tags,
            group_only_greetings,
            character_book,
            extensions,
            extra,
        },
    )
}

/// Whether a JSON value has the V3 envelope shape: the `data` member must be
/// present and itself well shaped.
pub open spec fn v3_json_ok(v: JsonV) -> bool {
    &&& v is Obj
    &&& str_field_ok(lookup(v->Obj_0, "spec"@))
    &&& str_field_ok(lookup(v->Obj_0, "spec_version"@))
    &&& lookup(v->Obj_0, "data"@) is Some
    &&& data_json_ok(lookup(v->Obj_0, "data"@)->0)
}

/// How a decoded V3 envelope relates to its JSON source.
pub open spec fn v3_matches(c: CharaCardV3, v: JsonV) -> bool {
    let ps = v->Obj_0;
    &&& c.spec_id@ == str_field_val(lookup(ps, "spec"@))
    &&& c.version_tag@ == str_field_val(lookup(ps, "spec_version"@))
    &&& data_matches(c.data, lookup(ps, "data"@)->0)
    &&& pair_views_of(c.extra@) == extras_of(ps, Record::Envelope)
}

/// Decodes a V3 envelope.
pub fn v3_from_json(v: &Json) -> (r: Result<CharaCardV3, ()>)
    ensures
        match r {
            Ok(c) => v3_json_ok(v@) && v3_matches(c, v@),
            Err(_) => !v3_json_ok(v@),
        },
{
    let ps = match v {
        Json::Obj(ps) => ps,
        _ => {
            return Err(());
        },
    };
    proof {
        assert(v@->Obj_0 =~= pair_views_of(ps@));
    }
    let spec_id = match get_str(ps, "spec") {
        Ok(x) => x,
        Err(_) => {
            return Err(());
        },
    };
    let version_tag = match get_str(ps, "spec_version") {
        Ok(x) => x,
        Err(_) => {
            return Err(());
        },
    };
    let data = match lookup_exec(ps, "data") {
        None => {
            return Err(());
        },
        Some(i) => match data_from_json(&ps[i].1) {
            Ok(d) => d,
            Err(_) => {
                return Err(());
            },
        },
    };
    let extra = collect_extras(ps, Record::Envelope);
    Ok(CharaCardV3 { spec_id, version_tag, data, extra })
}

} // verus!

verus! {

/// An integer as a JSON number value.
pub open spec fn jv_int(i: int) -> JsonV {
    JsonV::Num(crate::dec::dec_int(i))
}

/// An optional integer: `null` when absent.
pub open spec fn jv_opt_i32(o: Option<i32>) -> JsonV {
    match o {
        None => JsonV::Null,
        Some(v) => jv_int(v as int),
    }
}

/// An optional text: `null` when absent.
pub open spec fn jv_opt_str(o: Option<String>) -> JsonV {
    match o {
        None => JsonV::Null,
        Some(s) => JsonV::Str(s@),
    }
}

/// A list of texts as a JSON array of strings.
pub open spec fn jv_strlist(v: Seq<String>) -> JsonV {
    JsonV::Arr(
        Seq::new(
            v.len(),
            |i: int|
                if 0 <= i < v.len() {
                    JsonV::Str(v[i]@)
                } else {
                    JsonV::Null
                },
        ),
    )
}

/// The encoded members of a depth prompt: recognized keys first, extras after.
pub open spec fn depth_members(d: DepthPrompt) -> Seq<(Seq<char>, JsonV)> {
    seq![
        ("depth"@, jv_int(d.depth as int)),
        ("prompt"@, JsonV::Str(d.prompt@)),
        ("role"@, JsonV::Str(d.role@)),
    ] + pair_views_of(d.extra@)
}

pub open spec fn depth_jsonv(d: DepthPrompt) -> JsonV {
    JsonV::Obj(depth_members(d))
}

/// The encoded members of a regex script.
pub open spec fn script_members(s: RegexScript) -> Seq<(Seq<char>, JsonV)> {
    seq![
        ("id"@, JsonV::Str(s.id@)),
        ("scriptName"@, JsonV::Str(s.script_name@)),
        ("findRegex"@, JsonV::Str(s.find_regex@)),
        ("replaceString"@, JsonV::Str(s.replace_string@)),
        ("runOnEdit"@, JsonV::Bool(s.run_on_edit)),
        ("disabled"@, JsonV::Bool(s.disabled)),
        ("markdownOnly"@, JsonV::Bool(s.markdown_only)),
        ("promptOnly"@, JsonV::Bool(s.prompt_only)),
        ("minDepth"@, jv_opt_i32(s.min_depth)),
        ("maxDepth"@, jv_opt_i32(s.max_depth)),
    ] + pair_views_of(s.extra@)
}

pub open spec fn script_jsonv(s: RegexScript) -> JsonV {
    JsonV::Obj(script_members(s))
}

/// The encoded members of a lore entry.
pub open spec fn entry_members(e: LoreEntry) -> Seq<(Seq<char>, JsonV)> {
    seq![
        ("id"@, jv_int(e.id as int)),
        ("keys"@, jv_strlist(e.keys@)),
        ("secondary_keys"@, jv_strlist(e.secondary_keys@)),
        ("comment"@, JsonV::Str(e.comment@)),
        ("content"@, JsonV::Str(e.content@)),
        ("constant"@, JsonV::Bool(e.constant)),
        ("selective"@, JsonV::Bool(e.selective)),
        ("insertion_order"@, jv_int(e.insertion_order as int)),
        ("enabled"@, JsonV::Bool(e.enabled)),
        ("position"@, JsonV::Str(e.position@)),
        ("use_regex"@, JsonV::Bool(e.use_regex)),
        ("extensions"@, e.extensions@),
    ] + pair_views_of(e.extra@)
}

pub open spec fn entry_jsonv(e: LoreEntry) -> JsonV {
    JsonV::Obj(entry_members(e))
}

/// The encoded members of the card extensions.
pub open spec fn ext_members(x: CardExtensions) -> Seq<(Seq<char>, JsonV)> {
    seq![
        ("fav"@, JsonV::Bool(x.fav)),
        ("world"@, JsonV::Str(x.world@)),
        ("talkativeness"@, JsonV::Str(x.talkativeness@)),
        (
            "depth_prompt"@,
            match x.depth_prompt {
                None => JsonV::Null,
                Some(d) => depth_jsonv(d),
            },
        ),
        (
            "regex_scripts"@,
            JsonV::Arr(
                Seq::new(
                    x.regex_scripts@.len(),
                    |i: int|
                        if 0 <= i < x.regex_scripts@.len() {
                            script_jsonv(x.regex_scripts@[i])
                        } else {
                            JsonV::Null
                        },
                ),
            ),
        ),
    ] + pair_views_of(x.extra@)
}

pub open spec fn ext_jsonv(x: CardExtensions) -> JsonV {
    JsonV::Obj(ext_members(x))
}

/// The encoded members of a character book.
pub open spec fn book_members(b: CharacterBook) -> Seq<(Seq<char>, JsonV)> {
    seq![
        (
            "entries"@,
            JsonV::Arr(
                Seq::new(
                    b.entries@.len(),
                    |i: int|
                        if 0 <= i < b.entries@.len() {
                            entry_jsonv(b.entries@[i])
                        } else {
                            JsonV::Null
                        },
                ),
            ),
        ),
        ("name"@, JsonV::Str(b.name@)),
        ("description"@, jv_opt_str(b.description)),
        ("scan_depth"@, jv_opt_i32(b.scan_depth)),
    ] + pair_views_of(b.extra@)
}

pub open spec fn book_jsonv(b: CharacterBook) -> JsonV {
    JsonV::Obj(book_members(b))
}

/// The encoded members of a card.
pub open spec fn data_members(c: CharacterData) -> Seq<(Seq<char>, JsonV)> {
    seq![
        ("name"@, JsonV::Str(c.name@)),
        ("description"@, JsonV::Str(c.description@)),
        ("personality"@, JsonV::Str(c.personality@)),
        ("scenario"@, JsonV::Str(c.scenario@)),
        ("first_mes"@, JsonV::Str(c.first_mes@)),
        ("mes_example"@, JsonV::Str(c.mes_example@)),
        ("creator_notes"@, JsonV::Str(c.creator_notes@)),
        ("system_prompt"@, JsonV::Str(c.system_prompt@)),
        ("post_history_instructions"@, JsonV::Str(c.post_history_instructions@)),
        ("creator"@, JsonV::Str(c.creator@)),
        ("character_version"@, JsonV::Str(c.character_version@)),
        ("alternate_greetings"@, jv_strlist(c.alternate_greetings@)),
        ("tags"@, jv_strlist(c.tags@)),
        ("group_only_greetings"@, jv_strlist(c.group_only_greetings@)),
        (
            "character_book"@,
            match c.character_book {
                None => JsonV::Null,
                Some(b) => book_jsonv(b),
            },
        ),
        (
            "extensions"@,
            match c.extensions {
                None => JsonV::Null,
                Some(x) => ext_jsonv(x),
            },
        ),
    ] + pair_views_of(c.extra@)
}

pub open spec fn data_jsonv(c: CharacterData) -> JsonV {
    JsonV::Obj(data_members(c))
}

/// The encoded members of the V3 envelope.
pub open spec fn v3_members(c: CharaCardV3) -> Seq<(Seq<char>, JsonV)> {
    seq![
        ("spec"@, JsonV::Str(c.spec_id@)),
        ("spec_version"@, JsonV::Str(c.version_tag@)),
        ("data"@, data_jsonv(c.data)),
    ] + pair_views_of(c.extra@)
}

pub open spec fn v3_jsonv(c: CharaCardV3) -> JsonV {
    JsonV::Obj(v3_members(c))
}

/// Appends clones of the kept extras.
#[verifier::loop_isolation(false)]
fn push_extras(ps: &mut Vec<(String, Json)>, extra: &Vec<(String, Json)>)
    ensures
        pair_views_of(final(ps)@) == pair_views_of(old(ps)@) + pair_views_of(extra@),
{
    let mut k: usize = 0;
    proof {
        assert(pair_views_of(ps@) =~= pair_views_of(old(ps)@) + pair_views_of(extra@).subrange(
            0,
            0,
        ));
    }
    while k < extra.len()
        invariant
            k <= extra@.len(),
            pair_views_of(ps@) == pair_views_of(old(ps)@) + pair_views_of(extra@).subrange(
                0,
                k as int,
            ),
        decreases extra@.len() - k,
    {
        let key = extra[k].0.clone();
        let val = clone_json(&extra[k].1);
        let ghost pre = ps@;
        ps.push((key, val));
        proof {
            crate::json::lemma_pair_views_push(pre, (key, val));
            assert(pair_views_of(extra@)[k as int] == (extra@[k as int].0@, extra@[k as int].1@));
            assert(pair_views_of(ps@) =~= pair_views_of(old(ps)@) + pair_views_of(
                extra@,
            ).subrange(0, k + 1));
        }
        k = k + 1;
    }
    proof {
        assert(pair_views_of(extra@).subrange(0, extra@.len() as int) =~= pair_views_of(extra@));
    }
}

/// A text as a fresh JSON string value.
fn jstr(s: &String) -> (r: Json)
    ensures
        r@ == JsonV::Str(s@),
{
    Json::Str(s.clone())
}

/// An integer as a fresh JSON number value.
fn jint(i: i32) -> (r: Json)
    ensures
        r@ == jv_int(i as int),
{
    let cs = crate::dec::dec_int_chars(i as i64);
    Json::Num(crate::text::chars_to_string(cs))
}

/// An optional integer as a fresh JSON value.
fn jopt_i32(o: &Option<i32>) -> (r: Json)
    ensures
        r@ == jv_opt_i32(*o),
{
    match o {
        None => Json::Null,
        Some(v) => jint(*v),
    }
}

/// An optional text as a fresh JSON value.
fn jopt_str(o: &Option<String>) -> (r: Json)
    ensures
        r@ == jv_opt_str(*o),
{
    match o {
        None => Json::Null,
        Some(s) => jstr(s),
    }
}

/// A list of texts as a fresh JSON array.
#[verifier::loop_isolation(false)]
fn jstrlist(v: &Vec<String>) -> (r: Json)
    ensures
        r@ == jv_strlist(v@),
{
    let mut items: Vec<Json> = Vec::new();
    let mut k: usize = 0;
    while k < v.len()
        invariant
            k <= v@.len(),
            items@.len() == k as int,
            forall|q: int| 0 <= q < k ==> #[trigger] items@[q].jv() == JsonV::Str(v@[q]@),
        decreases v@.len() - k,
    {
        items.push(Json::Str(v[k].clone()));
        k = k + 1;
    }
    let ghost iview = items@;
    let r = Json::Arr(items);
    proof {
        assert(r->Arr_0@ == iview);
        assert forall|q: int| 0 <= q < iview.len() implies r@->Arr_0[q] == jv_strlist(
            v@,
        )->Arr_0[q] by {
            assert(r@->Arr_0[q] == iview[q].jv());
            assert(jv_strlist(v@)->Arr_0[q] == JsonV::Str(v@[q]@));
        }
        assert(r@->Arr_0.len() == jv_strlist(v@)->Arr_0.len());
        assert(r@->Arr_0 =~= jv_strlist(v@)->Arr_0);
    }
    r
}

} // verus!

verus! {

/// Encodes a depth prompt.
pub fn depth_to_json(d: &DepthPrompt) -> (r: Json)
    ensures
        r@ == depth_jsonv(*d),
{
    let mut ps: Vec<(String, Json)> = Vec::new();
    ps.push((String::from_str("depth"), jint(d.depth)));
    ps.push((String::from_str("prompt"), jstr(&d.prompt)));
    ps.push((String::from_str("role"), jstr(&d.role)));
    proof {
        assert(pair_views_of(ps@) =~= seq![
            ("depth"@, jv_int(d.depth as int)),
            ("prompt"@, JsonV::Str(d.prompt@)),
            ("role"@, JsonV::Str(d.role@)),
        ]);
    }
    push_extras(&mut ps, &d.extra);
    let ghost pv = pair_views_of(ps@);
    let r = Json::Obj(ps);
    proof {
        assert(r@->Obj_0 =~= pv);
        assert(r@->Obj_0 =~= depth_members(*d));
    }
    r
}

/// Encodes a regex script.
pub fn script_to_json(s: &RegexScript) -> (r: Json)
    ensures
        r@ == script_jsonv(*s),
{
    let mut ps: Vec<(String, Json)> = Vec::new();
    ps.push((String::from_str("id"), jstr(&s.id)));
    ps.push((String::from_str("scriptName"), jstr(&s.script_name)));
    ps.push((String::from_str("findRegex"), jstr(&s.find_regex)));
    ps.push((String::from_str("replaceString"), jstr(&s.replace_string)));
    ps.push((String::from_str("runOnEdit"), Json::Bool(s.run_on_edit)));
    ps.push((String::from_str("disabled"), Json::Bool(s.disabled)));
    ps.push((String::from_str("markdownOnly"), Json::Bool(s.markdown_only)));
    ps.push((String::from_str("promptOnly"), Json::Bool(s.prompt_only)));
    ps.push((String::from_str("minDepth"), jopt_i32(&s.min_depth)));
    ps.push((String::from_str("maxDepth"), jopt_i32(&s.max_depth)));
    proof {
        assert(pair_views_of(ps@) =~= seq![
            ("id"@, JsonV::Str(s.id@)),
            ("scriptName"@, JsonV::Str(s.script_name@)),
            ("findRegex"@, JsonV::Str(s.find_regex@)),
            ("replaceString"@, JsonV::Str(s.replace_string@)),
            ("runOnEdit"@, JsonV::Bool(s.run_on_edit)),
            ("disabled"@, JsonV::Bool(s.disabled)),
            ("markdownOnly"@, JsonV::Bool(s.markdown_only)),
            ("promptOnly"@, JsonV::Bool(s.prompt_only)),
            ("minDepth"@, jv_opt_i32(s.min_depth)),
            ("maxDepth"@, jv_opt_i32(s.max_depth)),
        ]);
    }
    push_extras(&mut ps, &s.extra);
    let ghost pv = pair_views_of(ps@);
    let r = Json::Obj(ps);
    proof {
        assert(r@->Obj_0 =~= pv);
        assert(r@->Obj_0 =~= script_members(*s));
    }
    r
}

/// Encodes a lore entry.
pub fn entry_to_json(e: &LoreEntry) -> (r: Json)
    ensures
        r@ == entry_jsonv(*e),
{
    let mut ps: Vec<(String, Json)> = Vec::new();
    ps.push((String::from_str("id"), jint(e.id)));
    ps.push((String::from_str("keys"), jstrlist(&e.keys)));
    ps.push((String::from_str("secondary_keys"), jstrlist(&e.secondary_keys)));
    ps.push((String::from_str("comment"), jstr(&e.comment)));
    ps.push((String::from_str("content"), jstr(&e.content)));
    ps.push((String::from_str("constant"), Json::Bool(e.constant)));
    ps.push((String::from_str("selective"), Json::Bool(e.selective)));
    ps.push((String::from_str("insertion_order"), jint(e.insertion_order)));
    ps.push((String::from_str("enabled"), Json::Bool(e.enabled)));
    ps.push((String::from_str("position"), jstr(&e.position)));
    ps.push((String::from_str("use_regex"), Json::Bool(e.use_regex)));
    ps.push((String::from_str("extensions"), clone_json(&e.extensions)));
    proof {
        assert(pair_views_of(ps@) =~= seq![
            ("id"@, jv_int(e.id as int)),
            ("keys"@, jv_strlist(e.keys@)),
            ("secondary_keys"@, jv_strlist(e.secondary_keys@)),
            ("comment"@, JsonV::Str(e.comment@)),
            ("content"@, JsonV::Str(e.content@)),
            ("constant"@, JsonV::Bool(e.constant)),
            ("selective"@, JsonV::Bool(e.selective)),
            ("insertion_order"@, jv_int(e.insertion_order as int)),
            ("enabled"@, JsonV::Bool(e.enabled)),
            ("position"@, JsonV::Str(e.position@)),
            ("use_regex"@, JsonV::Bool(e.use_regex)),
            ("extensions"@, e.extensions@),
        ]);
    }
    push_extras(&mut ps, &e.extra);
    let ghost pv = pair_views_of(ps@);
    let r = Json::Obj(ps);
    proof {
        assert(r@->Obj_0 =~= pv);
        assert(r@->Obj_0 =~= entry_members(*e));
    }
    r
}

/// Encodes the card extensions.
#[verifier::loop_isolation(false)]
pub fn ext_to_json(x: &CardExtensions) -> (r: Json)
    ensures
        r@ == ext_jsonv(*x),
{
    let dp = match &x.depth_prompt {
        None => Json::Null,
        Some(d) => depth_to_json(d),
    };
    let mut scripts: Vec<Json> = Vec::new();
    let mut k: usize = 0;
    while k < x.regex_scripts.len()
        invariant
            k <= x.regex_scripts@.len(),
            scripts@.len() == k as int,
            forall|q: int|
                0 <= q < k ==> #[trigger] scripts@[q].jv() == script_jsonv(x.regex_scripts@[q]),
        decreases x.regex_scripts@.len() - k,
    {
        let sc = script_to_json(&x.regex_scripts[k]);
        scripts.push(sc);
        k = k + 1;
    }
    let ghost sview = scripts@;
    let sarr = Json::Arr(scripts);
    proof {
        assert(sarr->Arr_0@ == sview);
        assert forall|q: int| 0 <= q < sview.len() implies sarr@->Arr_0[q] == ext_members(
            *x,
        )[4].1->Arr_0[q] by {
            assert(sarr@->Arr_0[q] == sview[q].jv());
        }
        assert(sarr@->Arr_0 =~= ext_members(*x)[4].1->Arr_0);
    }
    let mut ps: Vec<(String, Json)> = Vec::new();
    ps.push((String::from_str("fav"), Json::Bool(x.fav)));
    ps.push((String::from_str("world"), jstr(&x.world)));
    ps.push((String::from_str("talkativeness"), jstr(&x.talkativeness)));
    ps.push((String::from_str("depth_prompt"), dp));
    ps.push((String::from_str("regex_scripts"), sarr));
    proof {
        assert(pair_views_of(ps@).len() == 5);
        assert forall|q: int| 0 <= q < 5 implies pair_views_of(ps@)[q] == ext_members(*x)[q] by {
            assert(pair_views_of(ps@)[q] == (ps@[q].0@, ps@[q].1.jv()));
        }
        assert(pair_views_of(ps@) =~= ext_members(*x).subrange(0, 5));
    }
    push_extras(&mut ps, &x.extra);
    let ghost pv = pair_views_of(ps@);
    let r = Json::Obj(ps);
    proof {
        assert(r@->Obj_0 =~= pv);
        assert(ext_members(*x).subrange(0, 5) + pair_views_of(x.extra@) =~= ext_members(*x));
        assert(r@->Obj_0 =~= ext_members(*x));
    }
    r
}

/// Encodes a character book.
#[verifier::loop_isolation(false)]
pub fn book_to_json(b: &CharacterBook) -> (r: Json)
    ensures
        r@ == book_jsonv(*b),
{
    let mut entries: Vec<Json> = Vec::new();
    let mut k: usize = 0;
    while k < b.entries.len()
        invariant
            k <= b.entries@.len(),
            entries@.len() == k as int,
            forall|q: int|
                0 <= q < k ==> #[trigger] entries@[q].jv() == entry_jsonv(b.entries@[q]),
        decreases b.entries@.len() - k,
    {
        let en = entry_to_json(&b.entries[k]);
        entries.push(en);
        k = k + 1;
    }
    let ghost eview = entries@;
    let earr = Json::Arr(entries);
    proof {
        assert(earr->Arr_0@ == eview);
        assert forall|q: int| 0 <= q < eview.len() implies earr@->Arr_0[q] == book_members(
            *b,
        )[0].1->Arr_0[q] by {
            assert(earr@->Arr_0[q] == eview[q].jv());
        }
        assert(earr@->Arr_0 =~= book_members(*b)[0].1->Arr_0);
    }
    let mut ps: Vec<(String, Json)> = Vec::new();
    ps.push((String::from_str("entries"), earr));
    ps.push((String::from_str("name"), jstr(&b.name)));
    ps.push((String::from_str("description"), jopt_str(&b.description)));
    ps.push((String::from_str("scan_depth"), jopt_i32(&b.scan_depth)));
    proof {
        assert(pair_views_of(ps@).len() == 4);
        assert forall|q: int| 0 <= q < 4 implies pair_views_of(ps@)[q] == book_members(*b)[q] by {
            assert(pair_views_of(ps@)[q] == (ps@[q].0@, ps@[q].1.jv()));
        }
        assert(pair_views_of(ps@) =~= book_members(*b).subrange(0, 4));
    }
    push_extras(&mut ps, &b.extra);
    let ghost pv = pair_views_of(ps@);
    let r = Json::Obj(ps);
    proof {
        assert(r@->Obj_0 =~= pv);
        assert(book_members(*b).subrange(0, 4) + pair_views_of(b.extra@) =~= book_members(*b));
        assert(r@->Obj_0 =~= book_members(*b));
    }
    r
}

/// Encodes a card as its flat JSON record.
pub fn data_to_json(c: &CharacterData) -> (r: Json)
    ensures
        r@ == data_jsonv(*c),
{
    let book = match &c.character_book {
        None => Json::Null,
        Some(b) => book_to_json(b),
    };
    let ext = match &c.extensions {
        None => Json::Null,
        Some(x) => ext_to_json(x),
    };
    let mut ps: Vec<(String, Json)> = Vec::new();
    ps.push((String::from_str("name"), jstr(&c.name)));
    ps.push((String::from_str("description"), jstr(&c.description)));
    ps.push((String::from_str("personality"), jstr(&c.personality)));
    ps.push((String::from_str("scenario"), jstr(&c.scenario)));
    ps.push((String::from_str("first_mes"), jstr(&c.first_mes)));
    ps.push((String::from_str("mes_example"), jstr(&c.mes_example)));
    ps.push((String::from_str("creator_notes"), jstr(&c.creator_notes)));
    ps.push((String::from_str("system_prompt"), jstr(&c.system_prompt)));
    ps.push((String::from_str("post_history_instructions"), jstr(&c.post_history_instructions)));
    ps.push((String::from_str("creator"), jstr(&c.creator)));
    ps.push((String::from_str("character_version"), jstr(&c.character_version)));
    ps.push((String::from_str("alternate_greetings"), jstrlist(&c.alternate_greetings)));
    ps.push((String::from_str("tags"), jstrlist(&c.tags)));
    ps.push((String::from_str("group_only_greetings"), jstrlist(&c.group_only_greetings)));
    ps.push((String::from_str("character_book"), book));
    ps.push((String::from_str("extensions"), ext));
    proof {
        assert(pair_views_of(ps@).len() == 16);
        assert forall|q: int| 0 <= q < 16 implies pair_views_of(ps@)[q] == data_members(*c)[q] by {
            assert(pair_views_of(ps@)[q] == (ps@[q].0@, ps@[q].1.jv()));
        }
        assert(pair_views_of(ps@) =~= data_members(*c).subrange(0, 16));
    }
    push_extras(&mut ps, &c.extra);
    let ghost pv = pair_views_of(ps@);
    let r = Json::Obj(ps);
    proof {
        assert(r@->Obj_0 =~= pv);
        assert(data_members(*c).subrange(0, 16) + pair_views_of(c.extra@) =~= data_members(*c));
        assert(r@->Obj_0 =~= data_members(*c));
    }
    r
}

/// Encodes the V3 envelope.
pub fn v3_to_json(c: &CharaCardV3) -> (r: Json)
    ensures
        r@ == v3_jsonv(*c),
{
    let data = data_to_json(&c.data);
    let mut ps: Vec<(String, Json)> = Vec::new();
    ps.push((String::from_str("spec"), jstr(&c.spec_id)));
    ps.push((String::from_str("spec_version"), jstr(&c.version_tag)));
    ps.push((String::from_str("data"), data));
    proof {
        assert(pair_views_of(ps@).len() == 3);
        assert forall|q: int| 0 <= q < 3 implies pair_views_of(ps@)[q] == v3_members(*c)[q] by {
            assert(pair_views_of(ps@)[q] == (ps@[q].0@, ps@[q].1.jv()));
        }
        assert(pair_views_of(ps@) =~= v3_members(*c).subrange(0, 3));
    }
    push_extras(&mut ps, &c.extra);
    let ghost pv = pair_views_of(ps@);
    let r = Json::Obj(ps);
    proof {
        assert(r@->Obj_0 =~= pv);
        assert(v3_members(*c).subrange(0, 3) + pair_views_of(c.extra@) =~= v3_members(*c));
        assert(r@->Obj_0 =~= v3_members(*c));
    }
    r
}

} // verus!
