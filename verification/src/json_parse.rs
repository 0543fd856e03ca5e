//! The JSON parser.
//!
//! What it means to parse a JSON text is defined here as a specification: a
//! recursive-descent reader over a `Seq<char>`, step-indexed by a fuel
//! argument so that the mutual recursion through arrays and objects visibly
//! terminates. Running out of fuel is distinguished from a parse error, and
//! the result is monotone in the fuel, so `json_parse` — the fuel-free
//! meaning of a text — is well defined. The executable parser is proved to
//! return exactly `json_parse` of its input.
//!
//! The grammar is the JSON one: optional whitespace around values, `null`,
//! `true`, `false`, numbers (kept as their token text), strings with the
//! standard escapes (including `\uXXXX` with surrogate pairs), arrays and
//! objects. Unescaped control characters inside strings are refused, as is a
//! lone surrogate.

use vstd::prelude::*;

use crate::dec::{digit_val, is_digit};
use crate::json::{pair_views_of, views_of, Json, JsonV};
use crate::text::{chars_of, chars_to_string};
verus! {

/// JSON insignificant whitespace.
pub open spec fn is_ws(c: char) -> bool {
    c == ' ' || c == '\t' || c == '\n' || c == '\r'
}

/// The first position at or after `i` that does not hold whitespace.
pub open spec fn ws_end(s: Seq<char>, i: int) -> int
    decreases s.len() - i,
{
    if 0 <= i < s.len() && is_ws(s[i]) {
        ws_end(s, i + 1)
    } else {
        i
    }
}

/// `ws_end` stays within `[i, s.len()]` and lands on a non-space.
pub proof fn lemma_ws_end(s: Seq<char>, i: int)
    requires
        0 <= i <= s.len(),
    ensures
        i <= ws_end(s, i) <= s.len(),
        ws_end(s, i) < s.len() ==> !is_ws(s[ws_end(s, i)]),
        forall|k: int| i <= k < ws_end(s, i) ==> is_ws(#[trigger] s[k]),
    decreases s.len() - i,
{
    if 0 <= i < s.len() && is_ws(s[i]) {
        lemma_ws_end(s, i + 1);
    }
}

/// Whether `c` is a hexadecimal digit.
pub open spec fn is_hex(c: char) -> bool {
    is_digit(c) || (97 <= c as u32 <= 102) || (65 <= c as u32 <= 70)
}

/// The value of a hexadecimal digit.
pub open spec fn hex_val(c: char) -> nat
    recommends
        is_hex(c),
{
    if is_digit(c) {
        digit_val(c)
    } else if 97 <= c as u32 <= 102 {
        (c as u32 - 87) as nat
    } else {
        (c as u32 - 55) as nat
    }
}

/// Whether positions `i .. i+4` hold four hexadecimal digits.
pub open spec fn hex4_ok(s: Seq<char>, i: int) -> bool {
    &&& 0 <= i
    &&& i + 4 <= s.len()
    &&& is_hex(s[i])
    &&& is_hex(s[i + 1])
    &&& is_hex(s[i + 2])
    &&& is_hex(s[i + 3])
}

/// The value of the four hexadecimal digits at `i .. i+4`.
pub open spec fn hex4_val(s: Seq<char>, i: int) -> nat
    recommends
        hex4_ok(s, i),
{
    ((hex_val(s[i]) * 16 + hex_val(s[i + 1])) * 16 + hex_val(s[i + 2])) * 16 + hex_val(s[i + 3])
}

/// Reads a JSON string body starting at `i` (just after the opening quote);
/// on success returns the decoded characters and the position just after the
/// closing quote.
pub open spec fn scan_str(s: Seq<char>, i: int) -> Option<(Seq<char>, int)>
    decreases s.len() - i,
{
    if !(0 <= i < s.len()) {
        None
    } else if s[i] == '"' {
        Some((Seq::empty(), i + 1))
    } else if s[i] == '\\' {
        if !(i + 1 < s.len()) {
            None
        } else {
            let e = s[i + 1];
            if e == '"' || e == '\\' || e == '/' {
                match scan_str(s, i + 2) {
                    Some((t, j)) => Some((seq![e] + t, j)),
                    None => None,
                }
            } else if e == 'n' || e == 'r' || e == 't' || e == 'b' || e == 'f' {
                let c = if e == 'n' {
                    '\n'
                } else if e == 'r' {
                    '\r'
                } else if e == 't' {
                    '\t'
                } else if e == 'b' {
                    8u8 as char
                } else {
                    12u8 as char
                };
                match scan_str(s, i + 2) {
                    Some((t, j)) => Some((seq![c] + t, j)),
                    None => None,
                }
            } else if e == 'u' {
                if !hex4_ok(s, i + 2) {
                    None
                } else {
                    let code = hex4_val(s, i + 2);
                    if 0xD800 <= code <= 0xDBFF {
                        // high surrogate: a low surrogate escape must follow
                        if i + 12 <= s.len() && s[i + 6] == '\\' && s[i + 7] == 'u' && hex4_ok(
                            s,
                            i + 8,
                        ) && 0xDC00 <= hex4_val(s, i + 8) <= 0xDFFF {
                            let lo = hex4_val(s, i + 8);
                            let combined = 0x10000 + (code - 0xD800) * 0x400 + (lo - 0xDC00);
                            match scan_str(s, i + 12) {
                                Some((t, j)) => Some((seq![(combined as u32) as char] + t, j)),
                                None => None,
                            }
                        } else {
                            None
                        }
                    } else if 0xDC00 <= code <= 0xDFFF {
                        None
                    } else {
                        match scan_str(s, i + 6) {
                            Some((t, j)) => Some((seq![(code as u32) as char] + t, j)),
                            None => None,
                        }
                    }
                }
            } else {
                None
            }
        }
    } else if (s[i] as u32) < 32 {
        None
    } else {
        match scan_str(s, i + 1) {
            Some((t, j)) => Some((seq![s[i]] + t, j)),
            None => None,
        }
    }
}

/// The end of a successful string scan lies past `i`, within the text.
pub proof fn lemma_scan_str_end(s: Seq<char>, i: int)
    requires
        scan_str(s, i) is Some,
    ensures
        i < scan_str(s, i)->Some_0.1 <= s.len(),
    decreases s.len() - i,
{
    if !(0 <= i < s.len()) {
    } else if s[i] == '"' {
    } else if s[i] == '\\' {
        let e = s[i + 1];
        if e == '"' || e == '\\' || e == '/' || e == 'n' || e == 'r' || e == 't' || e == 'b' || e
            == 'f' {
            lemma_scan_str_end(s, i + 2);
        } else if e == 'u' {
            let code = hex4_val(s, i + 2);
            if 0xD800 <= code <= 0xDBFF {
                lemma_scan_str_end(s, i + 12);
            } else {
                lemma_scan_str_end(s, i + 6);
            }
        }
    } else {
        lemma_scan_str_end(s, i + 1);
    }
}

/// The first position at or after `i` that does not hold a decimal digit.
pub open spec fn digits_end(s: Seq<char>, i: int) -> int
    decreases s.len() - i,
{
    if 0 <= i < s.len() && is_digit(s[i]) {
        digits_end(s, i + 1)
    } else {
        i
    }
}

/// `digits_end` stays within `[i, s.len()]` and lands past digits only.
pub proof fn lemma_digits_end(s: Seq<char>, i: int)
    requires
        0 <= i <= s.len(),
    ensures
        i <= digits_end(s, i) <= s.len(),
        digits_end(s, i) < s.len() ==> !is_digit(s[digits_end(s, i)]),
        forall|k: int| i <= k < digits_end(s, i) ==> is_digit(#[trigger] s[k]),
    decreases s.len() - i,
{
    if 0 <= i < s.len() && is_digit(s[i]) {
        lemma_digits_end(s, i + 1);
    }
}

/// Reads a JSON number token starting at `i` (which must hold `-` or a
/// digit); on success returns the end of the token. The grammar is JSON's:
/// an optional minus, an integer part without superfluous leading zero, an
/// optional fraction, an optional exponent.
pub open spec fn scan_num_end(s: Seq<char>, i: int) -> Option<int> {
    let j = if 0 <= i < s.len() && s[i] == '-' {
        i + 1
    } else {
        i
    };
    if !(0 <= j < s.len() && is_digit(s[j])) {
        None
    } else {
        let k = if s[j] == '0' {
            j + 1
        } else {
            digits_end(s, j)
        };
        match frac_end(s, k) {
            None => None,
            Some(m) => exp_end(s, m),
        }
    }
}

/// Reads an optional fraction part at `k`; `None` is a malformed fraction.
pub open spec fn frac_end(s: Seq<char>, k: int) -> Option<int> {
    if 0 <= k < s.len() && s[k] == '.' {
        if k + 1 < s.len() && is_digit(s[k + 1]) {
            Some(digits_end(s, k + 1))
        } else {
            None
        }
    } else {
        Some(k)
    }
}

/// Reads an optional exponent part at `m`; `None` is a malformed exponent.
pub open spec fn exp_end(s: Seq<char>, m: int) -> Option<int> {
    if 0 <= m < s.len() && (s[m] == 'e' || s[m] == 'E') {
        let p = if m + 1 < s.len() && (s[m + 1] == '+' || s[m + 1] == '-') {
            m + 2
        } else {
            m + 1
        };
        if p < s.len() && is_digit(s[p]) {
            Some(digits_end(s, p))
        } else {
            None
        }
    } else {
        Some(m)
    }
}

/// The end of a successful number scan lies past `i`, within the text.
pub proof fn lemma_scan_num_end(s: Seq<char>, i: int)
    requires
        0 <= i <= s.len(),
        scan_num_end(s, i) is Some,
    ensures
        i < scan_num_end(s, i)->0 <= s.len(),
{
    let j = if 0 <= i < s.len() && s[i] == '-' {
        i + 1
    } else {
        i
    };
    lemma_digits_end(s, j);
    let k = if s[j] == '0' {
        j + 1
    } else {
        digits_end(s, j)
    };
    if 0 <= k < s.len() && s[k] == '.' {
        lemma_digits_end(s, k + 1);
    }
    let m = frac_end(s, k)->0;
    if 0 <= m < s.len() && (s[m] == 'e' || s[m] == 'E') {
        let p = if m + 1 < s.len() && (s[m + 1] == '+' || s[m + 1] == '-') {
            m + 2
        } else {
            m + 1
        };
        if p < s.len() && is_digit(s[p]) {
            lemma_digits_end(s, p);
        }
    }
}

/// Whether positions `i .. i+4` spell `null` (and likewise for the other
/// keyword literals).
pub open spec fn lit_null_at(s: Seq<char>, i: int) -> bool {
    0 <= i && i + 4 <= s.len() && s[i] == 'n' && s[i + 1] == 'u' && s[i + 2] == 'l' && s[i + 3]
        == 'l'
}

pub open spec fn lit_true_at(s: Seq<char>, i: int) -> bool {
    0 <= i && i + 4 <= s.len() && s[i] == 't' && s[i + 1] == 'r' && s[i + 2] == 'u' && s[i + 3]
        == 'e'
}

pub open spec fn lit_false_at(s: Seq<char>, i: int) -> bool {
    0 <= i && i + 5 <= s.len() && s[i] == 'f' && s[i + 1] == 'a' && s[i + 2] == 'l' && s[i + 3]
        == 's' && s[i + 4] == 'e'
}

/// One parsing step's outcome: `None` when the fuel ran out, `Some(None)` on
/// a parse error, and `Some(Some(..))` on success.
///
/// Reads one JSON value beginning at `i` (leading whitespace allowed) and
/// returns it with the position just after it.
pub open spec fn jp_value(s: Seq<char>, i: int, fuel: nat) -> Option<Option<(JsonV, int)>>
    decreases fuel,
{
    if fuel == 0 {
        None
    } else {
        let f = (fuel - 1) as nat;
        let j = ws_end(s, i);
        if !(0 <= j < s.len()) {
            Some(None)
        } else if lit_null_at(s, j) {
            Some(Some((JsonV::Null, j + 4)))
        } else if lit_true_at(s, j) {
            Some(Some((JsonV::Bool(true), j + 4)))
        } else if lit_false_at(s, j) {
            Some(Some((JsonV::Bool(false), j + 5)))
        } else if s[j] == '"' {
            match scan_str(s, j + 1) {
                Some((t, e)) => Some(Some((JsonV::Str(t), e))),
                None => Some(None),
            }
        } else if s[j] == '-' || is_digit(s[j]) {
            match scan_num_end(s, j) {
                Some(e) => Some(Some((JsonV::Num(s.subrange(j, e)), e))),
                None => Some(None),
            }
        } else if s[j] == '[' {
            let j2 = ws_end(s, j + 1);
            if 0 <= j2 < s.len() && s[j2] == ']' {
                Some(Some((JsonV::Arr(Seq::empty()), j2 + 1)))
            } else {
                match jp_items(s, j + 1, f) {
                    None => None,
                    Some(None) => Some(None),
                    Some(Some((vs, e))) => Some(Some((JsonV::Arr(vs), e))),
                }
            }
        } else if s[j] == '{' {
            let j2 = ws_end(s, j + 1);
            if 0 <= j2 < s.len() && s[j2] == '}' {
                Some(Some((JsonV::Obj(Seq::empty()), j2 + 1)))
            } else {
                match jp_members(s, j + 1, f) {
                    None => None,
                    Some(None) => Some(None),
                    Some(Some((ps, e))) => Some(Some((JsonV::Obj(ps), e))),
                }
            }
        } else {
            Some(None)
        }
    }
}

/// Reads the elements of a non-empty array body beginning at `i`, up to and
/// including the closing bracket.
pub open spec fn jp_items(s: Seq<char>, i: int, fuel: nat) -> Option<Option<(Seq<JsonV>, int)>>
    decreases fuel,
{
    if fuel == 0 {
        None
    } else {
        let f = (fuel - 1) as nat;
        match jp_value(s, i, f) {
            None => None,
            Some(None) => Some(None),
            Some(Some((v, e))) => {
                let k = ws_end(s, e);
                if !(0 <= k < s.len()) {
                    Some(None)
                } else if s[k] == ']' {
                    Some(Some((seq![v], k + 1)))
                } else if s[k] == ',' {
                    match jp_items(s, k + 1, f) {
                        None => None,
                        Some(None) => Some(None),
                        Some(Some((vs, e2))) => Some(Some((seq![v] + vs, e2))),
                    }
                } else {
                    Some(None)
                }
            },
        }
    }
}

/// Reads the members of a non-empty object body beginning at `i`, up to and
/// including the closing brace.
pub open spec fn jp_members(s: Seq<char>, i: int, fuel: nat) -> Option<
    Option<(Seq<(Seq<char>, JsonV)>, int)>,
>
    decreases fuel,
{
    if fuel == 0 {
        None
    } else {
        let f = (fuel - 1) as nat;
        let j = ws_end(s, i);
        if !(0 <= j < s.len() && s[j] == '"') {
            Some(None)
        } else {
            match scan_str(s, j + 1) {
                None => Some(None),
                Some((key, e0)) => {
                    let c = ws_end(s, e0);
                    if !(0 <= c < s.len() && s[c] == ':') {
                        Some(None)
                    } else {
                        match jp_value(s, c + 1, f) {
                            None => None,
                            Some(None) => Some(None),
                            Some(Some((v, e))) => {
                                let k = ws_end(s, e);
                                if !(0 <= k < s.len()) {
                                    Some(None)
                                } else if s[k] == '}' {
                                    Some(Some((seq![(key, v)], k + 1)))
                                } else if s[k] == ',' {
                                    match jp_members(s, k + 1, f) {
                                        None => None,
                                        Some(None) => Some(None),
                                        Some(Some((ps, e2))) => Some(
                                            Some((seq![(key, v)] + ps, e2)),
                                        ),
                                    }
                                } else {
                                    Some(None)
                                }
                            },
                        }
                    }
                },
            }
        }
    }
}

/// The outcome of parsing `s` as one complete JSON text with the given fuel:
/// the value must be followed only by whitespace.
pub open spec fn jp_document(s: Seq<char>, fuel: nat) -> Option<Option<JsonV>> {
    match jp_value(s, 0, fuel) {
        None => None,
        Some(None) => Some(None),
        Some(Some((v, e))) => if ws_end(s, e) == s.len() {
            Some(Some(v))
        } else {
            Some(None)
        },
    }
}

/// What `s` parses to: the fuel-free meaning of `jp_document`. `None` means
/// `s` is not a valid JSON text.
pub open spec fn json_parse(s: Seq<char>) -> Option<JsonV> {
    if exists|f: nat| jp_document(s, f) is Some {
        jp_document(s, choose|f: nat| jp_document(s, f) is Some)->Some_0
    } else {
        None
    }
}

/// Once defined, the outcome of `jp_value` no longer changes with more fuel.
pub proof fn lemma_jp_value_mono(s: Seq<char>, i: int, f1: nat, f2: nat)
    requires
        f1 <= f2,
        jp_value(s, i, f1) is Some,
    ensures
        jp_value(s, i, f2) == jp_value(s, i, f1),
    decreases f1,
{
    let j = ws_end(s, i);
    if 0 <= j < s.len() && !lit_null_at(s, j) && !lit_true_at(s, j) && !lit_false_at(s, j) && s[j]
        != '"' && !(s[j] == '-' || is_digit(s[j])) {
        if s[j] == '[' {
            let j2 = ws_end(s, j + 1);
            if !(0 <= j2 < s.len() && s[j2] == ']') {
                if jp_items(s, j + 1, (f1 - 1) as nat) is Some {
                    lemma_jp_items_mono(s, j + 1, (f1 - 1) as nat, (f2 - 1) as nat);
                }
            }
        } else if s[j] == '{' {
            let j2 = ws_end(s, j + 1);
            if !(0 <= j2 < s.len() && s[j2] == '}') {
                if jp_members(s, j + 1, (f1 - 1) as nat) is Some {
                    lemma_jp_members_mono(s, j + 1, (f1 - 1) as nat, (f2 - 1) as nat);
                }
            }
        }
    }
}

/// Once defined, the outcome of `jp_items` no longer changes with more fuel.
pub proof fn lemma_jp_items_mono(s: Seq<char>, i: int, f1: nat, f2: nat)
    requires
        f1 <= f2,
        jp_items(s, i, f1) is Some,
    ensures
        jp_items(s, i, f2) == jp_items(s, i, f1),
    decreases f1,
{
    if jp_value(s, i, (f1 - 1) as nat) is Some {
        lemma_jp_value_mono(s, i, (f1 - 1) as nat, (f2 - 1) as nat);
        match jp_value(s, i, (f1 - 1) as nat) {
            Some(Some((v, e))) => {
                let k = ws_end(s, e);
                if 0 <= k < s.len() && s[k] == ',' {
                    if jp_items(s, k + 1, (f1 - 1) as nat) is Some {
                        lemma_jp_items_mono(s, k + 1, (f1 - 1) as nat, (f2 - 1) as nat);
                    }
                }
            },
            _ => {},
        }
    }
}

/// Once defined, the outcome of `jp_members` no longer changes with more fuel.
pub proof fn lemma_jp_members_mono(s: Seq<char>, i: int, f1: nat, f2: nat)
    requires
        f1 <= f2,
        jp_members(s, i, f1) is Some,
    ensures
        jp_members(s, i, f2) == jp_members(s, i, f1),
    decreases f1,
{
    let j = ws_end(s, i);
    if 0 <= j < s.len() && s[j] == '"' {
        match scan_str(s, j + 1) {
            None => {},
            Some((key, e0)) => {
                let c = ws_end(s, e0);
                if 0 <= c < s.len() && s[c] == ':' {
                    if jp_value(s, c + 1, (f1 - 1) as nat) is Some {
                        lemma_jp_value_mono(s, c + 1, (f1 - 1) as nat, (f2 - 1) as nat);
                        match jp_value(s, c + 1, (f1 - 1) as nat) {
                            Some(Some((v, e))) => {
                                let k = ws_end(s, e);
                                if 0 <= k < s.len() && s[k] == ',' {
                                    if jp_members(s, k + 1, (f1 - 1) as nat) is Some {
                                        lemma_jp_members_mono(
                                            s,
                                            k + 1,
                                            (f1 - 1) as nat,
                                            (f2 - 1) as nat,
                                        );
                                    }
                                }
                            },
                            _ => {},
                        }
                    }
                }
            },
        }
    }
}

/// A defined document outcome at any fuel is the meaning of the text.
pub proof fn lemma_jp_document_defined(s: Seq<char>, f: nat)
    requires
        jp_document(s, f) is Some,
    ensures
        json_parse(s) == jp_document(s, f)->Some_0,
{
    let g = choose|g: nat| jp_document(s, g) is Some;
    if g <= f {
        lemma_jp_value_mono(s, 0, g, f);
    } else {
        lemma_jp_value_mono(s, 0, f, g);
    }
}

use vstd::utf8::is_scalar;


/// Relies on `char::from_u32`: it returns a character exactly for Unicode
/// scalar values (not a surrogate, at most `0x10FFFF`), and that character
/// casts back to the given value.
pub assume_specification[ char::from_u32 ](u: u32) -> (r: Option<char>)
    ensures
        match r {
            Some(c) => is_scalar(u) && c as u32 == u,
            None => !is_scalar(u),
        },
;

/// First non-whitespace position at or after `i`.
fn ws_end_exec(s: &Vec<char>, i: usize) -> (r: usize)
    requires
        i <= s@.len(),
    ensures
        r as int == ws_end(s@, i as int),
        i <= r <= s@.len(),
{
    let mut k: usize = i;
    while k < s.len()
        invariant
            i <= k <= s@.len(),
            ws_end(s@, i as int) == ws_end(s@, k as int),
        decreases s@.len() - k,
    {
        let c = s[k];
        if !(c == ' ' || c == '\t' || c == '\n' || c == '\r') {
            return k;
        }
        k = k + 1;
    }
    k
}

/// First non-digit position at or after `i`.
fn digits_end_exec(s: &Vec<char>, i: usize) -> (r: usize)
    requires
        i <= s@.len(),
    ensures
        r as int == digits_end(s@, i as int),
        i <= r <= s@.len(),
{
    let mut k: usize = i;
    while k < s.len()
        invariant
            i <= k <= s@.len(),
            digits_end(s@, i as int) == digits_end(s@, k as int),
        decreases s@.len() - k,
    {
        let c = s[k];
        let u = c as u32;
        if !(48 <= u && u <= 57) {
            return k;
        }
        k = k + 1;
    }
    k
}

/// Reads four hexadecimal digits at `i`.
fn read_hex4(s: &Vec<char>, i: usize) -> (r: Option<u32>)
    requires
        i <= s@.len(),
    ensures
        match r {
            Some(v) => hex4_ok(s@, i as int) && v as nat == hex4_val(s@, i as int) && v <= 0xFFFF,
            None => !hex4_ok(s@, i as int),
        },
{
    if s.len() < 4 || i > s.len() - 4 {
        return None;
    }
    let iend: usize = i + 4;
    let mut v: u32 = 0;
    let mut m: usize = i;
    while m < iend
        invariant
            i <= m <= iend,
            iend == i + 4,
            iend <= s@.len(),
            forall|t: int| i <= t < m ==> is_hex(#[trigger] s@[t]),
            v as nat == hex_prefix_val(s@, i as int, m - i),
            m - i == 0 ==> v == 0,
            m - i == 1 ==> v < 16,
            m - i == 2 ==> v < 256,
            m - i == 3 ==> v < 4096,
            m - i == 4 ==> v < 65536,
        decreases iend - m,
    {
        let c = s[m];
        let u = c as u32;
        let d: u32 = if 48 <= u && u <= 57 {
            u - 48
        } else if 97 <= u && u <= 102 {
            u - 87
        } else if 65 <= u && u <= 70 {
            u - 55
        } else {
            return None;
        };
        assert(is_hex(c) && d as nat == hex_val(c));
        v = v * 16 + d;
        m = m + 1;
    }
    proof {
        assert(hex_prefix_val(s@, i as int, 0) == 0);
        assert(hex_prefix_val(s@, i as int, 1) == hex_prefix_val(s@, i as int, 0) * 16 + hex_val(
            s@[i as int],
        ));
        assert(hex_prefix_val(s@, i as int, 2) == hex_prefix_val(s@, i as int, 1) * 16 + hex_val(
            s@[i + 1],
        ));
        assert(hex_prefix_val(s@, i as int, 3) == hex_prefix_val(s@, i as int, 2) * 16 + hex_val(
            s@[i + 2],
        ));
        assert(hex_prefix_val(s@, i as int, 4) == hex_prefix_val(s@, i as int, 3) * 16 + hex_val(
            s@[i + 3],
        ));
        assert(hex4_ok(s@, i as int));
        assert(v as nat == hex4_val(s@, i as int));
    }
    Some(v)
}

/// The value of the first `k` of four hexadecimal digits at `i`.
pub open spec fn hex_prefix_val(s: Seq<char>, i: int, k: int) -> nat
    decreases k,
{
    if k <= 0 {
        0
    } else {
        hex_prefix_val(s, i, k - 1) * 16 + hex_val(s[i + k - 1])
    }
}

/// One string-scanning step folds its decoded character onto the front.
proof fn lemma_str_step(s: Seq<char>, i: int, cur: int, ncur: int, acc0: Seq<char>, c0: char)
    requires
        (match scan_str(s, cur) {
            Some((t, j)) => scan_str(s, i) == Some((acc0 + t, j)),
            None => scan_str(s, i) is None,
        }),
        scan_str(s, cur) == (match scan_str(s, ncur) {
            Some((t2, j2)) => Some((seq![c0] + t2, j2)),
            None => None::<(Seq<char>, int)>,
        }),
    ensures
        (match scan_str(s, ncur) {
            Some((t, j)) => scan_str(s, i) == Some((acc0.push(c0) + t, j)),
            None => scan_str(s, i) is None,
        }),
{
    match scan_str(s, ncur) {
        Some((t, j)) => {
            assert(acc0 + (seq![c0] + t) =~= acc0.push(c0) + t);
        },
        None => {},
    }
}

/// Reads a string body (after the opening quote), mirroring [`scan_str`].
fn scan_str_exec(s: &Vec<char>, i: usize) -> (r: Option<(Vec<char>, usize)>)
    requires
        i <= s@.len(),
    ensures
        match r {
            Some((t, e)) => scan_str(s@, i as int) == Some((t@, e as int)) && i < e <= s@.len(),
            None => scan_str(s@, i as int) is None,
        },
{
    let mut acc: Vec<char> = Vec::new();
    let mut cur: usize = i;
    loop
        invariant
            i <= cur <= s@.len(),
            (match scan_str(s@, cur as int) {
                Some((t, j)) => scan_str(s@, i as int) == Some((acc@ + t, j)),
                None => scan_str(s@, i as int) is None,
            }),
        decreases s@.len() - cur,
    {
        if cur >= s.len() {
            return None;
        }
        let c = s[cur];
        if c == '"' {
            proof {
                assert(acc@ + Seq::<char>::empty() =~= acc@);
                lemma_scan_str_end(s@, i as int);
            }
            return Some((acc, cur + 1));
        } else if c == '\\' {
            if cur + 1 >= s.len() {
                return None;
            }
            let e = s[cur + 1];
            let ghost cur0 = cur as int;
            let ghost acc0 = acc@;
            if e == '"' || e == '\\' || e == '/' {
                acc.push(e);
                cur = cur + 2;
                proof {
                    lemma_str_step(s@, i as int, cur0, cur as int, acc0, e);
                }
            } else if e == 'n' || e == 'r' || e == 't' || e == 'b' || e == 'f' {
                let c0: char = if e == 'n' {
                    '\n'
                } else if e == 'r' {
                    '\r'
                } else if e == 't' {
                    '\t'
                } else if e == 'b' {
                    8u8 as char
                } else {
                    12u8 as char
                };
                acc.push(c0);
                cur = cur + 2;
                proof {
                    lemma_str_step(s@, i as int, cur0, cur as int, acc0, c0);
                }
            } else if e == 'u' {
                let code = match read_hex4(s, cur + 2) {
                    Some(v) => v,
                    None => {
                        return None;
                    },
                };
                if 0xD800 <= code && code <= 0xDBFF {
                    if s.len() >= 12 && cur <= s.len() - 12 && s[cur + 6] == '\\' && s[cur + 7] == 'u' {
                        let lo = match read_hex4(s, cur + 8) {
                            Some(v) => v,
                            None => {
                                return None;
                            },
                        };
                        if 0xDC00 <= lo && lo <= 0xDFFF {
                            let combined: u32 = 0x10000 + (code - 0xD800) * 0x400 + (lo - 0xDC00);
                            assert(is_scalar(combined));
                            let c0 = match char::from_u32(combined) {
                                Some(c0) => c0,
                                None => {
                                    proof {
                                        assert(false);
                                    }
                                    ' '
                                },
                            };
                            proof {
                                vstd::utf8::char_u32_cast(c0, combined);
                            }
                            acc.push(c0);
                            cur = cur + 12;
                            proof {
                                lemma_str_step(s@, i as int, cur0, cur as int, acc0, c0);
                            }
                        } else {
                            return None;
                        }
                    } else {
                        return None;
                    }
                } else if 0xDC00 <= code && code <= 0xDFFF {
                    return None;
                } else {
                    assert(is_scalar(code));
                    let c0 = match char::from_u32(code) {
                        Some(c0) => c0,
                        None => {
                            proof {
                                assert(false);
                            }
                            ' '
                        },
                    };
                    proof {
                        vstd::utf8::char_u32_cast(c0, code);
                    }
                    acc.push(c0);
                    cur = cur + 6;
                    proof {
                        lemma_str_step(s@, i as int, cur0, cur as int, acc0, c0);
                    }
                }
            } else {
                return None;
            }
        } else if (c as u32) < 32 {
            return None;
        } else {
            let ghost cur0 = cur as int;
            let ghost acc0 = acc@;
            acc.push(c);
            cur = cur + 1;
            proof {
                lemma_str_step(s@, i as int, cur0, cur as int, acc0, c);
            }
        }
    }
}

/// Reads a number token, mirroring [`scan_num_end`].
fn scan_num_exec(s: &Vec<char>, i: usize) -> (r: Option<usize>)
    requires
        i <= s@.len(),
    ensures
        match r {
            Some(e) => scan_num_end(s@, i as int) == Some(e as int) && i <= e <= s@.len(),
            None => scan_num_end(s@, i as int) is None,
        },
{
    let mut j: usize = i;
    if j < s.len() && s[j] == '-' {
        j = j + 1;
    }
    if !(j < s.len()) {
        return None;
    }
    let cj = s[j];
    let uj = cj as u32;
    if !(48 <= uj && uj <= 57) {
        return None;
    }
    let k: usize = if cj == '0' {
        j + 1
    } else {
        digits_end_exec(s, j)
    };
    proof {
        lemma_digits_end(s@, j as int);
    }
    let m: usize;
    if k < s.len() && s[k] == '.' {
        if k + 1 < s.len() {
            let cf = s[k + 1];
            let uf = cf as u32;
            if 48 <= uf && uf <= 57 {
                m = digits_end_exec(s, k + 1);
            } else {
                return None;
            }
        } else {
            return None;
        }
    } else {
        m = k;
    }
    proof {
        assert(frac_end(s@, k as int) == Some(m as int));
    }
    if m < s.len() && (s[m] == 'e' || s[m] == 'E') {
        let p: usize = if m + 1 < s.len() && (s[m + 1] == '+' || s[m + 1] == '-') {
            m + 2
        } else {
            m + 1
        };
        if p < s.len() {
            let cp = s[p];
            let up = cp as u32;
            if 48 <= up && up <= 57 {
                let e = digits_end_exec(s, p);
                return Some(e);
            } else {
                return None;
            }
        } else {
            return None;
        }
    }
    Some(m)
}


/// The characters `s[from .. to]`, as a `String`.
fn string_range(s: &Vec<char>, from: usize, to: usize) -> (r: String)
    requires
        from <= to <= s@.len(),
    ensures
        r@ == s@.subrange(from as int, to as int),
{
    let mut out: Vec<char> = Vec::new();
    let mut k: usize = from;
    while k < to
        invariant
            from <= k <= to <= s@.len(),
            out@ == s@.subrange(from as int, k as int),
        decreases to - k,
    {
        out.push(s[k]);
        proof {
            assert(out@ =~= s@.subrange(from as int, k + 1));
        }
        k = k + 1;
    }
    chars_to_string(out)
}

/// Reads one JSON value beginning at `i`, mirroring [`jp_value`].
fn jp_value_exec(s: &Vec<char>, i: usize) -> (r: Option<(Json, usize)>)
    requires
        i <= s@.len(),
    ensures
        match r {
            Some((v, e)) => i < e <= s@.len() && exists|f: nat|
                jp_value(s@, i as int, f) == Some(Some((v@, e as int))),
            None => exists|f: nat| jp_value(s@, i as int, f) == Some(None::<(JsonV, int)>),
        },
    decreases s@.len() - i, 0int,
{
    let j = ws_end_exec(s, i);
    proof {
        lemma_ws_end(s@, i as int);
    }
    if j >= s.len() {
        proof {
            assert(jp_value(s@, i as int, 1) == Some(None::<(JsonV, int)>));
        }
        return None;
    }
    let c = s[j];
    if c == 'n' {
        if s.len() >= 4 && j <= s.len() - 4 && s[j + 1] == 'u' && s[j + 2] == 'l' && s[j + 3] == 'l' {
            proof {
                assert(lit_null_at(s@, j as int));
                assert(jp_value(s@, i as int, 1) == Some(Some((JsonV::Null, j + 4))));
            }
            return Some((Json::Null, j + 4));
        } else {
            proof {
                assert(jp_value(s@, i as int, 1) == Some(None::<(JsonV, int)>));
            }
            return None;
        }
    } else if c == 't' {
        if s.len() >= 4 && j <= s.len() - 4 && s[j + 1] == 'r' && s[j + 2] == 'u' && s[j + 3] == 'e' {
            proof {
                assert(lit_true_at(s@, j as int));
                assert(jp_value(s@, i as int, 1) == Some(Some((JsonV::Bool(true), j + 4))));
            }
            return Some((Json::Bool(true), j + 4));
        } else {
            proof {
                assert(jp_value(s@, i as int, 1) == Some(None::<(JsonV, int)>));
            }
            return None;
        }
    } else if c == 'f' {
        if s.len() >= 5 && j <= s.len() - 5 && s[j + 1] == 'a' && s[j + 2] == 'l' && s[j + 3]
            == 's' && s[j + 4] == 'e' {
            proof {
                assert(lit_false_at(s@, j as int));
                assert(jp_value(s@, i as int, 1) == Some(Some((JsonV::Bool(false), j + 5))));
            }
            return Some((Json::Bool(false), j + 5));
        } else {
            proof {
                assert(jp_value(s@, i as int, 1) == Some(None::<(JsonV, int)>));
            }
            return None;
        }
    } else if c == '"' {
        match scan_str_exec(s, j + 1) {
            Some((t, e)) => {
                let st = chars_to_string(t);
                let ghost vv = JsonV::Str(st@);
                proof {
                    assert(jp_value(s@, i as int, 1) == Some(Some((vv, e as int))));
                }
                return Some((Json::Str(st), e));
            },
            None => {
                proof {
                    assert(jp_value(s@, i as int, 1) == Some(None::<(JsonV, int)>));
                }
                return None;
            },
        }
    } else {
        let u = c as u32;
        if c == '-' || (48 <= u && u <= 57) {
            match scan_num_exec(s, j) {
                Some(e) => {
                    proof {
                        lemma_scan_num_end(s@, j as int);
                    }
                    let tok = string_range(s, j, e);
                    let ghost vv = JsonV::Num(tok@);
                    proof {
                        assert(jp_value(s@, i as int, 1) == Some(Some((vv, e as int))));
                    }
                    return Some((Json::Num(tok), e));
                },
                None => {
                    proof {
                        assert(jp_value(s@, i as int, 1) == Some(None::<(JsonV, int)>));
                    }
                    return None;
                },
            }
        } else if c == '[' {
            let j2 = ws_end_exec(s, j + 1);
            proof {
                lemma_ws_end(s@, j + 1);
            }
            if j2 < s.len() && s[j2] == ']' {
                let vs: Vec<Json> = Vec::new();
                let out = Json::Arr(vs);
                proof {
                    assert(out@->Arr_0 =~= Seq::<JsonV>::empty());
                    assert(jp_value(s@, i as int, 1) == Some(
                        Some((JsonV::Arr(Seq::empty()), j2 + 1)),
                    ));
                }
                return Some((out, j2 + 1));
            } else {
                match jp_items_exec(s, j + 1) {
                    Some((vs, e)) => {
                        let ghost jn: int = j + 1;
                        let ghost fr = choose|f: nat|
                            jp_items(s@, jn, f) == Some(Some((views_of(vs@), e as int)));
                        let out = Json::Arr(vs);
                        proof {
                            assert(out@->Arr_0 =~= views_of(out->Arr_0@));
                            assert(jp_value(s@, i as int, fr + 1) == Some(
                                Some((out@, e as int)),
                            ));
                        }
                        return Some((out, e));
                    },
                    None => {
                        let ghost jn: int = j + 1;
                        let ghost fr = choose|f: nat|
                            jp_items(s@, jn, f) == Some(None::<(Seq<JsonV>, int)>);
                        proof {
                            assert(jp_value(s@, i as int, fr + 1) == Some(None::<(JsonV, int)>));
                        }
                        return None;
                    },
                }
            }
        } else if c == '{' {
            let j2 = ws_end_exec(s, j + 1);
            proof {
                lemma_ws_end(s@, j + 1);
            }
            if j2 < s.len() && s[j2] == '}' {
                let ps: Vec<(String, Json)> = Vec::new();
                let out = Json::Obj(ps);
                proof {
                    assert(out@->Obj_0 =~= Seq::<(Seq<char>, JsonV)>::empty());
                    assert(jp_value(s@, i as int, 1) == Some(
                        Some((JsonV::Obj(Seq::empty()), j2 + 1)),
                    ));
                }
                return Some((out, j2 + 1));
            } else {
                match jp_members_exec(s, j + 1) {
                    Some((ps, e)) => {
                        let ghost jn: int = j + 1;
                        let ghost fr = choose|f: nat|
                            jp_members(s@, jn, f) == Some(
                                Some((pair_views_of(ps@), e as int)),
                            );
                        let out = Json::Obj(ps);
                        proof {
                            assert(out@->Obj_0 =~= pair_views_of(out->Obj_0@));
                            assert(jp_value(s@, i as int, fr + 1) == Some(
                                Some((out@, e as int)),
                            ));
                        }
                        return Some((out, e));
                    },
                    None => {
                        let ghost jn: int = j + 1;
                        let ghost fr = choose|f: nat|
                            jp_members(s@, jn, f) == Some(
                                None::<(Seq<(Seq<char>, JsonV)>, int)>,
                            );
                        proof {
                            assert(jp_value(s@, i as int, fr + 1) == Some(None::<(JsonV, int)>));
                        }
                        return None;
                    },
                }
            }
        } else {
            proof {
                assert(jp_value(s@, i as int, 1) == Some(None::<(JsonV, int)>));
            }
            return None;
        }
    }
}

/// Reads the elements of a non-empty array body, mirroring [`jp_items`].
fn jp_items_exec(s: &Vec<char>, i: usize) -> (r: Option<(Vec<Json>, usize)>)
    requires
        i <= s@.len(),
    ensures
        match r {
            Some((vs, e)) => i < e <= s@.len() && exists|f: nat|
                jp_items(s@, i as int, f) == Some(Some((views_of(vs@), e as int))),
            None => exists|f: nat|
                jp_items(s@, i as int, f) == Some(None::<(Seq<JsonV>, int)>),
        },
    decreases s@.len() - i, 1int,
{
    match jp_value_exec(s, i) {
        None => {
            let ghost fv = choose|f: nat|
                jp_value(s@, i as int, f) == Some(None::<(JsonV, int)>);
            proof {
                assert(jp_items(s@, i as int, fv + 1) == Some(None::<(Seq<JsonV>, int)>));
            }
            None
        },
        Some((v, e)) => {
            let ghost vv = v@;
            let ghost fv = choose|f: nat|
                jp_value(s@, i as int, f) == Some(Some((v@, e as int)));
            let k = ws_end_exec(s, e);
            proof {
                lemma_ws_end(s@, e as int);
            }
            if k >= s.len() {
                proof {
                    assert(jp_items(s@, i as int, fv + 1) == Some(None::<(Seq<JsonV>, int)>));
                }
                return None;
            }
            let ck = s[k];
            if ck == ']' {
                let mut vs: Vec<Json> = Vec::new();
                vs.push(v);
                proof {
                    assert(views_of(vs@) =~= seq![vv]);
                    assert(jp_items(s@, i as int, fv + 1) == Some(Some((seq![vv], k + 1))));
                }
                Some((vs, k + 1))
            } else if ck == ',' {
                match jp_items_exec(s, k + 1) {
                    None => {
                        let ghost kn: int = k + 1;
                        let ghost fr = choose|f: nat|
                            jp_items(s@, kn, f) == Some(None::<(Seq<JsonV>, int)>);
                        proof {
                            let fall = fv + fr + 1;
                            lemma_jp_value_mono(s@, i as int, fv, (fall - 1) as nat);
                            lemma_jp_items_mono(s@, k + 1, fr, (fall - 1) as nat);
                            assert(jp_items(s@, i as int, fall as nat) == Some(
                                None::<(Seq<JsonV>, int)>,
                            ));
                        }
                        None
                    },
                    Some((vs2, e2)) => {
                        let ghost rest = views_of(vs2@);
                        let ghost kn: int = k + 1;
                        let ghost fr = choose|f: nat|
                            jp_items(s@, kn, f) == Some(Some((views_of(vs2@), e2 as int)));
                        let mut vs2 = vs2;
                        vs2.insert(0, v);
                        proof {
                            assert(views_of(vs2@) =~= seq![vv] + rest);
                            let fall = fv + fr + 1;
                            lemma_jp_value_mono(s@, i as int, fv, (fall - 1) as nat);
                            lemma_jp_items_mono(s@, k + 1, fr, (fall - 1) as nat);
                            assert(jp_items(s@, i as int, fall as nat) == Some(
                                Some((seq![vv] + rest, e2 as int)),
                            ));
                        }
                        Some((vs2, e2))
                    },
                }
            } else {
                proof {
                    assert(jp_items(s@, i as int, fv + 1) == Some(None::<(Seq<JsonV>, int)>));
                }
                None
            }
        },
    }
}

/// Reads the members of a non-empty object body, mirroring [`jp_members`].
fn jp_members_exec(s: &Vec<char>, i: usize) -> (r: Option<(Vec<(String, Json)>, usize)>)
    requires
        i <= s@.len(),
    ensures
        match r {
            Some((ps, e)) => i < e <= s@.len() && exists|f: nat|
                jp_members(s@, i as int, f) == Some(Some((pair_views_of(ps@), e as int))),
            None => exists|f: nat|
                jp_members(s@, i as int, f) == Some(None::<(Seq<(Seq<char>, JsonV)>, int)>),
        },
    decreases s@.len() - i, 1int,
{
    let j = ws_end_exec(s, i);
    proof {
        lemma_ws_end(s@, i as int);
    }
    if !(j < s.len() && s[j] == '"') {
        proof {
            assert(jp_members(s@, i as int, 1) == Some(None::<(Seq<(Seq<char>, JsonV)>, int)>));
        }
        return None;
    }
    let (kt, e0) = match scan_str_exec(s, j + 1) {
        Some(p) => p,
        None => {
            proof {
                assert(jp_members(s@, i as int, 1) == Some(
                    None::<(Seq<(Seq<char>, JsonV)>, int)>,
                ));
            }
            return None;
        },
    };
    let key = chars_to_string(kt);
    let ghost kv = key@;
    let cpos = ws_end_exec(s, e0);
    proof {
        lemma_ws_end(s@, e0 as int);
    }
    if !(cpos < s.len() && s[cpos] == ':') {
        proof {
            assert(jp_members(s@, i as int, 1) == Some(None::<(Seq<(Seq<char>, JsonV)>, int)>));
        }
        return None;
    }
    match jp_value_exec(s, cpos + 1) {
        None => {
            let ghost cn: int = cpos + 1;
            let ghost fv = choose|f: nat| jp_value(s@, cn, f) == Some(None::<(JsonV, int)>);
            proof {
                assert(jp_members(s@, i as int, fv + 1) == Some(
                    None::<(Seq<(Seq<char>, JsonV)>, int)>,
                ));
            }
            None
        },
        Some((v, e)) => {
            let ghost vv = v@;
            let ghost cn: int = cpos + 1;
            let ghost fv = choose|f: nat| jp_value(s@, cn, f) == Some(Some((v@, e as int)));
            let k = ws_end_exec(s, e);
            proof {
                lemma_ws_end(s@, e as int);
            }
            if k >= s.len() {
                proof {
                    assert(jp_members(s@, i as int, fv + 1) == Some(
                        None::<(Seq<(Seq<char>, JsonV)>, int)>,
                    ));
                }
                return None;
            }
            let ck = s[k];
            if ck == '}' {
                let mut ps: Vec<(String, Json)> = Vec::new();
                ps.push((key, v));
                proof {
                    assert(pair_views_of(ps@) =~= seq![(kv, vv)]);
                    assert(jp_members(s@, i as int, fv + 1) == Some(
                        Some((seq![(kv, vv)], k + 1)),
                    ));
                }
                Some((ps, k + 1))
            } else if ck == ',' {
                match jp_members_exec(s, k + 1) {
                    None => {
                        let ghost kn: int = k + 1;
                        let ghost fr = choose|f: nat|
                            jp_members(s@, kn, f) == Some(
                                None::<(Seq<(Seq<char>, JsonV)>, int)>,
                            );
                        proof {
                            let fall = fv + fr + 1;
                            lemma_jp_value_mono(s@, cpos + 1, fv, (fall - 1) as nat);
                            lemma_jp_members_mono(s@, k + 1, fr, (fall - 1) as nat);
                            assert(jp_members(s@, i as int, fall as nat) == Some(
                                None::<(Seq<(Seq<char>, JsonV)>, int)>,
                            ));
                        }
                        None
                    },
                    Some((ps2, e2)) => {
                        let ghost rest = pair_views_of(ps2@);
                        let ghost kn: int = k + 1;
                        let ghost fr = choose|f: nat|
                            jp_members(s@, kn, f) == Some(
                                Some((pair_views_of(ps2@), e2 as int)),
                            );
                        let mut ps2 = ps2;
                        ps2.insert(0, (key, v));
                        proof {
                            assert(pair_views_of(ps2@) =~= seq![(kv, vv)] + rest);
                            let fall = fv + fr + 1;
                            lemma_jp_value_mono(s@, cpos + 1, fv, (fall - 1) as nat);
                            lemma_jp_members_mono(s@, k + 1, fr, (fall - 1) as nat);
                            assert(jp_members(s@, i as int, fall as nat) == Some(
                                Some((seq![(kv, vv)] + rest, e2 as int)),
                            ));
                        }
                        Some((ps2, e2))
                    },
                }
            } else {
                proof {
                    assert(jp_members(s@, i as int, fv + 1) == Some(
                        None::<(Seq<(Seq<char>, JsonV)>, int)>,
                    ));
                }
                None
            }
        },
    }
}

/// Parses a complete JSON text. Returns the value exactly when the text is
/// valid JSON, per [`json_parse`].
pub fn parse_json(s: &str) -> (r: Option<Json>)
    ensures
        match r {
            Some(v) => json_parse(s@) == Some(v@),
            None => json_parse(s@) is None,
        },
{
    let sv = chars_of(s);
    match jp_value_exec(&sv, 0) {
        None => {
            let ghost f = choose|f: nat| jp_value(s@, 0, f) == Some(None::<(JsonV, int)>);
            proof {
                assert(jp_document(s@, f) == Some(None::<JsonV>));
                lemma_jp_document_defined(s@, f);
            }
            None
        },
        Some((v, e)) => {
            let ghost f = choose|f: nat| jp_value(s@, 0, f) == Some(Some((v@, e as int)));
            let t = ws_end_exec(&sv, e);
            proof {
                lemma_ws_end(s@, e as int);
            }
            if t == sv.len() {
                proof {
                    assert(jp_document(s@, f) == Some(Some(v@)));
                    lemma_jp_document_defined(s@, f);
                }
                Some(v)
            } else {
                proof {
                    assert(jp_document(s@, f) == Some(None::<JsonV>));
                    lemma_jp_document_defined(s@, f);
                }
                None
            }
        },
    }
}

} // verus!
