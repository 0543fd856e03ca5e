//! The decode/encode round trip.
//!
//! The canonical pretty-printed text of a well-formed JSON value parses back
//! to exactly that value. Well-formedness asks only that every number's
//! token is a complete number token — which is true of every value this
//! crate builds or parses.

use vstd::prelude::*;

use crate::dec::{dec_digits, dec_int, is_digit, lemma_dec_digits_val};
use crate::card::{CardExtensions, CharaCardV3, CharacterBook, CharacterData, DepthPrompt, LoreEntry, RegexScript};
use crate::card_json::{
    depth_json_ok, depth_jsonv, depth_matches, depth_members, extras_of, int_of_token, jv_int,
    entry_json_ok, entry_jsonv, entry_matches, entry_members, ext_json_ok, ext_jsonv, ext_matches,
    ext_members, book_json_ok, book_jsonv, book_matches, book_members, data_json_ok, data_jsonv,
    data_matches, data_members, jv_opt_i32, jv_opt_str, jv_strlist, known_key, lookup,
    script_json_ok, v3_json_ok, v3_jsonv, v3_matches, v3_members,
    script_jsonv, script_matches, script_members, strlist_field_ok, strlist_field_val, Record,
};
use crate::dec::dec_val;
use crate::json::{pair_views_of, JsonV};
use crate::json_parse::{
    digits_end, exp_end, frac_end, hex4_ok, hex4_val, hex_val, is_hex, is_ws, jp_document,
    jp_items, jp_members, jp_value, json_parse, lemma_digits_end, lemma_jp_document_defined,
    lemma_jp_items_mono, lemma_jp_members_mono, lemma_jp_value_mono, lemma_ws_end, lit_false_at,
    lit_null_at, lit_true_at, scan_num_end, scan_str, ws_end,
};
use crate::json_text::{esc, esc_char, hex_digit, pp, pp_items, pp_member, pp_members, sp};

verus! {

/// A character that could extend a number token to its left.
pub open spec fn num_extender(c: char) -> bool {
    is_digit(c) || c == '.' || c == 'e' || c == 'E' || c == '+' || c == '-'
}

/// A number token is well formed when it is a complete JSON number: read as
/// a standalone text, the token scan consumes all of it.
pub open spec fn wf_num(t: Seq<char>) -> bool {
    t.len() >= 1 && scan_num_end(t, 0) == Some(t.len() as int)
}

/// A JSON value all of whose number tokens are well formed.
pub open spec fn wf_json(v: JsonV) -> bool
    decreases v,
{
    match v {
        JsonV::Null => true,
        JsonV::Bool(_) => true,
        JsonV::Str(_) => true,
        JsonV::Num(t) => wf_num(t),
        JsonV::Arr(items) => forall|i: int| 0 <= i < items.len() ==> wf_json(#[trigger] items[i]),
        JsonV::Obj(pairs) => forall|i: int|
            0 <= i < pairs.len() ==> wf_json(#[trigger] pairs[i].1),
    }
}

/// Integer decimal tokens are well-formed number tokens.
pub proof fn lemma_wf_dec_int(n: int)
    ensures
        wf_num(dec_int(n)),
{
    let t = dec_int(n);
    if n < 0 {
        let m = (-n) as nat;
        lemma_dec_digits_val(m);
        assert(t.len() == 1 + dec_digits(m).len());
        assert(t[0] == '-');
        assert(forall|q: int| 0 <= q < dec_digits(m).len() ==> t[1 + q] == dec_digits(m)[q]);
        assert(is_digit(t[1]));
        assert(!is_digit('-'));
        if t[1] == '0' {
            assert(dec_digits(m)[0] == '0');
            assert(m < 10);
            assert(dec_digits(m) =~= seq![crate::dec::digit_char(m)]);
            assert(((m + 48) as u8) as char == '0');
            assert(m == 0);
            assert(false);
        }
        lemma_digits_end_exact(t, 1, t.len() as int);
        assert(frac_end(t, t.len() as int) == Some(t.len() as int));
        assert(exp_end(t, t.len() as int) == Some(t.len() as int));
        assert(scan_num_end(t, 0) == Some(t.len() as int));
    } else {
        let m = n as nat;
        lemma_dec_digits_val(m);
        assert(t == dec_digits(m));
        assert(t.len() >= 1 && is_digit(t[0]));
        assert(t[0] != '-');
        if t[0] == '0' {
            assert(m < 10);
            assert(t =~= seq![crate::dec::digit_char(m)]);
            assert(((m + 48) as u8) as char == '0');
            assert(m == 0);
            assert(scan_num_end(t, 0) == Some(1int));
        } else {
            lemma_digits_end_exact(t, 0, t.len() as int);
            assert(scan_num_end(t, 0) == Some(t.len() as int));
        }
    }
}

/// A run of digits ending at a non-digit (or the end) is scanned exactly.
pub proof fn lemma_digits_end_exact(s: Seq<char>, a: int, b: int)
    requires
        0 <= a <= b <= s.len(),
        forall|q: int| a <= q < b ==> is_digit(#[trigger] s[q]),
        b < s.len() ==> !is_digit(s[b]),
    ensures
        digits_end(s, a) == b,
    decreases b - a,
{
    if a < b {
        lemma_digits_end_exact(s, a + 1, b);
    }
}

/// A run of whitespace ending at a non-space (or the end) is skipped
/// exactly.
pub proof fn lemma_ws_end_exact(s: Seq<char>, a: int, b: int)
    requires
        0 <= a <= b <= s.len(),
        forall|q: int| a <= q < b ==> is_ws(#[trigger] s[q]),
        b < s.len() ==> !is_ws(s[b]),
    ensures
        ws_end(s, a) == b,
    decreases b - a,
{
    if a < b {
        lemma_ws_end_exact(s, a + 1, b);
    }
}

/// A well-formed token embedded in a longer text, with nothing
/// number-extending after it, scans to exactly its end.
pub proof fn lemma_scan_num_embed(t: Seq<char>, s: Seq<char>, i: int)
    requires
        wf_num(t),
        0 <= i,
        i + t.len() <= s.len(),
        forall|q: int| 0 <= q < t.len() ==> s[i + q] == #[trigger] t[q],
        i + t.len() == s.len() || !num_extender(s[i + t.len()]),
    ensures
        scan_num_end(s, i) == Some(i + t.len()),
{
    let e = i + t.len();
    let tj: int = if t[0] == '-' {
        1
    } else {
        0
    };
    let j = i + tj;
    assert(s[i] == t[0]);
    // integer part
    lemma_digits_end(t, tj);
    assert(is_digit(t[tj]));
    let tk: int = if t[tj] == '0' {
        tj + 1
    } else {
        digits_end(t, tj)
    };
    lemma_digits_end(t, tj);
    let k = i + tk;
    if t[tj] != '0' {
        assert(forall|q: int| tj <= q < tk ==> is_digit(#[trigger] t[q]));
        assert forall|q: int| j <= q < k implies is_digit(#[trigger] s[q]) by {
            assert(s[q] == t[q - i]);
        }
        if tk < t.len() {
            assert(!is_digit(t[tk]));
            assert(s[k] == t[tk]);
            lemma_digits_end_exact(s, j, k);
        } else {
            lemma_digits_end_exact(s, j, k);
        }
    }
    // fraction part
    let tm = frac_end(t, tk);
    assert(tm is Some);
    let tmv = tm->0;
    let m = i + tmv;
    if tk < t.len() && t[tk] == '.' {
        assert(s[k] == '.');
        assert(is_digit(t[tk + 1]));
        lemma_digits_end(t, tk + 1);
        let td = digits_end(t, tk + 1);
        assert(forall|q: int| tk + 1 <= q < td ==> is_digit(#[trigger] t[q]));
        assert forall|q: int| k + 1 <= q < i + td implies is_digit(#[trigger] s[q]) by {
            assert(s[q] == t[q - i]);
        }
        if td < t.len() {
            assert(!is_digit(t[td]));
            lemma_digits_end_exact(s, k + 1, i + td);
        } else {
            lemma_digits_end_exact(s, k + 1, i + td);
        }
        assert(frac_end(s, k) == Some(i + td));
        assert(tmv == td);
    } else {
        if tk < t.len() {
            assert(s[k] == t[tk] && t[tk] != '.');
        } else {
            assert(k == e);
        }
        assert(frac_end(s, k) == Some(k));
        assert(tmv == tk);
    }
    // exponent part
    if tmv < t.len() && (t[tmv] == 'e' || t[tmv] == 'E') {
        assert(s[m] == t[tmv]);
        let tp: int = if tmv + 1 < t.len() && (t[tmv + 1] == '+' || t[tmv + 1] == '-') {
            tmv + 2
        } else {
            tmv + 1
        };
        assert(exp_end(t, tmv) is Some);
        assert(tp < t.len() && is_digit(t[tp]));
        let p = i + tp;
        assert(s[p] == t[tp]);
        if tmv + 1 < t.len() {
            assert(s[m + 1] == t[tmv + 1]);
        }
        lemma_digits_end(t, tp);
        let td = digits_end(t, tp);
        assert(td == t.len());
        assert(forall|q: int| tp <= q < td ==> is_digit(#[trigger] t[q]));
        assert forall|q: int| p <= q < i + td implies is_digit(#[trigger] s[q]) by {
            assert(s[q] == t[q - i]);
        }
        lemma_digits_end_exact(s, p, e);
        assert(exp_end(s, m) == Some(e));
    } else {
        if tmv < t.len() {
            assert(s[m] == t[tmv] && !(t[tmv] == 'e' || t[tmv] == 'E'));
        } else {
            assert(m == e);
        }
        assert(exp_end(s, m) == Some(m));
        assert(tmv == t.len());
    }
    assert(scan_num_end(s, i) == Some(e));
}

} // verus!

verus! {

/// Escaping distributes over concatenation.
pub proof fn lemma_esc_add(a: Seq<char>, b: Seq<char>)
    ensures
        esc(a + b) == esc(a) + esc(b),
    decreases b.len(),
{
    if b.len() == 0 {
        assert(a + b =~= a);
        assert(esc(a) + esc(b) =~= esc(a));
    } else {
        lemma_esc_add(a, b.drop_last());
        assert((a + b).drop_last() =~= a + b.drop_last());
        assert((a + b).last() == b.last());
        assert(esc(a) + (esc(b.drop_last()) + esc_char(b.last())) =~= esc(a) + esc(
            b.drop_last(),
        ) + esc_char(b.last()));
    }
}

/// Escaping peels its first character.
pub proof fn lemma_esc_first(sv: Seq<char>)
    requires
        sv.len() >= 1,
    ensures
        esc(sv) == esc_char(sv[0]) + esc(sv.drop_first()),
{
    assert(sv =~= seq![sv[0]] + sv.drop_first());
    lemma_esc_add(seq![sv[0]], sv.drop_first());
    assert(seq![sv[0]].drop_last() =~= Seq::<char>::empty());
    assert(esc(Seq::<char>::empty()) == Seq::<char>::empty());
    assert(esc(seq![sv[0]]) =~= esc_char(sv[0]));
}

/// Hexadecimal digits print to hexadecimal characters with the same value.
proof fn lemma_hex_digit(d: nat)
    requires
        d < 16,
    ensures
        is_hex(hex_digit(d)),
        hex_val(hex_digit(d)) == d,
        !(hex_digit(d) == '"') && !(hex_digit(d) == '\\'),
{
}

/// The escaped body of a string, followed by the closing quote, scans back
/// to exactly the string.
pub proof fn lemma_scan_str_esc(sv: Seq<char>, s: Seq<char>, i: int)
    requires
        0 <= i,
        i + esc(sv).len() + 1 <= s.len(),
        forall|q: int| 0 <= q < esc(sv).len() ==> s[i + q] == #[trigger] esc(sv)[q],
        s[i + esc(sv).len()] == '"',
    ensures
        scan_str(s, i) == Some((sv, i + esc(sv).len() + 1)),
    decreases sv.len(),
{
    if sv.len() == 0 {
        assert(esc(sv) =~= Seq::<char>::empty());
        assert(s[i] == '"');
    } else {
        let c = sv[0];
        let rest = sv.drop_first();
        lemma_esc_first(sv);
        let ec = esc_char(c);
        assert(esc(sv) =~= ec + esc(rest));
        let i2 = i + ec.len();
        assert forall|q: int| 0 <= q < esc(rest).len() implies s[i2 + q] == #[trigger] esc(
            rest,
        )[q] by {
            assert(esc(sv)[ec.len() + q] == esc(rest)[q]);
            assert(s[i + (ec.len() + q)] == esc(sv)[ec.len() + q]);
        }
        assert(s[i2 + esc(rest).len()] == '"') by {
            assert(i2 + esc(rest).len() == i + esc(sv).len());
        }
        lemma_scan_str_esc(rest, s, i2);
        assert forall|q: int| 0 <= q < ec.len() implies s[i + q] == ec[q] by {
            assert(esc(sv)[q] == ec[q]);
        }
        let u = c as u32;
        if c == '"' || c == '\\' {
            assert(s[i] == '\\' && s[i + 1] == c);
            assert(scan_str(s, i) == Some((seq![c] + rest, i + esc(sv).len() + 1)));
        } else if c == '\n' || c == '\r' || c == '\t' || u == 8 || u == 12 {
            assert(s[i] == '\\');
            if c == '\n' {
                assert(s[i + 1] == 'n');
            } else if c == '\r' {
                assert(s[i + 1] == 'r');
            } else if c == '\t' {
                assert(s[i + 1] == 't');
            } else if u == 8 {
                assert(s[i + 1] == 'b');
                assert((8u8 as char) as u32 == 8);
                vstd::utf8::char_u32_cast(c, 8u32);
                vstd::utf8::char_u32_cast(8u8 as char, 8u32);
            } else {
                assert(s[i + 1] == 'f');
                assert((12u8 as char) as u32 == 12);
                vstd::utf8::char_u32_cast(c, 12u32);
                vstd::utf8::char_u32_cast(12u8 as char, 12u32);
            }
            assert(scan_str(s, i) == Some((seq![c] + rest, i + esc(sv).len() + 1)));
        } else if u < 32 {
            assert(ec =~= seq!['\\', 'u', '0', '0', hex_digit((u / 16) as nat), hex_digit(
                (u % 16) as nat,
            )]);
            assert(s[i] == '\\' && s[i + 1] == 'u');
            assert(s[i + 2] == '0' && s[i + 3] == '0');
            lemma_hex_digit((u / 16) as nat);
            lemma_hex_digit((u % 16) as nat);
            assert(hex4_ok(s, i + 2));
            assert(hex_val('0') == 0);
            let code = hex4_val(s, i + 2);
            assert(code == (u / 16) * 16 + u % 16);
            assert(code == u) by (nonlinear_arith)
                requires
                    code == (u / 16) * 16 + u % 16,
            ;
            assert(!(0xD800 <= code <= 0xDBFF) && !(0xDC00 <= code <= 0xDFFF));
            vstd::utf8::char_u32_cast(c, u);
            assert((code as u32) as char == c);
            assert(scan_str(s, i) == Some((seq![c] + rest, i + esc(sv).len() + 1)));
        } else {
            assert(ec =~= seq![c]);
            assert(s[i + 0] == ec[0]);
            assert(s[i] == c);
            assert(!(c == '"') && !(c == '\\') && !((c as u32) < 32));
            assert(scan_str(s, i) == Some((seq![c] + rest, i + esc(sv).len() + 1)));
        }
        assert(seq![c] + rest =~= sv);
    }
}

} // verus!

verus! {

/// The first character of a printed value: never whitespace, never a
/// closer, never a separator.
pub proof fn lemma_pp_head(v: JsonV, ind: nat)
    requires
        wf_json(v),
    ensures
        pp(v, ind).len() >= 1,
        !is_ws(pp(v, ind)[0]),
        pp(v, ind)[0] != ']',
        pp(v, ind)[0] != '}',
        pp(v, ind)[0] != ',',
    decreases v,
{
    match v {
        JsonV::Null => {
            assert(pp(v, ind)[0] == 'n');
        },
        JsonV::Bool(b) => {
            if b {
                assert(pp(v, ind)[0] == 't');
            } else {
                assert(pp(v, ind)[0] == 'f');
            }
        },
        JsonV::Num(t) => {
            assert(scan_num_end(t, 0) is Some);
            let j: int = if 0 <= 0 < t.len() && t[0] == '-' {
                1
            } else {
                0
            };
            if t[0] != '-' {
                assert(is_digit(t[0]));
            }
            assert(pp(v, ind)[0] == t[0]);
        },
        JsonV::Str(sv) => {
            assert(pp(v, ind)[0] == '"');
        },
        JsonV::Arr(items) => {
            if items.len() == 0 {
                assert(pp(v, ind)[0] == '[');
            } else {
                assert(pp(v, ind)[0] == '[');
            }
        },
        JsonV::Obj(pairs) => {
            if pairs.len() == 0 {
                assert(pp(v, ind)[0] == '{');
            } else {
                assert(pp(v, ind)[0] == '{');
            }
        },
    }
}

/// The text a non-empty array body must match: the line break after the
/// bracket, the element lines, and the closing line.
pub open spec fn items_seg(items: Seq<JsonV>, ii: int, ind: nat) -> Seq<char> {
    seq!['\n'] + pp_items(items, ii, (ind + 2) as nat) + seq!['\n'] + sp(ind) + seq![']']
}

/// The text a non-empty object body must match.
pub open spec fn members_seg(pairs: Seq<(Seq<char>, JsonV)>, ii: int, ind: nat) -> Seq<char> {
    seq!['\n'] + pp_members(pairs, ii, (ind + 2) as nat) + seq!['\n'] + sp(ind) + seq!['}']
}

/// Parsing one value out of its printed text yields that value, ending just
/// after it. `i` may point at whitespace that precedes the value's first
/// character at `iv`.
#[verifier::rlimit(100)]
pub proof fn lemma_jp_pp_value(v: JsonV, ind: nat, s: Seq<char>, i: int, iv: int)
    requires
        wf_json(v),
        0 <= i <= iv,
        iv + pp(v, ind).len() <= s.len(),
        ws_end(s, i) == iv,
        forall|q: int| 0 <= q < pp(v, ind).len() ==> s[iv + q] == #[trigger] pp(v, ind)[q],
        v is Num ==> (iv + pp(v, ind).len() == s.len() || !num_extender(
            s[iv + pp(v, ind).len()],
        )),
    ensures
        exists|f: nat| jp_value(s, i, f) == Some(Some((v, iv + pp(v, ind).len()))),
    decreases v, 0int, 0int,
{
    let n = pp(v, ind).len();
    let e = iv + n;
    lemma_pp_head(v, ind);
    assert(s[iv + 0] == pp(v, ind)[0]);
    assert(iv < s.len());
    match v {
        JsonV::Null => {
            assert(pp(v, ind) =~= seq!['n', 'u', 'l', 'l']);
            assert(s[iv + 0] == 'n' && s[iv + 1] == 'u' && s[iv + 2] == 'l' && s[iv + 3] == 'l');
            assert(lit_null_at(s, iv));
            assert(jp_value(s, i, 1) == Some(Some((JsonV::Null, iv + 4))));
        },
        JsonV::Bool(b) => {
            if b {
                assert(pp(v, ind) =~= seq!['t', 'r', 'u', 'e']);
                assert(s[iv + 0] == 't' && s[iv + 1] == 'r' && s[iv + 2] == 'u' && s[iv + 3]
                    == 'e');
                assert(lit_true_at(s, iv));
                assert(!lit_null_at(s, iv));
                assert(jp_value(s, i, 1) == Some(Some((JsonV::Bool(true), iv + 4))));
            } else {
                assert(pp(v, ind) =~= seq!['f', 'a', 'l', 's', 'e']);
                assert(s[iv + 0] == 'f' && s[iv + 1] == 'a' && s[iv + 2] == 'l' && s[iv + 3]
                    == 's' && s[iv + 4] == 'e');
                assert(lit_false_at(s, iv));
                assert(!lit_null_at(s, iv) && !lit_true_at(s, iv));
                assert(jp_value(s, i, 1) == Some(Some((JsonV::Bool(false), iv + 5))));
            }
        },
        JsonV::Num(t) => {
            assert(pp(v, ind) == t);
            lemma_scan_num_embed(t, s, iv);
            assert(s[iv] == t[0]);
            assert(t[0] == '-' || is_digit(t[0])) by {
                assert(scan_num_end(t, 0) is Some);
            }
            assert(!lit_null_at(s, iv) && !lit_true_at(s, iv) && !lit_false_at(s, iv));
            assert(s[iv] != '"');
            assert(s.subrange(iv, e) =~= t);
            assert(jp_value(s, i, 1) == Some(Some((JsonV::Num(s.subrange(iv, e)), e))));
            assert(JsonV::Num(s.subrange(iv, e)) == v);
        },
        JsonV::Str(sv) => {
            assert(pp(v, ind) =~= seq!['"'] + esc(sv) + seq!['"']);
            assert(s[iv] == '"');
            assert forall|q: int| 0 <= q < esc(sv).len() implies s[iv + 1 + q] == #[trigger] esc(sv)[q] by {
                assert(pp(v, ind)[1 + q] == esc(sv)[q]);
                assert(s[iv + (1 + q)] == pp(v, ind)[1 + q]);
            }
            assert(s[iv + 1 + esc(sv).len()] == '"') by {
                assert(pp(v, ind)[1 + esc(sv).len() as int] == '"');
            }
            lemma_scan_str_esc(sv, s, iv + 1);
            assert(!lit_null_at(s, iv) && !lit_true_at(s, iv) && !lit_false_at(s, iv));
            assert(jp_value(s, i, 1) == Some(Some((JsonV::Str(sv), e))));
        },
        JsonV::Arr(items) => {
            assert(s[iv] == '[');
            assert(!lit_null_at(s, iv) && !lit_true_at(s, iv) && !lit_false_at(s, iv));
            assert(s[iv] != '"' && s[iv] != '-' && !is_digit(s[iv]));
            if items.len() == 0 {
                assert(pp(v, ind) =~= seq!['[', ']']);
                assert(s[iv + 1] == ']');
                assert(!is_ws(s[iv + 1]));
                assert(ws_end(s, iv + 1) == iv + 1);
                assert(jp_value(s, i, 1) == Some(Some((JsonV::Arr(Seq::empty()), iv + 2))));
                assert(items =~= Seq::<JsonV>::empty());
            } else {
                let ind2 = (ind + 2) as nat;
                let seg = items_seg(items, 0, ind);
                assert(pp(v, ind) =~= seq!['['] + seg);
                assert forall|q: int| 0 <= q < seg.len() implies s[iv + 1 + q] == #[trigger] seg[q] by {
                    assert(pp(v, ind)[1 + q] == seg[q]);
                    assert(s[iv + (1 + q)] == pp(v, ind)[1 + q]);
                }
                lemma_jp_pp_items(items, 0, ind, s, iv + 1);
                // the scan does not see an immediate close bracket
                let head = iv + 2 + ind2;
                assert(seg[0] == '\n');
                assert(s[iv + 1 + 0] == seg[0]);
                assert(s[iv + 1] == '\n');
                crate::json_text::lemma_sp(ind2);
                assert(pp_items(items, 0, ind2) =~= sp(ind2) + pp(items[0], ind2) + (if items.len()
                    == 1 {
                    Seq::<char>::empty()
                } else {
                    seq![',', '\n'] + pp_items(items, 1, ind2)
                }));
                lemma_pp_head(items[0], ind2);
                assert forall|q: int| iv + 1 <= q < head implies is_ws(#[trigger] s[q]) by {
                    if q > iv + 1 {
                        assert(seg[q - (iv + 1)] == sp(ind2)[q - (iv + 2)]);
                        assert(sp(ind2)[q - (iv + 2)] == ' ');
                    }
                }
                assert(s[head] == pp(items[0], ind2)[0]) by {
                    assert(seg[1 + ind2 as int] == pp_items(items, 0, ind2)[ind2 as int]);
                    assert(pp_items(items, 0, ind2)[ind2 as int] == pp(items[0], ind2)[0]);
                }
                assert(!is_ws(s[head]));
                lemma_ws_end_exact(s, iv + 1, head);
                assert(s[head] != ']');
                let after_bracket: int = iv + 1;
                let arr_end: int = iv + 1 + seg.len() as int;
                let fr = choose|f: nat|
                    jp_items(s, after_bracket, f) == Some(
                        Some((items.subrange(0, items.len() as int), arr_end)),
                    );
                assert(jp_value(s, i, fr + 1) == Some(
                    Some((JsonV::Arr(items.subrange(0, items.len() as int)), e)),
                ));
                assert(items.subrange(0, items.len() as int) =~= items);
            }
        },
        JsonV::Obj(pairs) => {
            assert(s[iv] == '{');
            assert(!lit_null_at(s, iv) && !lit_true_at(s, iv) && !lit_false_at(s, iv));
            assert(s[iv] != '"' && s[iv] != '-' && !is_digit(s[iv]) && s[iv] != '[');
            if pairs.len() == 0 {
                assert(pp(v, ind) =~= seq!['{', '}']);
                assert(s[iv + 1] == '}');
                assert(!is_ws(s[iv + 1]));
                assert(ws_end(s, iv + 1) == iv + 1);
                assert(jp_value(s, i, 1) == Some(
                    Some((JsonV::Obj(Seq::empty()), iv + 2)),
                ));
                assert(pairs =~= Seq::<(Seq<char>, JsonV)>::empty());
            } else {
                let ind2 = (ind + 2) as nat;
                let seg = members_seg(pairs, 0, ind);
                assert(pp(v, ind) =~= seq!['{'] + seg);
                assert forall|q: int| 0 <= q < seg.len() implies s[iv + 1 + q] == #[trigger] seg[q] by {
                    assert(pp(v, ind)[1 + q] == seg[q]);
                    assert(s[iv + (1 + q)] == pp(v, ind)[1 + q]);
                }
                lemma_jp_pp_members(pairs, 0, ind, s, iv + 1);
                let head = iv + 2 + ind2;
                assert(seg[0] == '\n');
                assert(s[iv + 1 + 0] == seg[0]);
                assert(s[iv + 1] == '\n');
                crate::json_text::lemma_sp(ind2);
                assert(pp_members(pairs, 0, ind2) =~= sp(ind2) + pp_member(pairs[0], ind2) + (if
                    pairs.len() == 1 {
                    Seq::<char>::empty()
                } else {
                    seq![',', '\n'] + pp_members(pairs, 1, ind2)
                }));
                assert forall|q: int| iv + 1 <= q < head implies is_ws(#[trigger] s[q]) by {
                    if q > iv + 1 {
                        assert(seg[q - (iv + 1)] == sp(ind2)[q - (iv + 2)]);
                        assert(sp(ind2)[q - (iv + 2)] == ' ');
                    }
                }
                assert(s[head] == '"') by {
                    assert(seg[1 + ind2 as int] == pp_members(pairs, 0, ind2)[ind2 as int]);
                    assert(pp_members(pairs, 0, ind2)[ind2 as int] == pp_member(pairs[0], ind2)[0]);
                    assert(pp_member(pairs[0], ind2)[0] == '"');
                }
                assert(!is_ws(s[head]));
                lemma_ws_end_exact(s, iv + 1, head);
                assert(s[head] != '}');
                let after_brace: int = iv + 1;
                let obj_end: int = iv + 1 + seg.len() as int;
                let fr = choose|f: nat|
                    jp_members(s, after_brace, f) == Some(
                        Some((pairs.subrange(0, pairs.len() as int), obj_end)),
                    );
                assert(jp_value(s, i, fr + 1) == Some(
                    Some((JsonV::Obj(pairs.subrange(0, pairs.len() as int)), e)),
                ));
                assert(pairs.subrange(0, pairs.len() as int) =~= pairs);
            }
        },
    }
}

/// Parsing the element lines of an array body (from element `ii` on, up to
/// and including the close bracket) yields exactly those elements.
#[verifier::rlimit(100)]
pub proof fn lemma_jp_pp_items(items: Seq<JsonV>, ii: int, ind: nat, s: Seq<char>, i: int)
    requires
        0 <= ii < items.len(),
        forall|q: int| 0 <= q < items.len() ==> wf_json(#[trigger] items[q]),
        0 <= i,
        i + items_seg(items, ii, ind).len() <= s.len(),
        forall|q: int|
            0 <= q < items_seg(items, ii, ind).len() ==> s[i + q] == #[trigger] items_seg(
                items,
                ii,
                ind,
            )[q],
    ensures
        exists|f: nat|
            jp_items(s, i, f) == Some(
                Some(
                    (items.subrange(ii, items.len() as int), i + items_seg(items, ii, ind).len()),
                ),
            ),
    decreases items, 1int, items.len() - ii,
{
    let ind2 = (ind + 2) as nat;
    let seg = items_seg(items, ii, ind);
    let v0 = items[ii];
    let pv0 = pp(v0, ind2);
    let last = ii + 1 >= items.len();
    let pitems = pp_items(items, ii, ind2);
    assert(pitems =~= sp(ind2) + pv0 + (if last {
        Seq::<char>::empty()
    } else {
        seq![',', '\n'] + pp_items(items, ii + 1, ind2)
    }));
    crate::json_text::lemma_sp(ind2);
    lemma_pp_head(v0, ind2);
    let iv = i + 1 + ind2;
    // leading line break and indent are whitespace
    assert(seg[0] == '\n');
    assert(s[i + 0] == seg[0]);
    assert forall|q: int| i <= q < iv implies is_ws(#[trigger] s[q]) by {
        if q > i {
            assert(seg[q - i] == pitems[q - i - 1]);
            assert(pitems[q - i - 1] == sp(ind2)[q - i - 1]);
        }
    }
    assert(s[iv] == pv0[0]) by {
        assert(seg[1 + ind2 as int] == pitems[ind2 as int]);
        assert(pitems[ind2 as int] == pv0[0]);
    }
    assert(!is_ws(s[iv]));
    lemma_ws_end_exact(s, i, iv);
    // the value's printed text sits at iv
    assert forall|q: int| 0 <= q < pv0.len() implies s[iv + q] == #[trigger] pv0[q] by {
        assert(seg[1 + ind2 as int + q] == pitems[ind2 as int + q]);
        assert(pitems[ind2 as int + q] == pv0[q]);
        assert(s[i + 1 + ind2 as int + q] == seg[1 + ind2 as int + q]);
    }
    let ev = iv + pv0.len();
    // the character after the value is a separator or line break
    if last {
        assert(s[ev] == '\n') by {
            assert(seg[1 + pitems.len() as int] == '\n');
        }
    } else {
        assert(s[ev] == ',') by {
            assert(seg[1 + ind2 as int + pv0.len() as int] == pitems[ind2 as int + pv0.len() as int]);
            assert(pitems[ind2 as int + pv0.len() as int] == ',');
        }
    }
    lemma_jp_pp_value(v0, ind2, s, i, iv);
    let fv = choose|f: nat| jp_value(s, i, f) == Some(Some((v0, ev)));
    if last {
        // line break, closing indent, close bracket
        crate::json_text::lemma_sp(ind);
        assert(pitems.len() == ind2 + pv0.len());
        assert(seg.len() == 1 + pitems.len() + 1 + ind + 1);
        let kc = ev + 1 + ind;
        assert forall|q: int| ev <= q < kc implies is_ws(#[trigger] s[q]) by {
            if q > ev {
                crate::json_text::lemma_sp(ind);
                assert(seg[q - i] == sp(ind)[q - ev - 1]) by {
                    assert(seg.len() == 1 + pitems.len() + 1 + ind + 1);
                }
            }
        }
        assert(s[kc] == ']') by {
            assert(seg[seg.len() - 1] == ']');
            assert(kc == i + seg.len() - 1);
        }
        assert(!is_ws(s[kc]));
        lemma_ws_end_exact(s, ev, kc);
        assert(jp_items(s, i, fv + 1) == Some(Some((seq![v0], kc + 1))));
        assert(seq![v0] =~= items.subrange(ii, items.len() as int));
        assert(kc + 1 == i + seg.len());
    } else {
        assert(!is_ws(s[ev]));
        lemma_ws_end_exact(s, ev, ev);
        // the rest of the body, from the next element on
        let seg2 = items_seg(items, ii + 1, ind);
        assert forall|q: int| 0 <= q < seg2.len() implies s[ev + 1 + q] == #[trigger] seg2[q] by {
            assert(seg[(ev + 1 + q) - i] == seg2[q]) by {
                lemma_items_seg_step(items, ii, ind);
                assert((ev + 1 + q) - i == 1 + ind2 + pv0.len() + 1 + q);
            }
            assert(s[i + ((ev + 1 + q) - i)] == seg[(ev + 1 + q) - i]);
        }
        assert(ev + 1 + seg2.len() <= s.len()) by {
            lemma_items_seg_step(items, ii, ind);
        }
        lemma_jp_pp_items(items, ii + 1, ind, s, ev + 1);
        let after_comma: int = ev + 1;
        let rest_end: int = ev + 1 + seg2.len() as int;
        let fr = choose|f: nat|
            jp_items(s, after_comma, f) == Some(
                Some((items.subrange(ii + 1, items.len() as int), rest_end)),
            );
        let fall = fv + fr + 1;
        lemma_jp_value_mono(s, i, fv, (fall - 1) as nat);
        lemma_jp_items_mono(s, after_comma, fr, (fall - 1) as nat);
        assert(jp_items(s, i, fall as nat) == Some(
            Some(
                (
                    seq![v0] + items.subrange(ii + 1, items.len() as int),
                    ev + 1 + seg2.len(),
                ),
            ),
        ));
        assert(seq![v0] + items.subrange(ii + 1, items.len() as int) =~= items.subrange(
            ii,
            items.len() as int,
        ));
        assert(ev + 1 + seg2.len() == i + seg.len()) by {
            lemma_items_seg_step(items, ii, ind);
        }
    }
}

/// How one element line relates the body text to the rest of the body text.
proof fn lemma_items_seg_step(items: Seq<JsonV>, ii: int, ind: nat)
    requires
        0 <= ii,
        ii + 1 < items.len(),
    ensures
        items_seg(items, ii, ind) =~= seq!['\n'] + sp((ind + 2) as nat) + pp(
            items[ii],
            (ind + 2) as nat,
        ) + seq![','] + items_seg(items, ii + 1, ind),
{
    let ind2 = (ind + 2) as nat;
    assert(pp_items(items, ii, ind2) =~= sp(ind2) + pp(items[ii], ind2) + seq![',', '\n']
        + pp_items(items, ii + 1, ind2));
}

} // verus!

verus! {

/// Parsing the member lines of an object body (from member `ii` on, up to
/// and including the close brace) yields exactly those members.
#[verifier::rlimit(100)]
pub proof fn lemma_jp_pp_members(
    pairs: Seq<(Seq<char>, JsonV)>,
    ii: int,
    ind: nat,
    s: Seq<char>,
    i: int,
)
    requires
        0 <= ii < pairs.len(),
        forall|q: int| 0 <= q < pairs.len() ==> wf_json((#[trigger] pairs[q]).1),
        0 <= i,
        i + members_seg(pairs, ii, ind).len() <= s.len(),
        forall|q: int|
            0 <= q < members_seg(pairs, ii, ind).len() ==> s[i + q] == #[trigger] members_seg(
                pairs,
                ii,
                ind,
            )[q],
    ensures
        exists|f: nat|
            jp_members(s, i, f) == Some(
                Some(
                    (
                        pairs.subrange(ii, pairs.len() as int),
                        i + members_seg(pairs, ii, ind).len(),
                    ),
                ),
            ),
    decreases pairs, 1int, pairs.len() - ii,
{
    let ind2 = (ind + 2) as nat;
    let seg = members_seg(pairs, ii, ind);
    let key = pairs[ii].0;
    let v0 = pairs[ii].1;
    let pv0 = pp(v0, ind2);
    let pm = pp_member(pairs[ii], ind2);
    let last = ii + 1 >= pairs.len();
    let pmem = pp_members(pairs, ii, ind2);
    assert(pmem =~= sp(ind2) + pm + (if last {
        Seq::<char>::empty()
    } else {
        seq![',', '\n'] + pp_members(pairs, ii + 1, ind2)
    }));
    assert(pm =~= seq!['"'] + esc(key) + seq!['"', ':', ' '] + pv0);
    crate::json_text::lemma_sp(ind2);
    lemma_pp_head(v0, ind2);
    let ik = i + 1 + ind2;
    // leading line break and indent are whitespace
    assert(seg[0] == '\n');
    assert(s[i + 0] == seg[0]);
    assert forall|q: int| i <= q < ik implies is_ws(#[trigger] s[q]) by {
        if q > i {
            assert(seg[q - i] == pmem[q - i - 1]);
            assert(pmem[q - i - 1] == sp(ind2)[q - i - 1]);
        }
    }
    // the member's printed text sits at ik
    assert forall|q: int| 0 <= q < pm.len() implies s[ik + q] == #[trigger] pm[q] by {
        assert(seg[1 + ind2 as int + q] == pmem[ind2 as int + q]);
        assert(pmem[ind2 as int + q] == pm[q]);
        assert(s[i + 1 + ind2 as int + q] == seg[1 + ind2 as int + q]);
    }
    assert(pm[0] == '"');
    assert(s[ik + 0] == pm[0]);
    assert(!is_ws(s[ik]));
    lemma_ws_end_exact(s, i, ik);
    // the key string
    assert forall|q: int| 0 <= q < esc(key).len() implies s[ik + 1 + q] == #[trigger] esc(
        key,
    )[q] by {
        assert(pm[1 + q] == esc(key)[q]);
        assert(s[ik + (1 + q)] == pm[1 + q]);
    }
    assert(s[ik + 1 + esc(key).len()] == '"') by {
        assert(pm[1 + esc(key).len() as int] == '"');
    }
    lemma_scan_str_esc(key, s, ik + 1);
    let e0 = ik + 1 + esc(key).len() + 1;
    // the colon follows at once, then one space, then the value
    assert(s[e0] == ':') by {
        assert(pm[e0 - ik] == ':');
    }
    assert(!is_ws(s[e0]));
    lemma_ws_end_exact(s, e0, e0);
    let iv = e0 + 2;
    assert(s[e0 + 1] == ' ') by {
        assert(pm[e0 + 1 - ik] == ' ');
    }
    assert(s[iv] == pv0[0]) by {
        assert(pm[iv - ik] == pv0[0]);
    }
    assert(!is_ws(s[iv]));
    lemma_ws_end_exact(s, e0 + 1, iv);
    assert forall|q: int| 0 <= q < pv0.len() implies s[iv + q] == #[trigger] pv0[q] by {
        assert(pm[(iv - ik) + q] == pv0[q]);
        assert(s[ik + ((iv - ik) + q)] == pm[(iv - ik) + q]);
    }
    let ev = iv + pv0.len();
    // the character after the value is a separator or line break
    if last {
        assert(s[ev] == '\n') by {
            assert(seg[1 + pmem.len() as int] == '\n');
            assert(ev == i + 1 + pmem.len());
        }
    } else {
        assert(s[ev] == ',') by {
            assert(seg[1 + ind2 as int + pm.len() as int] == pmem[ind2 as int + pm.len() as int]);
            assert(pmem[ind2 as int + pm.len() as int] == ',');
            assert(ev == i + 1 + ind2 + pm.len());
        }
    }
    lemma_jp_pp_value(v0, ind2, s, e0 + 1, iv);
    let colon1: int = e0 + 1;
    let fv = choose|f: nat| jp_value(s, colon1, f) == Some(Some((v0, ev)));
    if last {
        crate::json_text::lemma_sp(ind);
        assert(pmem.len() == ind2 + pm.len());
        assert(seg.len() == 1 + pmem.len() + 1 + ind + 1);
        let kc = ev + 1 + ind;
        assert forall|q: int| ev <= q < kc implies is_ws(#[trigger] s[q]) by {
            if q > ev {
                crate::json_text::lemma_sp(ind);
                assert(seg[q - i] == sp(ind)[q - ev - 1]) by {
                    assert(seg.len() == 1 + pmem.len() + 1 + ind + 1);
                }
            }
        }
        assert(s[kc] == '}') by {
            assert(seg[seg.len() - 1] == '}');
            assert(kc == i + seg.len() - 1);
        }
        assert(!is_ws(s[kc]));
        lemma_ws_end_exact(s, ev, kc);
        assert(jp_members(s, i, fv + 1) == Some(Some((seq![(key, v0)], kc + 1))));
        assert(seq![(key, v0)] =~= pairs.subrange(ii, pairs.len() as int));
        assert(kc + 1 == i + seg.len());
    } else {
        assert(!is_ws(s[ev]));
        lemma_ws_end_exact(s, ev, ev);
        let seg2 = members_seg(pairs, ii + 1, ind);
        assert forall|q: int| 0 <= q < seg2.len() implies s[ev + 1 + q] == #[trigger] seg2[q] by {
            assert(seg[(ev + 1 + q) - i] == seg2[q]) by {
                lemma_members_seg_step(pairs, ii, ind);
                assert((ev + 1 + q) - i == 1 + ind2 + pm.len() + 1 + q);
            }
            assert(s[i + ((ev + 1 + q) - i)] == seg[(ev + 1 + q) - i]);
        }
        assert(ev + 1 + seg2.len() <= s.len()) by {
            lemma_members_seg_step(pairs, ii, ind);
        }
        lemma_jp_pp_members(pairs, ii + 1, ind, s, ev + 1);
        let after_comma: int = ev + 1;
        let rest_end: int = ev + 1 + seg2.len() as int;
        let fr = choose|f: nat|
            jp_members(s, after_comma, f) == Some(
                Some((pairs.subrange(ii + 1, pairs.len() as int), rest_end)),
            );
        let fall = fv + fr + 1;
        lemma_jp_value_mono(s, colon1, fv, (fall - 1) as nat);
        lemma_jp_members_mono(s, after_comma, fr, (fall - 1) as nat);
        assert(jp_members(s, i, fall as nat) == Some(
            Some(
                (
                    seq![(key, v0)] + pairs.subrange(ii + 1, pairs.len() as int),
                    ev + 1 + seg2.len(),
                ),
            ),
        ));
        assert(seq![(key, v0)] + pairs.subrange(ii + 1, pairs.len() as int) =~= pairs.subrange(
            ii,
            pairs.len() as int,
        ));
        assert(ev + 1 + seg2.len() == i + seg.len()) by {
            lemma_members_seg_step(pairs, ii, ind);
        }
    }
}

/// How one member line relates the body text to the rest of the body text.
proof fn lemma_members_seg_step(pairs: Seq<(Seq<char>, JsonV)>, ii: int, ind: nat)
    requires
        0 <= ii,
        ii + 1 < pairs.len(),
    ensures
        members_seg(pairs, ii, ind) =~= seq!['\n'] + sp((ind + 2) as nat) + pp_member(
            pairs[ii],
            (ind + 2) as nat,
        ) + seq![','] + members_seg(pairs, ii + 1, ind),
{
    let ind2 = (ind + 2) as nat;
    assert(pp_members(pairs, ii, ind2) =~= sp(ind2) + pp_member(pairs[ii], ind2) + seq![
        ',',
        '\n',
    ] + pp_members(pairs, ii + 1, ind2));
}

/// The canonical text of a well-formed JSON value parses back to exactly
/// that value.
pub proof fn lemma_canonical_round_trip(v: JsonV)
    requires
        wf_json(v),
    ensures
        json_parse(pp(v, 0)) == Some(v),
{
    let s = pp(v, 0);
    lemma_pp_head(v, 0);
    assert(ws_end(s, 0) == 0) by {
        lemma_ws_end_exact(s, 0, 0);
    }
    lemma_jp_pp_value(v, 0, s, 0, 0);
    let whole: int = pp(v, 0).len() as int;
    let f = choose|f: nat| jp_value(s, 0, f) == Some(Some((v, whole)));
    assert(ws_end(s, s.len() as int) == s.len()) by {
        lemma_ws_end_exact(s, s.len() as int, s.len() as int);
    }
    assert(jp_document(s, f) == Some(Some(v)));
    lemma_jp_document_defined(s, f);
}

} // verus!

verus! {

/// Looking a key up skips members with other keys.
proof fn lemma_lookup_skip(ps: Seq<(Seq<char>, JsonV)>, j: int, key: Seq<char>)
    requires
        0 <= j <= ps.len(),
        forall|q: int| 0 <= q < j ==> (#[trigger] ps[q]).0 != key,
    ensures
        lookup(ps, key) == lookup(ps.subrange(j, ps.len() as int), key),
    decreases j,
{
    if j > 0 {
        lemma_lookup_skip(ps, j - 1, key);
        let tail = ps.subrange(j - 1, ps.len() as int);
        assert(tail[0] == ps[j - 1]);
        assert(tail.drop_first() =~= ps.subrange(j, ps.len() as int));
    } else {
        assert(ps.subrange(0, ps.len() as int) =~= ps);
    }
}

/// A key found at `j`, with no earlier occurrence, looks up to its value.
proof fn lemma_lookup_at(ps: Seq<(Seq<char>, JsonV)>, j: int, key: Seq<char>)
    requires
        0 <= j < ps.len(),
        ps[j].0 == key,
        forall|q: int| 0 <= q < j ==> (#[trigger] ps[q]).0 != key,
    ensures
        lookup(ps, key) == Some(ps[j].1),
{
    lemma_lookup_skip(ps, j, key);
    let tail = ps.subrange(j, ps.len() as int);
    assert(tail[0] == ps[j]);
}

/// The unrecognized-member filter distributes over concatenation.
proof fn lemma_extras_of_add(a: Seq<(Seq<char>, JsonV)>, b: Seq<(Seq<char>, JsonV)>, o: Record)
    ensures
        extras_of(a + b, o) == extras_of(a, o) + extras_of(b, o),
    decreases b.len(),
{
    if b.len() == 0 {
        assert(a + b =~= a);
        assert(extras_of(a, o) + extras_of(b, o) =~= extras_of(a, o));
    } else {
        lemma_extras_of_add(a, b.drop_last(), o);
        assert((a + b).drop_last() =~= a + b.drop_last());
        assert((a + b).last() == b.last());
        if known_key(o, b.last().0) {
            assert(extras_of(a + b, o) =~= extras_of(a, o) + extras_of(b, o));
        } else {
            assert(extras_of(a, o) + extras_of(b.drop_last(), o).push(b.last()) =~= extras_of(
                a,
                o,
            ) + extras_of(b.drop_last(), o) + seq![b.last()]);
            assert(extras_of(a + b, o) =~= extras_of(a, o) + extras_of(b, o));
        }
    }
}

/// Members whose keys are all recognized leave no extras.
proof fn lemma_extras_of_known(ps: Seq<(Seq<char>, JsonV)>, o: Record)
    requires
        forall|q: int| 0 <= q < ps.len() ==> known_key(o, (#[trigger] ps[q]).0),
    ensures
        extras_of(ps, o) == Seq::<(Seq<char>, JsonV)>::empty(),
    decreases ps.len(),
{
    if ps.len() > 0 {
        lemma_extras_of_known(ps.drop_last(), o);
    }
}

/// Members whose keys are all unrecognized pass through unchanged.
proof fn lemma_extras_of_unknown(ps: Seq<(Seq<char>, JsonV)>, o: Record)
    requires
        forall|q: int| 0 <= q < ps.len() ==> !known_key(o, (#[trigger] ps[q]).0),
    ensures
        extras_of(ps, o) == ps,
    decreases ps.len(),
{
    if ps.len() > 0 {
        lemma_extras_of_unknown(ps.drop_last(), o);
        assert(extras_of(ps, o) =~= ps);
    } else {
        assert(extras_of(ps, o) =~= ps);
    }
}

/// An integer's decimal token reads back to the integer.
pub proof fn lemma_int_of_dec(n: int)
    requires
        -0x8000_0000 <= n <= 0x7FFF_FFFF,
    ensures
        int_of_token(dec_int(n)) == Some(n),
{
    let t = dec_int(n);
    if n < 0 {
        let m = (-n) as nat;
        lemma_dec_digits_val(m);
        assert(t[0] == '-');
        let d = t.subrange(1, t.len() as int);
        assert(d =~= dec_digits(m));
        assert(dec_val(d) == m);
    } else {
        lemma_dec_digits_val(n as nat);
        assert(t == dec_digits(n as nat));
        assert(t.len() >= 1 && is_digit(t[0]));
        assert(t[0] != '-');
        assert(dec_val(t) == n);
    }
}

} // verus!

verus! {

/// Extras that re-encode losslessly: their values well formed, their keys
/// unrecognized.
pub open spec fn wf_extras(ps: Seq<(Seq<char>, JsonV)>, o: Record) -> bool {
    forall|q: int|
        0 <= q < ps.len() ==> wf_json((#[trigger] ps[q]).1) && !known_key(o, ps[q].0)
}

/// A depth prompt whose extras re-encode losslessly.
pub open spec fn wf_depth(d: DepthPrompt) -> bool {
    wf_extras(pair_views_of(d.extra@), Record::Depth)
}

/// A regex script whose extras re-encode losslessly.
pub open spec fn wf_script(s: RegexScript) -> bool {
    wf_extras(pair_views_of(s.extra@), Record::Script)
}

/// A lore entry whose opaque extension value and extras re-encode
/// losslessly.
pub open spec fn wf_entry(e: LoreEntry) -> bool {
    &&& wf_json(e.extensions@)
    &&& wf_extras(pair_views_of(e.extra@), Record::Entry)
}

/// Card extensions that re-encode losslessly.
pub open spec fn wf_ext(x: CardExtensions) -> bool {
    &&& match x.depth_prompt {
        None => true,
        Some(d) => wf_depth(d),
    }
    &&& forall|q: int| 0 <= q < x.regex_scripts@.len() ==> wf_script(#[trigger] x.regex_scripts@[q])
    &&& wf_extras(pair_views_of(x.extra@), Record::Ext)
}

/// A character book that re-encodes losslessly.
pub open spec fn wf_book(b: CharacterBook) -> bool {
    &&& forall|q: int| 0 <= q < b.entries@.len() ==> wf_entry(#[trigger] b.entries@[q])
    &&& wf_extras(pair_views_of(b.extra@), Record::Book)
}

/// A card that re-encodes losslessly: every kept JSON value is well formed
/// and no kept extra shadows a recognized key. Every card decoded by this
/// crate has this shape.
pub open spec fn wf_card(c: CharacterData) -> bool {
    &&& match c.character_book {
        None => true,
        Some(b) => wf_book(b),
    }
    &&& match c.extensions {
        None => true,
        Some(x) => wf_ext(x),
    }
    &&& wf_extras(pair_views_of(c.extra@), Record::Data)
}

/// The recognized prefix of a record's members filters away; the kept
/// extras pass through.
proof fn lemma_extras_split(head: Seq<(Seq<char>, JsonV)>, ex: Seq<(Seq<char>, JsonV)>, o: Record)
    requires
        forall|q: int| 0 <= q < head.len() ==> known_key(o, (#[trigger] head[q]).0),
        forall|q: int| 0 <= q < ex.len() ==> !known_key(o, (#[trigger] ex[q]).0),
    ensures
        extras_of(head + ex, o) == ex,
{
    lemma_extras_of_add(head, ex, o);
    lemma_extras_of_known(head, o);
    lemma_extras_of_unknown(ex, o);
    assert(extras_of(head, o) + extras_of(ex, o) =~= ex);
}

/// A printed list of texts decodes to the same texts.
proof fn lemma_strlist_val(v: Seq<String>)
    ensures
        strlist_field_ok(Some(jv_strlist(v))),
        strlist_field_val(Some(jv_strlist(v))) == crate::card_json::str_views(v),
{
    let items = jv_strlist(v)->Arr_0;
    assert(forall|q: int| 0 <= q < items.len() ==> (#[trigger] items[q]) is Str);
    assert(strlist_field_val(Some(jv_strlist(v))) =~= crate::card_json::str_views(v));
}

/// Lists with the same texts print to the same JSON array.
proof fn lemma_strlist_cong(a: Seq<String>, b: Seq<String>)
    requires
        crate::card_json::str_views(a) == crate::card_json::str_views(b),
    ensures
        jv_strlist(a) == jv_strlist(b),
{
    assert(crate::card_json::str_views(a).len() == a.len());
    assert(crate::card_json::str_views(b).len() == b.len());
    assert forall|q: int| 0 <= q < a.len() implies jv_strlist(a)->Arr_0[q] == jv_strlist(
        b,
    )->Arr_0[q] by {
        assert(crate::card_json::str_views(a)[q] == a[q]@);
        assert(crate::card_json::str_views(b)[q] == b[q]@);
    }
    assert(jv_strlist(a)->Arr_0 =~= jv_strlist(b)->Arr_0);
}

/// Integer fields decode to the encoded integer.
proof fn lemma_i32_field(n: i32)
    ensures
        crate::card_json::i32_field_ok(Some(jv_int(n as int))),
        crate::card_json::i32_field_val(Some(jv_int(n as int))) == n as int,
        wf_json(jv_int(n as int)),
{
    lemma_int_of_dec(n as int);
    lemma_wf_dec_int(n as int);
}

/// Optional integer fields decode to the encoded option.
proof fn lemma_opt_i32_field(o: Option<i32>)
    ensures
        crate::card_json::opt_i32_field_ok(Some(jv_opt_i32(o))),
        crate::card_json::opt_i32_field_val(Some(jv_opt_i32(o))) == crate::card_json::opt_i32_views(
            o,
        ),
        wf_json(jv_opt_i32(o)),
{
    match o {
        None => {},
        Some(v) => {
            lemma_int_of_dec(v as int);
            lemma_wf_dec_int(v as int);
        },
    }
}

/// Encoding a depth prompt: the result is well formed, fits the shape, and
/// any decode of it re-encodes identically.
proof fn lemma_depth_encode(d: DepthPrompt)
    requires
        wf_depth(d),
    ensures
        wf_json(depth_jsonv(d)),
        depth_json_ok(depth_jsonv(d)),
        forall|d2: DepthPrompt| #[trigger]
            depth_matches(d2, depth_jsonv(d)) ==> depth_jsonv(d2) == depth_jsonv(d),
{
    let ms = depth_members(d);
    let ex = pair_views_of(d.extra@);
    reveal_strlit("depth");
    reveal_strlit("prompt");
    reveal_strlit("role");
    assert("depth"@.len() == 5 && "prompt"@.len() == 6 && "role"@.len() == 4);
    assert(ms[0] == ("depth"@, jv_int(d.depth as int)));
    assert(ms[1] == ("prompt"@, JsonV::Str(d.prompt@)));
    assert(ms[2] == ("role"@, JsonV::Str(d.role@)));
    lemma_lookup_at(ms, 0, "depth"@);
    lemma_lookup_at(ms, 1, "prompt"@);
    lemma_lookup_at(ms, 2, "role"@);
    lemma_i32_field(d.depth);
    assert(forall|q: int| 0 <= q < 3 ==> known_key(Record::Depth, (#[trigger] ms[q]).0));
    lemma_extras_split(seq![ms[0], ms[1], ms[2]], ex, Record::Depth);
    assert(seq![ms[0], ms[1], ms[2]] + ex =~= ms);
    assert(extras_of(ms, Record::Depth) == ex);
    // well-formedness of the whole object
    assert forall|q: int| 0 <= q < ms.len() implies wf_json((#[trigger] ms[q]).1) by {
        if q >= 3 {
            assert(ms[q] == ex[q - 3]);
        } else if q == 0 {
        } else {
        }
    }
    // any decode re-encodes identically
    assert forall|d2: DepthPrompt| #[trigger]
        depth_matches(d2, depth_jsonv(d)) implies depth_jsonv(d2) == depth_jsonv(d) by {
        assert(d2.depth as int == d.depth as int);
        assert(d2.depth == d.depth);
        assert(d2.prompt@ == d.prompt@);
        assert(d2.role@ == d.role@);
        assert(pair_views_of(d2.extra@) == ex);
        assert(depth_members(d2) =~= depth_members(d));
    }
}

/// Encoding a regex script: well formed, fits the shape, decodes re-encode
/// identically.
proof fn lemma_script_encode(s: RegexScript)
    requires
        wf_script(s),
    ensures
        wf_json(script_jsonv(s)),
        script_json_ok(script_jsonv(s)),
        forall|s2: RegexScript| #[trigger]
            script_matches(s2, script_jsonv(s)) ==> script_jsonv(s2) == script_jsonv(s),
{
    let ms = script_members(s);
    let ex = pair_views_of(s.extra@);
    reveal_strlit("id");
    reveal_strlit("scriptName");
    reveal_strlit("findRegex");
    reveal_strlit("replaceString");
    reveal_strlit("runOnEdit");
    reveal_strlit("disabled");
    reveal_strlit("markdownOnly");
    reveal_strlit("promptOnly");
    reveal_strlit("minDepth");
    reveal_strlit("maxDepth");
    assert("id"@.len() == 2 && "scriptName"@.len() == 10 && "findRegex"@.len() == 9
        && "replaceString"@.len() == 13 && "runOnEdit"@.len() == 9 && "disabled"@.len() == 8
        && "markdownOnly"@.len() == 12 && "promptOnly"@.len() == 10 && "minDepth"@.len() == 8
        && "maxDepth"@.len() == 8);
    assert("findRegex"@[0] == 'f' && "runOnEdit"@[0] == 'r');
    assert("scriptName"@[0] == 's' && "promptOnly"@[0] == 'p');
    assert("disabled"@[0] == 'd' && "minDepth"@[0] == 'm' && "maxDepth"@[0] == 'm');
    assert("minDepth"@[1] == 'i' && "maxDepth"@[1] == 'a');
    assert(ms[0] == ("id"@, JsonV::Str(s.id@)));
    assert(ms[1] == ("scriptName"@, JsonV::Str(s.script_name@)));
    assert(ms[2] == ("findRegex"@, JsonV::Str(s.find_regex@)));
    assert(ms[3] == ("replaceString"@, JsonV::Str(s.replace_string@)));
    assert(ms[4] == ("runOnEdit"@, JsonV::Bool(s.run_on_edit)));
    assert(ms[5] == ("disabled"@, JsonV::Bool(s.disabled)));
    assert(ms[6] == ("markdownOnly"@, JsonV::Bool(s.markdown_only)));
    assert(ms[7] == ("promptOnly"@, JsonV::Bool(s.prompt_only)));
    assert(ms[8] == ("minDepth"@, jv_opt_i32(s.min_depth)));
    assert(ms[9] == ("maxDepth"@, jv_opt_i32(s.max_depth)));
    lemma_lookup_at(ms, 0, "id"@);
    lemma_lookup_at(ms, 1, "scriptName"@);
    lemma_lookup_at(ms, 2, "findRegex"@);
    lemma_lookup_at(ms, 3, "replaceString"@);
    lemma_lookup_at(ms, 4, "runOnEdit"@);
    lemma_lookup_at(ms, 5, "disabled"@);
    lemma_lookup_at(ms, 6, "markdownOnly"@);
    lemma_lookup_at(ms, 7, "promptOnly"@);
    lemma_lookup_at(ms, 8, "minDepth"@);
    lemma_lookup_at(ms, 9, "maxDepth"@);
    lemma_opt_i32_field(s.min_depth);
    lemma_opt_i32_field(s.max_depth);
    assert(forall|q: int| 0 <= q < 10 ==> known_key(Record::Script, (#[trigger] ms[q]).0));
    lemma_extras_split(
        seq![ms[0], ms[1], ms[2], ms[3], ms[4], ms[5], ms[6], ms[7], ms[8], ms[9]],
        ex,
        Record::Script,
    );
    assert(seq![ms[0], ms[1], ms[2], ms[3], ms[4], ms[5], ms[6], ms[7], ms[8], ms[9]] + ex
        =~= ms);
    assert(extras_of(ms, Record::Script) == ex);
    assert forall|q: int| 0 <= q < ms.len() implies wf_json((#[trigger] ms[q]).1) by {
        if q >= 10 {
            assert(ms[q] == ex[q - 10]);
        }
    }
    assert forall|s2: RegexScript| #[trigger]
        script_matches(s2, script_jsonv(s)) implies script_jsonv(s2) == script_jsonv(s) by {
        assert(crate::card_json::opt_i32_views(s2.min_depth) == crate::card_json::opt_i32_views(
            s.min_depth,
        ));
        match s2.min_depth {
            None => {
                assert(s.min_depth is None);
            },
            Some(w) => {
                assert(s.min_depth is Some && s.min_depth->0 == w);
            },
        }
        match s2.max_depth {
            None => {
                assert(s.max_depth is None);
            },
            Some(w) => {
                assert(s.max_depth is Some && s.max_depth->0 == w);
            },
        }
        assert(script_members(s2) =~= script_members(s));
    }
}

} // verus!

verus! {

/// Encoding a lore entry: well formed, fits the shape, decodes re-encode
/// identically.
proof fn lemma_entry_encode(e: LoreEntry)
    requires
        wf_entry(e),
    ensures
        wf_json(entry_jsonv(e)),
        entry_json_ok(entry_jsonv(e)),
        forall|e2: LoreEntry| #[trigger]
            entry_matches(e2, entry_jsonv(e)) ==> entry_jsonv(e2) == entry_jsonv(e),
{
    let ms = entry_members(e);
    let ex = pair_views_of(e.extra@);
    reveal_strlit("id");
    reveal_strlit("keys");
    reveal_strlit("secondary_keys");
    reveal_strlit("comment");
    reveal_strlit("content");
    reveal_strlit("constant");
    reveal_strlit("selective");
    reveal_strlit("insertion_order");
    reveal_strlit("enabled");
    reveal_strlit("position");
    reveal_strlit("use_regex");
    reveal_strlit("extensions");
    assert("id"@.len() == 2 && "keys"@.len() == 4 && "secondary_keys"@.len() == 14
        && "comment"@.len() == 7 && "content"@.len() == 7 && "constant"@.len() == 8
        && "selective"@.len() == 9 && "insertion_order"@.len() == 15 && "enabled"@.len() == 7
        && "position"@.len() == 8 && "use_regex"@.len() == 9 && "extensions"@.len() == 10);
    assert("comment"@[2] == 'm' && "content"@[2] == 'n' && "enabled"@[0] == 'e');
    assert("comment"@[0] == 'c' && "content"@[0] == 'c');
    assert("constant"@[0] == 'c' && "position"@[0] == 'p');
    assert("selective"@[0] == 's' && "use_regex"@[0] == 'u');
    assert(ms[0] == ("id"@, jv_int(e.id as int)));
    assert(ms[1] == ("keys"@, jv_strlist(e.keys@)));
    assert(ms[2] == ("secondary_keys"@, jv_strlist(e.secondary_keys@)));
    assert(ms[3] == ("comment"@, JsonV::Str(e.comment@)));
    assert(ms[4] == ("content"@, JsonV::Str(e.content@)));
    assert(ms[5] == ("constant"@, JsonV::Bool(e.constant)));
    assert(ms[6] == ("selective"@, JsonV::Bool(e.selective)));
    assert(ms[7] == ("insertion_order"@, jv_int(e.insertion_order as int)));
    assert(ms[8] == ("enabled"@, JsonV::Bool(e.enabled)));
    assert(ms[9] == ("position"@, JsonV::Str(e.position@)));
    assert(ms[10] == ("use_regex"@, JsonV::Bool(e.use_regex)));
    assert(ms[11] == ("extensions"@, e.extensions@));
    lemma_lookup_at(ms, 0, "id"@);
    lemma_lookup_at(ms, 1, "keys"@);
    lemma_lookup_at(ms, 2, "secondary_keys"@);
    lemma_lookup_at(ms, 3, "comment"@);
    lemma_lookup_at(ms, 4, "content"@);
    lemma_lookup_at(ms, 5, "constant"@);
    lemma_lookup_at(ms, 6, "selective"@);
    lemma_lookup_at(ms, 7, "insertion_order"@);
    lemma_lookup_at(ms, 8, "enabled"@);
    lemma_lookup_at(ms, 9, "position"@);
    lemma_lookup_at(ms, 10, "use_regex"@);
    lemma_lookup_at(ms, 11, "extensions"@);
    lemma_i32_field(e.id);
    lemma_i32_field(e.insertion_order);
    lemma_strlist_val(e.keys@);
    lemma_strlist_val(e.secondary_keys@);
    assert(forall|q: int| 0 <= q < 12 ==> known_key(Record::Entry, (#[trigger] ms[q]).0));
    lemma_extras_split(
        seq![
            ms[0], ms[1], ms[2], ms[3], ms[4], ms[5], ms[6], ms[7], ms[8], ms[9], ms[10],
            ms[11],
        ],
        ex,
        Record::Entry,
    );
    assert(seq![
        ms[0], ms[1], ms[2], ms[3], ms[4], ms[5], ms[6], ms[7], ms[8], ms[9], ms[10], ms[11],
    ] + ex =~= ms);
    assert(extras_of(ms, Record::Entry) == ex);
    assert forall|q: int| 0 <= q < ms.len() implies wf_json((#[trigger] ms[q]).1) by {
        if q >= 12 {
            assert(ms[q] == ex[q - 12]);
        } else if q == 1 {
            let sa = jv_strlist(e.keys@)->Arr_0;
            assert forall|r: int| 0 <= r < sa.len() implies wf_json(#[trigger] sa[r]) by {
                assert(sa[r] is Str);
            }
            assert(ms[q].1 == jv_strlist(e.keys@));
        } else if q == 2 {
            let sa = jv_strlist(e.secondary_keys@)->Arr_0;
            assert forall|r: int| 0 <= r < sa.len() implies wf_json(#[trigger] sa[r]) by {
                assert(sa[r] is Str);
            }
            assert(ms[q].1 == jv_strlist(e.secondary_keys@));
        } else if q == 11 {
            assert(ms[q].1 == e.extensions@);
        }
    }
    assert forall|e2: LoreEntry| #[trigger]
        entry_matches(e2, entry_jsonv(e)) implies entry_jsonv(e2) == entry_jsonv(e) by {
        assert(e2.id == e.id && e2.insertion_order == e.insertion_order);
        lemma_strlist_cong(e2.keys@, e.keys@);
        lemma_strlist_cong(e2.secondary_keys@, e.secondary_keys@);
        assert(entry_members(e2) =~= entry_members(e));
    }
}

/// Encoding the card extensions: well formed, fits the shape, decodes
/// re-encode identically.
proof fn lemma_ext_encode(x: CardExtensions)
    requires
        wf_ext(x),
    ensures
        wf_json(ext_jsonv(x)),
        ext_json_ok(ext_jsonv(x)),
        forall|x2: CardExtensions| #[trigger]
            ext_matches(x2, ext_jsonv(x)) ==> ext_jsonv(x2) == ext_jsonv(x),
{
    let ms = ext_members(x);
    let ex = pair_views_of(x.extra@);
    reveal_strlit("fav");
    reveal_strlit("world");
    reveal_strlit("talkativeness");
    reveal_strlit("depth_prompt");
    reveal_strlit("regex_scripts");
    assert("fav"@.len() == 3 && "world"@.len() == 5 && "talkativeness"@.len() == 13
        && "depth_prompt"@.len() == 12 && "regex_scripts"@.len() == 13);
    assert("talkativeness"@[0] == 't' && "regex_scripts"@[0] == 'r');
    let dpv = match x.depth_prompt {
        None => JsonV::Null,
        Some(d) => depth_jsonv(d),
    };
    let scripts = ms[4].1;
    assert(ms[0] == ("fav"@, JsonV::Bool(x.fav)));
    assert(ms[1] == ("world"@, JsonV::Str(x.world@)));
    assert(ms[2] == ("talkativeness"@, JsonV::Str(x.talkativeness@)));
    assert(ms[3] == ("depth_prompt"@, dpv));
    lemma_lookup_at(ms, 0, "fav"@);
    lemma_lookup_at(ms, 1, "world"@);
    lemma_lookup_at(ms, 2, "talkativeness"@);
    lemma_lookup_at(ms, 3, "depth_prompt"@);
    lemma_lookup_at(ms, 4, "regex_scripts"@);
    match x.depth_prompt {
        None => {},
        Some(d) => {
            lemma_depth_encode(d);
        },
    }
    let sa = scripts->Arr_0;
    assert(sa.len() == x.regex_scripts@.len());
    assert forall|q: int| 0 <= q < sa.len() implies #[trigger] sa[q] == script_jsonv(
        x.regex_scripts@[q],
    ) && wf_json(sa[q]) && script_json_ok(sa[q]) by {
        lemma_script_encode(x.regex_scripts@[q]);
    }
    assert(forall|q: int| 0 <= q < 5 ==> known_key(Record::Ext, (#[trigger] ms[q]).0));
    lemma_extras_split(seq![ms[0], ms[1], ms[2], ms[3], ms[4]], ex, Record::Ext);
    assert(seq![ms[0], ms[1], ms[2], ms[3], ms[4]] + ex =~= ms);
    assert(extras_of(ms, Record::Ext) == ex);
    assert forall|q: int| 0 <= q < ms.len() implies wf_json((#[trigger] ms[q]).1) by {
        if q >= 5 {
            assert(ms[q] == ex[q - 5]);
        } else if q == 3 {
            assert(ms[q].1 == dpv);
        } else if q == 4 {
            assert(ms[q].1 == scripts);
        }
    }
    assert(ext_json_ok(ext_jsonv(x))) by {
        match x.depth_prompt {
            None => {},
            Some(d) => {
                assert(dpv is Obj);
            },
        }
    }
    assert forall|x2: CardExtensions| #[trigger]
        ext_matches(x2, ext_jsonv(x)) implies ext_jsonv(x2) == ext_jsonv(x) by {
        match x.depth_prompt {
            None => {
                assert(x2.depth_prompt is None);
            },
            Some(d) => {
                assert(dpv is Obj);
                assert(x2.depth_prompt is Some);
                lemma_depth_encode(d);
                assert(depth_matches(x2.depth_prompt->0, depth_jsonv(d)));
                assert(depth_jsonv(x2.depth_prompt->0) == depth_jsonv(d));
            },
        }
        assert(x2.regex_scripts@.len() == sa.len());
        assert forall|q: int| 0 <= q < sa.len() implies script_jsonv(
            #[trigger] x2.regex_scripts@[q],
        ) == script_jsonv(x.regex_scripts@[q]) by {
            lemma_script_encode(x.regex_scripts@[q]);
            assert(script_matches(x2.regex_scripts@[q], sa[q]));
        }
        assert(ext_members(x2)[4].1->Arr_0 =~= scripts->Arr_0);
        assert(ext_members(x2) =~= ext_members(x));
    }
}

} // verus!

verus! {

/// Encoding a character book: well formed, fits the shape, decodes
/// re-encode identically.
proof fn lemma_book_encode(b: CharacterBook)
    requires
        wf_book(b),
    ensures
        wf_json(book_jsonv(b)),
        book_json_ok(book_jsonv(b)),
        forall|b2: CharacterBook| #[trigger]
            book_matches(b2, book_jsonv(b)) ==> book_jsonv(b2) == book_jsonv(b),
{
    let ms = book_members(b);
    let ex = pair_views_of(b.extra@);
    reveal_strlit("entries");
    reveal_strlit("name");
    reveal_strlit("description");
    reveal_strlit("scan_depth");
    assert("entries"@.len() == 7 && "name"@.len() == 4 && "description"@.len() == 11
        && "scan_depth"@.len() == 10);
    let entries = ms[0].1;
    assert(ms[1] == ("name"@, JsonV::Str(b.name@)));
    assert(ms[2] == ("description"@, jv_opt_str(b.description)));
    assert(ms[3] == ("scan_depth"@, jv_opt_i32(b.scan_depth)));
    lemma_lookup_at(ms, 0, "entries"@);
    lemma_lookup_at(ms, 1, "name"@);
    lemma_lookup_at(ms, 2, "description"@);
    lemma_lookup_at(ms, 3, "scan_depth"@);
    lemma_opt_i32_field(b.scan_depth);
    let ea = entries->Arr_0;
    assert(ea.len() == b.entries@.len());
    assert forall|q: int| 0 <= q < ea.len() implies #[trigger] ea[q] == entry_jsonv(
        b.entries@[q],
    ) && wf_json(ea[q]) && entry_json_ok(ea[q]) by {
        lemma_entry_encode(b.entries@[q]);
    }
    assert(forall|q: int| 0 <= q < 4 ==> known_key(Record::Book, (#[trigger] ms[q]).0));
    lemma_extras_split(seq![ms[0], ms[1], ms[2], ms[3]], ex, Record::Book);
    assert(seq![ms[0], ms[1], ms[2], ms[3]] + ex =~= ms);
    assert(extras_of(ms, Record::Book) == ex);
    assert forall|q: int| 0 <= q < ms.len() implies wf_json((#[trigger] ms[q]).1) by {
        if q >= 4 {
            assert(ms[q] == ex[q - 4]);
        } else if q == 0 {
            assert(ms[q].1 == entries);
        } else if q == 2 {
            assert(ms[q].1 == jv_opt_str(b.description));
            match b.description {
                None => {},
                Some(_) => {},
            }
        }
    }
    assert(book_json_ok(book_jsonv(b))) by {
        match b.description {
            None => {},
            Some(_) => {},
        }
    }
    assert forall|b2: CharacterBook| #[trigger]
        book_matches(b2, book_jsonv(b)) implies book_jsonv(b2) == book_jsonv(b) by {
        assert(b2.entries@.len() == ea.len());
        assert forall|q: int| 0 <= q < ea.len() implies entry_jsonv(#[trigger] b2.entries@[q])
            == entry_jsonv(b.entries@[q]) by {
            lemma_entry_encode(b.entries@[q]);
            assert(entry_matches(b2.entries@[q], ea[q]));
        }
        assert(book_members(b2)[0].1->Arr_0 =~= ea);
        match b2.description {
            None => {
                assert(b.description is None);
            },
            Some(w) => {
                assert(b.description is Some && b.description->0@ == w@);
            },
        }
        match b2.scan_depth {
            None => {
                assert(b.scan_depth is None);
            },
            Some(w) => {
                assert(b.scan_depth is Some && b.scan_depth->0 == w);
            },
        }
        assert(book_members(b2) =~= book_members(b));
    }
}

/// Encoding a card: well formed, fits the shape, and every decode of the
/// encoding re-encodes identically.
pub proof fn lemma_data_encode(c: CharacterData)
    requires
        wf_card(c),
    ensures
        wf_json(data_jsonv(c)),
        data_json_ok(data_jsonv(c)),
        forall|c2: CharacterData| #[trigger]
            data_matches(c2, data_jsonv(c)) ==> data_jsonv(c2) == data_jsonv(c),
{
    let ms = data_members(c);
    let ex = pair_views_of(c.extra@);
    reveal_strlit("name");
    reveal_strlit("description");
    reveal_strlit("personality");
    reveal_strlit("scenario");
    reveal_strlit("first_mes");
    reveal_strlit("mes_example");
    reveal_strlit("creator_notes");
    reveal_strlit("system_prompt");
    reveal_strlit("post_history_instructions");
    reveal_strlit("creator");
    reveal_strlit("character_version");
    reveal_strlit("alternate_greetings");
    reveal_strlit("tags");
    reveal_strlit("group_only_greetings");
    reveal_strlit("character_book");
    reveal_strlit("extensions");
    assert("name"@.len() == 4 && "description"@.len() == 11 && "personality"@.len() == 11
        && "scenario"@.len() == 8 && "first_mes"@.len() == 9 && "mes_example"@.len() == 11
        && "creator_notes"@.len() == 13 && "system_prompt"@.len() == 13
        && "post_history_instructions"@.len() == 25 && "creator"@.len() == 7
        && "character_version"@.len() == 17 && "alternate_greetings"@.len() == 19
        && "tags"@.len() == 4 && "group_only_greetings"@.len() == 20 && "character_book"@.len()
        == 14 && "extensions"@.len() == 10);
    assert("name"@[0] == 'n' && "tags"@[0] == 't');
    assert("description"@[0] == 'd' && "personality"@[0] == 'p' && "mes_example"@[0] == 'm');
    assert("creator_notes"@[0] == 'c' && "system_prompt"@[0] == 's');
    let bookv = match c.character_book {
        None => JsonV::Null,
        Some(b) => book_jsonv(b),
    };
    let extv = match c.extensions {
        None => JsonV::Null,
        Some(x) => ext_jsonv(x),
    };
    assert(ms[0] == ("name"@, JsonV::Str(c.name@)));
    assert(ms[1] == ("description"@, JsonV::Str(c.description@)));
    assert(ms[2] == ("personality"@, JsonV::Str(c.personality@)));
    assert(ms[3] == ("scenario"@, JsonV::Str(c.scenario@)));
    assert(ms[4] == ("first_mes"@, JsonV::Str(c.first_mes@)));
    assert(ms[5] == ("mes_example"@, JsonV::Str(c.mes_example@)));
    assert(ms[6] == ("creator_notes"@, JsonV::Str(c.creator_notes@)));
    assert(ms[7] == ("system_prompt"@, JsonV::Str(c.system_prompt@)));
    assert(ms[8] == ("post_history_instructions"@, JsonV::Str(c.post_history_instructions@)));
    assert(ms[9] == ("creator"@, JsonV::Str(c.creator@)));
    assert(ms[10] == ("character_version"@, JsonV::Str(c.character_version@)));
    assert(ms[11] == ("alternate_greetings"@, jv_strlist(c.alternate_greetings@)));
    assert(ms[12] == ("tags"@, jv_strlist(c.tags@)));
    assert(ms[13] == ("group_only_greetings"@, jv_strlist(c.group_only_greetings@)));
    assert(ms[14] == ("character_book"@, bookv));
    assert(ms[15] == ("extensions"@, extv));
    lemma_lookup_at(ms, 0, "name"@);
    lemma_lookup_at(ms, 1, "description"@);
    lemma_lookup_at(ms, 2, "personality"@);
    lemma_lookup_at(ms, 3, "scenario"@);
    lemma_lookup_at(ms, 4, "first_mes"@);
    lemma_lookup_at(ms, 5, "mes_example"@);
    lemma_lookup_at(ms, 6, "creator_notes"@);
    lemma_lookup_at(ms, 7, "system_prompt"@);
    lemma_lookup_at(ms, 8, "post_history_instructions"@);
    lemma_lookup_at(ms, 9, "creator"@);
    lemma_lookup_at(ms, 10, "character_version"@);
    lemma_lookup_at(ms, 11, "alternate_greetings"@);
    lemma_lookup_at(ms, 12, "tags"@);
    lemma_lookup_at(ms, 13, "group_only_greetings"@);
    lemma_lookup_at(ms, 14, "character_book"@);
    lemma_lookup_at(ms, 15, "extensions"@);
    lemma_strlist_val(c.alternate_greetings@);
    lemma_strlist_val(c.tags@);
    lemma_strlist_val(c.group_only_greetings@);
    match c.character_book {
        None => {},
        Some(b) => {
            lemma_book_encode(b);
        },
    }
    match c.extensions {
        None => {},
        Some(x) => {
            lemma_ext_encode(x);
        },
    }
    assert(forall|q: int| 0 <= q < 16 ==> known_key(Record::Data, (#[trigger] ms[q]).0));
    lemma_extras_split(
        seq![
            ms[0], ms[1], ms[2], ms[3], ms[4], ms[5], ms[6], ms[7], ms[8], ms[9], ms[10],
            ms[11], ms[12], ms[13], ms[14], ms[15],
        ],
        ex,
        Record::Data,
    );
    assert(seq![
        ms[0], ms[1], ms[2], ms[3], ms[4], ms[5], ms[6], ms[7], ms[8], ms[9], ms[10], ms[11],
        ms[12], ms[13], ms[14], ms[15],
    ] + ex =~= ms);
    assert(extras_of(ms, Record::Data) == ex);
    assert forall|q: int| 0 <= q < ms.len() implies wf_json((#[trigger] ms[q]).1) by {
        if q >= 16 {
            assert(ms[q] == ex[q - 16]);
        } else if q == 11 {
            let sa = jv_strlist(c.alternate_greetings@)->Arr_0;
            assert forall|r: int| 0 <= r < sa.len() implies wf_json(#[trigger] sa[r]) by {
                assert(sa[r] is Str);
            }
            assert(ms[q].1 == jv_strlist(c.alternate_greetings@));
        } else if q == 12 {
            let sa = jv_strlist(c.tags@)->Arr_0;
            assert forall|r: int| 0 <= r < sa.len() implies wf_json(#[trigger] sa[r]) by {
                assert(sa[r] is Str);
            }
            assert(ms[q].1 == jv_strlist(c.tags@));
        } else if q == 13 {
            let sa = jv_strlist(c.group_only_greetings@)->Arr_0;
            assert forall|r: int| 0 <= r < sa.len() implies wf_json(#[trigger] sa[r]) by {
                assert(sa[r] is Str);
            }
            assert(ms[q].1 == jv_strlist(c.group_only_greetings@));
        } else if q == 14 {
            assert(ms[q].1 == bookv);
        } else if q == 15 {
            assert(ms[q].1 == extv);
        }
    }
    assert(data_json_ok(data_jsonv(c))) by {
        match c.character_book {
            None => {},
            Some(b) => {
                assert(bookv is Obj);
            },
        }
        match c.extensions {
            None => {},
            Some(x) => {
                assert(extv is Obj);
            },
        }
    }
    assert forall|c2: CharacterData| #[trigger]
        data_matches(c2, data_jsonv(c)) implies data_jsonv(c2) == data_jsonv(c) by {
        lemma_strlist_cong(c2.alternate_greetings@, c.alternate_greetings@);
        lemma_strlist_cong(c2.tags@, c.tags@);
        lemma_strlist_cong(c2.group_only_greetings@, c.group_only_greetings@);
        match c.character_book {
            None => {
                assert(c2.character_book is None);
            },
            Some(b) => {
                assert(bookv is Obj);
                assert(c2.character_book is Some);
                lemma_book_encode(b);
                assert(book_matches(c2.character_book->0, book_jsonv(b)));
                assert(book_jsonv(c2.character_book->0) == book_jsonv(b));
            },
        }
        match c.extensions {
            None => {
                assert(c2.extensions is None);
            },
            Some(x) => {
                assert(extv is Obj);
                assert(c2.extensions is Some);
                lemma_ext_encode(x);
                assert(ext_matches(c2.extensions->0, ext_jsonv(x)));
                assert(ext_jsonv(c2.extensions->0) == ext_jsonv(x));
            },
        }
        assert(data_members(c2) =~= data_members(c));
    }
}

/// The card round trip: the canonical JSON text of a card parses back to
/// exactly the card's encoding, that encoding fits the card shape, and any
/// card decoded from it agrees with the encoded card in every field — the
/// recognized ones and the kept extras alike.
pub proof fn lemma_card_round_trip(c: CharacterData)
    requires
        wf_card(c),
    ensures
        json_parse(pp(data_jsonv(c), 0)) == Some(data_jsonv(c)),
        data_json_ok(data_jsonv(c)),
        forall|c2: CharacterData| #[trigger]
            data_matches(c2, data_jsonv(c)) ==> data_jsonv(c2) == data_jsonv(c),
{
    lemma_data_encode(c);
    lemma_canonical_round_trip(data_jsonv(c));
}

} // verus!

verus! {

/// A V3 envelope that re-encodes losslessly.
pub open spec fn wf_v3(c: CharaCardV3) -> bool {
    &&& wf_card(c.data)
    &&& wf_extras(pair_views_of(c.extra@), Record::Envelope)
}

/// The envelope round trip: the canonical JSON text of a V3 envelope parses
/// back to exactly its encoding, the encoding fits the envelope shape, and
/// any envelope decoded from it re-encodes identically.
pub proof fn lemma_v3_round_trip(c: CharaCardV3)
    requires
        wf_v3(c),
    ensures
        json_parse(pp(v3_jsonv(c), 0)) == Some(v3_jsonv(c)),
        v3_json_ok(v3_jsonv(c)),
        forall|c2: CharaCardV3| #[trigger]
            v3_matches(c2, v3_jsonv(c)) ==> v3_jsonv(c2) == v3_jsonv(c),
{
    let ms = v3_members(c);
    let ex = pair_views_of(c.extra@);
    reveal_strlit("spec");
    reveal_strlit("spec_version");
    reveal_strlit("data");
    assert("spec"@.len() == 4 && "spec_version"@.len() == 12 && "data"@.len() == 4);
    assert("spec"@[0] == 's' && "data"@[0] == 'd');
    assert(ms[0] == ("spec"@, JsonV::Str(c.spec_id@)));
    assert(ms[1] == ("spec_version"@, JsonV::Str(c.version_tag@)));
    assert(ms[2] == ("data"@, data_jsonv(c.data)));
    lemma_lookup_at(ms, 0, "spec"@);
    lemma_lookup_at(ms, 1, "spec_version"@);
    lemma_lookup_at(ms, 2, "data"@);
    lemma_data_encode(c.data);
    assert(forall|q: int| 0 <= q < 3 ==> known_key(Record::Envelope, (#[trigger] ms[q]).0));
    lemma_extras_split(seq![ms[0], ms[1], ms[2]], ex, Record::Envelope);
    assert(seq![ms[0], ms[1], ms[2]] + ex =~= ms);
    assert(extras_of(ms, Record::Envelope) == ex);
    assert forall|q: int| 0 <= q < ms.len() implies wf_json((#[trigger] ms[q]).1) by {
        if q >= 3 {
            assert(ms[q] == ex[q - 3]);
        } else if q == 2 {
            assert(ms[q].1 == data_jsonv(c.data));
        }
    }
    assert forall|c2: CharaCardV3| #[trigger]
        v3_matches(c2, v3_jsonv(c)) implies v3_jsonv(c2) == v3_jsonv(c) by {
        assert(data_matches(c2.data, data_jsonv(c.data)));
        assert(data_jsonv(c2.data) == data_jsonv(c.data));
        assert(v3_members(c2) =~= v3_members(c));
    }
    lemma_canonical_round_trip(v3_jsonv(c));
}

} // verus!

verus! {

/// A digit run within `s` restricts to a digit run of the subrange.
proof fn lemma_digits_end_restrict(s: Seq<char>, j: int, e: int, a: int)
    requires
        0 <= j <= a <= e <= s.len(),
        digits_end(s, a) <= e,
    ensures
        digits_end(s.subrange(j, e), a - j) == digits_end(s, a) - j,
    decreases e - a,
{
    let t = s.subrange(j, e);
    lemma_digits_end(s, a);
    if a < e {
        assert(t[a - j] == s[a]);
        if is_digit(s[a]) {
            assert(digits_end(s, a) == digits_end(s, a + 1));
            lemma_digits_end_restrict(s, j, e, a + 1);
        }
    }
}

/// A token scanned out of a longer text is, on its own, a complete number
/// token.
proof fn lemma_scan_num_extract(s: Seq<char>, j: int, e: int)
    requires
        0 <= j <= s.len(),
        scan_num_end(s, j) == Some(e),
    ensures
        e <= s.len(),
        j < e,
        wf_num(s.subrange(j, e)),
{
    crate::json_parse::lemma_scan_num_end(s, j);
    let t = s.subrange(j, e);
    let sj: int = if 0 <= j < s.len() && s[j] == '-' {
        j + 1
    } else {
        j
    };
    assert(is_digit(s[sj]));
    let sk: int = if s[sj] == '0' {
        sj + 1
    } else {
        digits_end(s, sj)
    };
    lemma_digits_end(s, sj);
    let smo = frac_end(s, sk);
    assert(smo is Some);
    let sm = smo->0;
    assert(exp_end(s, sm) == Some(e));
    // component bounds: every component end is at most e
    if 0 <= sm < s.len() && (s[sm] == 'e' || s[sm] == 'E') {
        let sq: int = if sm + 1 < s.len() && (s[sm + 1] == '+' || s[sm + 1] == '-') {
            sm + 2
        } else {
            sm + 1
        };
        assert(sq < s.len() && is_digit(s[sq]));
        lemma_digits_end(s, sq);
        assert(e == digits_end(s, sq));
        assert(sm < e);
    } else {
        assert(sm == e);
    }
    if 0 <= sk < s.len() && s[sk] == '.' {
        lemma_digits_end(s, sk + 1);
        assert(sm == digits_end(s, sk + 1));
        assert(sk < sm);
    } else {
        assert(sk == sm);
    }
    assert(sk <= sm <= e);
    // the standalone scan mirrors the embedded one
    assert(t[0] == s[j]);
    let tj: int = if t[0] == '-' {
        1
    } else {
        0
    };
    assert(j + tj == sj);
    assert(t[tj] == s[sj]);
    let tk: int = if t[tj] == '0' {
        tj + 1
    } else {
        digits_end(t, tj)
    };
    if t[tj] != '0' {
        lemma_digits_end_restrict(s, j, e, sj);
        assert(tk == sk - j);
    } else {
        assert(tk == sk - j);
    }
    if 0 <= sk < s.len() && s[sk] == '.' {
        assert(sk < e);
        assert(t[tk] == s[sk]);
        assert(t[tk + 1] == s[sk + 1]);
        lemma_digits_end_restrict(s, j, e, sk + 1);
        assert(frac_end(t, tk) == Some(sm - j));
    } else {
        if sk < e {
            assert(t[tk] == s[sk]);
            assert(frac_end(t, tk) == Some(tk));
        } else {
            assert(tk == t.len());
            assert(frac_end(t, tk) == Some(tk));
        }
        assert(sm == sk);
    }
    let tm = sm - j;
    if 0 <= sm < s.len() && (s[sm] == 'e' || s[sm] == 'E') {
        assert(sm < e);
        assert(t[tm] == s[sm]);
        let sq: int = if sm + 1 < s.len() && (s[sm + 1] == '+' || s[sm + 1] == '-') {
            sm + 2
        } else {
            sm + 1
        };
        if sm + 1 < e {
            assert(t[tm + 1] == s[sm + 1]);
        }
        assert(sq < e || sq == e);
        assert(sq < s.len() && is_digit(s[sq]));
        assert(sq < e) by {
            lemma_digits_end(s, sq);
        }
        assert(t[sq - j] == s[sq]);
        lemma_digits_end_restrict(s, j, e, sq);
        assert(exp_end(t, tm) == Some(e - j));
    } else {
        if sm < e {
            assert(t[tm] == s[sm]);
            assert(exp_end(t, tm) == Some(tm));
        } else {
            assert(tm == t.len());
            assert(exp_end(t, tm) == Some(tm));
        }
        assert(sm == e);
    }
    assert(scan_num_end(t, 0) == Some(t.len() as int));
}

/// Values the parser returns are well formed.
proof fn lemma_jp_value_wf(s: Seq<char>, i: int, f: nat)
    requires
        jp_value(s, i, f) matches Some(Some((v, e))),
    ensures
        wf_json((jp_value(s, i, f)->0->0).0),
    decreases f,
{
    let v = (jp_value(s, i, f)->0->0).0;
    let j = ws_end(s, i);
    if !lit_null_at(s, j) && !lit_true_at(s, j) && !lit_false_at(s, j) && 0 <= j < s.len() {
        if s[j] == '"' {
        } else if s[j] == '-' || is_digit(s[j]) {
            let e = scan_num_end(s, j)->0;
            lemma_scan_num_extract(s, j, e);
        } else if s[j] == '[' {
            let j2 = ws_end(s, j + 1);
            if !(0 <= j2 < s.len() && s[j2] == ']') {
                lemma_jp_items_wf(s, j + 1, (f - 1) as nat);
            }
        } else if s[j] == '{' {
            let j2 = ws_end(s, j + 1);
            if !(0 <= j2 < s.len() && s[j2] == '}') {
                lemma_jp_members_wf(s, j + 1, (f - 1) as nat);
            }
        }
    }
}

/// Element lists the parser returns are well formed.
proof fn lemma_jp_items_wf(s: Seq<char>, i: int, f: nat)
    requires
        jp_items(s, i, f) matches Some(Some((vs, e))),
    ensures
        forall|q: int|
            0 <= q < (jp_items(s, i, f)->0->0).0.len() ==> wf_json(
                #[trigger] (jp_items(s, i, f)->0->0).0[q],
            ),
    decreases f,
{
    let vs = (jp_items(s, i, f)->0->0).0;
    lemma_jp_value_wf(s, i, (f - 1) as nat);
    let v = (jp_value(s, i, (f - 1) as nat)->0->0).0;
    let e = (jp_value(s, i, (f - 1) as nat)->0->0).1;
    let k = ws_end(s, e);
    if 0 <= k < s.len() && s[k] == ',' {
        lemma_jp_items_wf(s, k + 1, (f - 1) as nat);
        let rest = (jp_items(s, k + 1, (f - 1) as nat)->0->0).0;
        assert forall|q: int| 0 <= q < vs.len() implies wf_json(#[trigger] vs[q]) by {
            if q == 0 {
                assert(vs[q] == v);
            } else {
                assert(vs[q] == rest[q - 1]);
            }
        }
    } else {
        assert(vs =~= seq![v]);
        assert(forall|q: int| 0 <= q < vs.len() ==> vs[q] == v);
    }
}

/// Member lists the parser returns are well formed.
proof fn lemma_jp_members_wf(s: Seq<char>, i: int, f: nat)
    requires
        jp_members(s, i, f) matches Some(Some((ps, e))),
    ensures
        forall|q: int|
            0 <= q < (jp_members(s, i, f)->0->0).0.len() ==> wf_json(
                (#[trigger] (jp_members(s, i, f)->0->0).0[q]).1,
            ),
    decreases f,
{
    let ps = (jp_members(s, i, f)->0->0).0;
    let j = ws_end(s, i);
    let key = (scan_str(s, j + 1)->0).0;
    let e0 = (scan_str(s, j + 1)->0).1;
    let cpos = ws_end(s, e0);
    lemma_jp_value_wf(s, cpos + 1, (f - 1) as nat);
    let v = (jp_value(s, cpos + 1, (f - 1) as nat)->0->0).0;
    let e = (jp_value(s, cpos + 1, (f - 1) as nat)->0->0).1;
    let k = ws_end(s, e);
    if 0 <= k < s.len() && s[k] == ',' {
        lemma_jp_members_wf(s, k + 1, (f - 1) as nat);
        let rest = (jp_members(s, k + 1, (f - 1) as nat)->0->0).0;
        assert forall|q: int| 0 <= q < ps.len() implies wf_json((#[trigger] ps[q]).1) by {
            if q == 0 {
                assert(ps[q] == (key, v));
            } else {
                assert(ps[q] == rest[q - 1]);
            }
        }
    } else {
        assert(ps =~= seq![(key, v)]);
        assert(forall|q: int| 0 <= q < ps.len() ==> ps[q] == (key, v));
    }
}

/// Whatever a JSON text parses to is well formed.
pub proof fn lemma_parsed_wf(s: Seq<char>)
    requires
        json_parse(s) is Some,
    ensures
        wf_json(json_parse(s)->0),
{
    let f = choose|f: nat| jp_document(s, f) is Some;
    assert(jp_document(s, f) is Some);
    lemma_jp_document_defined(s, f);
    assert(jp_document(s, f) == Some(json_parse(s)));
    lemma_jp_value_wf(s, 0, f);
}

} // verus!

verus! {

/// A found value is one of the members' values.
proof fn lemma_lookup_member(ps: Seq<(Seq<char>, JsonV)>, key: Seq<char>)
    requires
        lookup(ps, key) is Some,
    ensures
        exists|q: int| 0 <= q < ps.len() && (#[trigger] ps[q]).1 == lookup(ps, key)->0,
    decreases ps.len(),
{
    if ps.len() > 0 {
        if ps[0].0 == key {
            assert(ps[0].1 == lookup(ps, key)->0);
        } else {
            lemma_lookup_member(ps.drop_first(), key);
            let q = choose|q: int|
                0 <= q < ps.drop_first().len() && (#[trigger] ps.drop_first()[q]).1 == lookup(
                    ps.drop_first(),
                    key,
                )->0;
            assert(ps[q + 1].1 == lookup(ps, key)->0);
        }
    }
}

/// The kept extras of well-formed members are well-formed extras.
proof fn lemma_extras_wf(ps: Seq<(Seq<char>, JsonV)>, o: Record)
    requires
        forall|q: int| 0 <= q < ps.len() ==> wf_json((#[trigger] ps[q]).1),
    ensures
        wf_extras(extras_of(ps, o), o),
    decreases ps.len(),
{
    if ps.len() > 0 {
        lemma_extras_wf(ps.drop_last(), o);
        let rest = extras_of(ps.drop_last(), o);
        if !known_key(o, ps.last().0) {
            assert forall|q: int|
                0 <= q < extras_of(ps, o).len() implies wf_json(
                    (#[trigger] extras_of(ps, o)[q]).1,
                ) && !known_key(o, extras_of(ps, o)[q].0) by {
                if q < rest.len() {
                    assert(extras_of(ps, o)[q] == rest[q]);
                } else {
                    assert(extras_of(ps, o)[q] == ps.last());
                }
            }
        }
    }
}

/// A decoded depth prompt is fit for re-encoding.
proof fn lemma_depth_decode_wf(d: DepthPrompt, v: JsonV)
    requires
        wf_json(v),
        depth_json_ok(v),
        depth_matches(d, v),
    ensures
        wf_depth(d),
{
    lemma_extras_wf(v->Obj_0, Record::Depth);
}

/// A decoded regex script is fit for re-encoding.
proof fn lemma_script_decode_wf(s: RegexScript, v: JsonV)
    requires
        wf_json(v),
        script_json_ok(v),
        script_matches(s, v),
    ensures
        wf_script(s),
{
    lemma_extras_wf(v->Obj_0, Record::Script);
}

/// A decoded lore entry is fit for re-encoding.
proof fn lemma_entry_decode_wf(e: LoreEntry, v: JsonV)
    requires
        wf_json(v),
        entry_json_ok(v),
        entry_matches(e, v),
    ensures
        wf_entry(e),
{
    lemma_extras_wf(v->Obj_0, Record::Entry);
    reveal_strlit("extensions");
    match lookup(v->Obj_0, "extensions"@) {
        None => {},
        Some(w) => {
            lemma_lookup_member(v->Obj_0, "extensions"@);
        },
    }
}

/// Decoded card extensions are fit for re-encoding.
proof fn lemma_ext_decode_wf(x: CardExtensions, v: JsonV)
    requires
        wf_json(v),
        ext_json_ok(v),
        ext_matches(x, v),
    ensures
        wf_ext(x),
{
    lemma_extras_wf(v->Obj_0, Record::Ext);
    reveal_strlit("depth_prompt");
    reveal_strlit("regex_scripts");
    match lookup(v->Obj_0, "depth_prompt"@) {
        None => {},
        Some(w) => {
            if !(w is Null) {
                lemma_lookup_member(v->Obj_0, "depth_prompt"@);
                lemma_depth_decode_wf(x.depth_prompt->0, w);
            }
        },
    }
    match lookup(v->Obj_0, "regex_scripts"@) {
        None => {
            assert(x.regex_scripts@.len() == 0);
        },
        Some(w) => {
            lemma_lookup_member(v->Obj_0, "regex_scripts"@);
            assert(wf_json(w));
            let items = w->Arr_0;
            assert forall|q: int|
                0 <= q < x.regex_scripts@.len() implies wf_script(
                    #[trigger] x.regex_scripts@[q],
                ) by {
                assert(script_matches(x.regex_scripts@[q], items[q]));
                assert(wf_json(items[q]));
                lemma_script_decode_wf(x.regex_scripts@[q], items[q]);
            }
        },
    }
}

/// A decoded character book is fit for re-encoding.
proof fn lemma_book_decode_wf(b: CharacterBook, v: JsonV)
    requires
        wf_json(v),
        book_json_ok(v),
        book_matches(b, v),
    ensures
        wf_book(b),
{
    lemma_extras_wf(v->Obj_0, Record::Book);
    reveal_strlit("entries");
    match lookup(v->Obj_0, "entries"@) {
        None => {
            assert(b.entries@.len() == 0);
        },
        Some(w) => {
            lemma_lookup_member(v->Obj_0, "entries"@);
            assert(wf_json(w));
            let items = w->Arr_0;
            assert forall|q: int|
                0 <= q < b.entries@.len() implies wf_entry(#[trigger] b.entries@[q]) by {
                assert(entry_matches(b.entries@[q], items[q]));
                assert(wf_json(items[q]));
                lemma_entry_decode_wf(b.entries@[q], items[q]);
            }
        },
    }
}

/// A decoded card is fit for the round trip.
pub proof fn lemma_data_decode_wf(c: CharacterData, v: JsonV)
    requires
        wf_json(v),
        data_json_ok(v),
        data_matches(c, v),
    ensures
        wf_card(c),
{
    lemma_extras_wf(v->Obj_0, Record::Data);
    reveal_strlit("character_book");
    reveal_strlit("extensions");
    match lookup(v->Obj_0, "character_book"@) {
        None => {},
        Some(w) => {
            if !(w is Null) {
                lemma_lookup_member(v->Obj_0, "character_book"@);
                lemma_book_decode_wf(c.character_book->0, w);
            }
        },
    }
    match lookup(v->Obj_0, "extensions"@) {
        None => {},
        Some(w) => {
            if !(w is Null) {
                lemma_lookup_member(v->Obj_0, "extensions"@);
                lemma_ext_decode_wf(c.extensions->0, w);
            }
        },
    }
}

/// Every card decoded from a JSON text satisfies the round-trip hypothesis:
/// parsing, decoding, re-encoding and re-parsing all return to the same
/// card.
pub proof fn lemma_decoded_card_wf(c: CharacterData, s: Seq<char>)
    requires
        json_parse(s) is Some,
        data_json_ok(json_parse(s)->0),
        data_matches(c, json_parse(s)->0),
    ensures
        wf_card(c),
{
    lemma_parsed_wf(s);
    lemma_data_decode_wf(c, json_parse(s)->0);
}

} // verus!

verus! {

/// The round trip through the resolver itself: whenever resolution of a V2
/// payload succeeds, the canonical text it returned parses back to exactly
/// the returned card's encoding, and any card decoded from that text agrees
/// with the returned card in every field.
pub proof fn lemma_resolved_card_round_trip(p: Seq<char>, c: CharacterData, s: String)
    requires
        crate::resolve::v2_outcome(p, Ok((c, s))),
    ensures
        wf_card(c),
        s@ == pp(data_jsonv(c), 0),
        json_parse(s@) == Some(data_jsonv(c)),
        forall|c2: CharacterData| #[trigger]
            data_matches(c2, data_jsonv(c)) ==> data_jsonv(c2) == data_jsonv(c),
{
    let b = crate::resolve::b64_decode_of(p)->0;
    let text = vstd::utf8::decode_utf8(b);
    lemma_decoded_card_wf(c, text);
    lemma_card_round_trip(c);
}

} // verus!

verus! {

/// A decoded V3 envelope is fit for the round trip.
pub proof fn lemma_v3_decode_wf(w: CharaCardV3, v: JsonV)
    requires
        wf_json(v),
        v3_json_ok(v),
        v3_matches(w, v),
    ensures
        wf_v3(w),
{
    lemma_extras_wf(v->Obj_0, Record::Envelope);
    reveal_strlit("data");
    lemma_lookup_member(v->Obj_0, "data"@);
    lemma_data_decode_wf(w.data, lookup(v->Obj_0, "data"@)->0);
}

/// The round trip through the resolver, V3 path: the canonical text it
/// returned is the encoding of some decoded envelope carrying the returned
/// card, that text parses back to exactly that encoding, and any envelope
/// decoded from it re-encodes identically.
pub proof fn lemma_resolved_v3_round_trip(p: Seq<char>, c: CharacterData, s: String)
    requires
        crate::resolve::v3_outcome(p, Ok((c, s))),
    ensures
        exists|w: CharaCardV3|
            {
                &&& #[trigger] wf_v3(w)
                &&& w.data == c
                &&& s@ == pp(v3_jsonv(w), 0)
                &&& json_parse(s@) == Some(v3_jsonv(w))
                &&& forall|w2: CharaCardV3| #[trigger]
                    v3_matches(w2, v3_jsonv(w)) ==> v3_jsonv(w2) == v3_jsonv(w)
            },
{
    let b = crate::resolve::b64_decode_of(p)->0;
    let text = vstd::utf8::decode_utf8(b);
    let v = json_parse(text)->0;
    let w = choose|w: CharaCardV3|
        #[trigger] v3_matches(w, v) && w.data == c && s@ == pp(v3_jsonv(w), 0);
    lemma_parsed_wf(text);
    lemma_v3_decode_wf(w, v);
    lemma_v3_round_trip(w);
    assert(wf_v3(w) && w.data == c && s@ == pp(v3_jsonv(w), 0) && json_parse(s@) == Some(
        v3_jsonv(w),
    ));
}

} // verus!
