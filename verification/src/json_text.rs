//! The canonical JSON text.
//!
//! A card is re-serialized as pretty-printed JSON (two-space indent, members
//! in source order). The exact text is defined here as a specification
//! function over [`JsonV`], and the executable printer is proved to produce
//! it character for character.

use vstd::prelude::*;

use crate::json::{Json, JsonV};
use crate::text::append_chars;

verus! {

/// The character for a hexadecimal digit value, lower case.
pub open spec fn hex_digit(d: nat) -> char
    recommends
        d < 16,
{
    if d < 10 {
        ((d + 48) as u8) as char
    } else {
        ((d + 87) as u8) as char
    }
}

/// The escape of one string character inside a JSON string literal:
/// backslash and quote get a two-character escape, the five named control
/// characters get their short form, all other control characters get a
/// `\u00XX` form, and everything else stands for itself.
pub open spec fn esc_char(c: char) -> Seq<char> {
    if c == '"' {
        seq!['\\', '"']
    } else if c == '\\' {
        seq!['\\', '\\']
    } else if c == '\n' {
        seq!['\\', 'n']
    } else if c == '\r' {
        seq!['\\', 'r']
    } else if c == '\t' {
        seq!['\\', 't']
    } else if c as u32 == 8 {
        seq!['\\', 'b']
    } else if c as u32 == 12 {
        seq!['\\', 'f']
    } else if (c as u32) < 32 {
        seq!['\\', 'u', '0', '0', hex_digit((c as u32 / 16) as nat), hex_digit(
            (c as u32 % 16) as nat,
        )]
    } else {
        seq![c]
    }
}

/// The escaped body of a JSON string literal.
pub open spec fn esc(s: Seq<char>) -> Seq<char>
    decreases s.len(),
{
    if s.len() == 0 {
        Seq::empty()
    } else {
        esc(s.drop_last()) + esc_char(s.last())
    }
}

/// `n` spaces.
pub open spec fn sp(n: nat) -> Seq<char>
    decreases n,
{
    if n == 0 {
        Seq::empty()
    } else {
        sp((n - 1) as nat).push(' ')
    }
}

/// The canonical (pretty-printed) text of a JSON value, rendered at
/// indentation depth `ind`. The value's first character starts immediately;
/// `ind` only governs the indentation of nested lines.
pub open spec fn pp(v: JsonV, ind: nat) -> Seq<char>
    decreases v, 0int,
{
    match v {
        JsonV::Null => seq!['n', 'u', 'l', 'l'],
        JsonV::Bool(b) => if b {
            seq!['t', 'r', 'u', 'e']
        } else {
            seq!['f', 'a', 'l', 's', 'e']
        },
        JsonV::Num(t) => t,
        JsonV::Str(s) => seq!['"'] + esc(s) + seq!['"'],
        JsonV::Arr(items) => if items.len() == 0 {
            seq!['[', ']']
        } else {
            seq!['[', '\n'] + pp_items(items, 0, (ind + 2) as nat) + seq!['\n'] + sp(ind)
                + seq![']']
        },
        JsonV::Obj(pairs) => if pairs.len() == 0 {
            seq!['{', '}']
        } else {
            seq!['{', '\n'] + pp_members(pairs, 0, (ind + 2) as nat) + seq!['\n'] + sp(ind)
                + seq!['}']
        },
    }
}

/// The element lines of a non-empty array body, from element `i` on:
/// each element indented, elements separated by `,` and a line break.
pub open spec fn pp_items(items: Seq<JsonV>, i: int, ind: nat) -> Seq<char>
    recommends
        0 <= i < items.len(),
    decreases items, items.len() - i,
{
    if !(0 <= i < items.len()) {
        Seq::empty()
    } else if i + 1 >= items.len() {
        sp(ind) + pp(items[i], ind)
    } else {
        sp(ind) + pp(items[i], ind) + seq![',', '\n'] + pp_items(items, i + 1, ind)
    }
}

/// The member lines of a non-empty object body, from member `i` on.
pub open spec fn pp_members(pairs: Seq<(Seq<char>, JsonV)>, i: int, ind: nat) -> Seq<char>
    recommends
        0 <= i < pairs.len(),
    decreases pairs, pairs.len() - i,
{
    if !(0 <= i < pairs.len()) {
        Seq::empty()
    } else if i + 1 >= pairs.len() {
        sp(ind) + pp_member(pairs[i], ind)
    } else {
        sp(ind) + pp_member(pairs[i], ind) + seq![',', '\n'] + pp_members(pairs, i + 1, ind)
    }
}

/// One object member: the quoted key, a colon and a space, then the value.
pub open spec fn pp_member(pair: (Seq<char>, JsonV), ind: nat) -> Seq<char>
    decreases pair, 1int,
{
    seq!['"'] + esc(pair.0) + seq!['"', ':', ' '] + pp(pair.1, ind)
}

/// `sp(n)` really is `n` spaces.
pub proof fn lemma_sp(n: nat)
    ensures
        sp(n).len() == n,
        forall|i: int| 0 <= i < n ==> sp(n)[i] == ' ',
    decreases n,
{
    if n > 0 {
        lemma_sp((n - 1) as nat);
    }
}

/// Whether a character vector consists of spaces only.
pub open spec fn all_spaces(s: Seq<char>) -> bool {
    forall|i: int| 0 <= i < s.len() ==> s[i] == ' '
}

/// Appends the escape of one character.
fn push_esc_char(c: char, out: &mut Vec<char>)
    ensures
        final(out)@ == old(out)@ + esc_char(c),
{
    if c == '"' {
        out.push('\\');
        out.push('"');
    } else if c == '\\' {
        out.push('\\');
        out.push('\\');
    } else if c == '\n' {
        out.push('\\');
        out.push('n');
    } else if c == '\r' {
        out.push('\\');
        out.push('r');
    } else if c == '\t' {
        out.push('\\');
        out.push('t');
    } else if c as u32 == 8 {
        out.push('\\');
        out.push('b');
    } else if c as u32 == 12 {
        out.push('\\');
        out.push('f');
    } else if (c as u32) < 32 {
        out.push('\\');
        out.push('u');
        out.push('0');
        out.push('0');
        let hi: u32 = c as u32 / 16;
        let lo: u32 = c as u32 % 16;
        if hi < 10 {
            out.push((hi as u8 + 48) as char);
        } else {
            out.push((hi as u8 + 87) as char);
        }
        if lo < 10 {
            out.push((lo as u8 + 48) as char);
        } else {
            out.push((lo as u8 + 87) as char);
        }
    } else {
        out.push(c);
    }
    assert(out@ =~= old(out)@ + esc_char(c));
}

/// Appends the escaped body of a string.
pub(crate) fn push_esc(s: &str, out: &mut Vec<char>)
    ensures
        final(out)@ == old(out)@ + esc(s@),
{
    let n = s.unicode_len();
    let mut i: usize = 0;
    while i < n
        invariant
            n == s@.len(),
            i <= s@.len(),
            out@ == old(out)@ + esc(s@.subrange(0, i as int)),
        decreases s@.len() - i,
    {
        push_esc_char(s.get_char(i), out);
        proof {
            assert(s@.subrange(0, i + 1).drop_last() =~= s@.subrange(0, i as int));
            assert(s@.subrange(0, i + 1).last() == s@[i as int]);
            assert(out@ =~= old(out)@ + esc(s@.subrange(0, i + 1)));
        }
        i = i + 1;
    }
    proof {
        assert(s@.subrange(0, s@.len() as int) =~= s@);
    }
}

/// Appends a quoted, escaped JSON string literal.
fn push_quoted(s: &str, out: &mut Vec<char>)
    ensures
        final(out)@ == old(out)@ + seq!['"'] + esc(s@) + seq!['"'],
{
    out.push('"');
    push_esc(s, out);
    out.push('"');
    assert(out@ =~= old(out)@ + seq!['"'] + esc(s@) + seq!['"']);
}

/// Appends the canonical text of `v` at the indentation held in `ind`.
#[verifier::loop_isolation(false)]
pub(crate) fn push_json(v: &Json, ind: &Vec<char>, out: &mut Vec<char>)
    requires
        all_spaces(ind@),
    ensures
        final(out)@ == old(out)@ + pp(v@, ind@.len() as nat),
    decreases *v, 0int,
{
    proof {
        lemma_sp(ind@.len() as nat);
        assert(sp(ind@.len() as nat) =~= ind@);
    }
    match v {
        Json::Null => {
            out.push('n');
            out.push('u');
            out.push('l');
            out.push('l');
            assert(out@ =~= old(out)@ + pp(v@, ind@.len() as nat));
        },
        Json::Bool(b) => {
            if *b {
                out.push('t');
                out.push('r');
                out.push('u');
                out.push('e');
            } else {
                out.push('f');
                out.push('a');
                out.push('l');
                out.push('s');
                out.push('e');
            }
            assert(out@ =~= old(out)@ + pp(v@, ind@.len() as nat));
        },
        Json::Num(t) => {
            crate::text::append_str(out, t.as_str());
            assert(out@ =~= old(out)@ + pp(v@, ind@.len() as nat));
        },
        Json::Str(s) => {
            push_quoted(s.as_str(), out);
            assert(out@ =~= old(out)@ + pp(v@, ind@.len() as nat));
        },
        Json::Arr(items) => {
            if items.len() == 0 {
                out.push('[');
                out.push(']');
                assert(v@->Arr_0.len() == 0);
                assert(out@ =~= old(out)@ + pp(v@, ind@.len() as nat));
            } else {
                out.push('[');
                out.push('\n');
                proof {
                    assert(decreases_to!(*v => v->Arr_0));
                }
                push_arr_body(items, Ghost(v@->Arr_0), ind, out);
                out.push('\n');
                append_chars(out, ind);
                out.push(']');
                assert(out@ =~= old(out)@ + pp(v@, ind@.len() as nat));
            }
        },
        Json::Obj(pairs) => {
            if pairs.len() == 0 {
                out.push('{');
                out.push('}');
                assert(v@->Obj_0.len() == 0);
                assert(out@ =~= old(out)@ + pp(v@, ind@.len() as nat));
            } else {
                out.push('{');
                out.push('\n');
                proof {
                    assert(decreases_to!(*v => v->Obj_0));
                }
                push_obj_body(pairs, Ghost(v@->Obj_0), ind, out);
                out.push('\n');
                append_chars(out, ind);
                out.push('}');
                assert(out@ =~= old(out)@ + pp(v@, ind@.len() as nat));
            }
        },
    }
}

/// Appends the element lines of a non-empty array, indented one level
/// further than `ind`.
#[verifier::loop_isolation(false)]
#[verifier::rlimit(60)]
fn push_arr_body(items: &Vec<Json>, ivs: Ghost<Seq<JsonV>>, ind: &Vec<char>, out: &mut Vec<char>)
    requires
        all_spaces(ind@),
        items@.len() > 0,
        ivs@.len() == items@.len(),
        forall|i: int| 0 <= i < items@.len() ==> ivs@[i] == #[trigger] items@[i]@,
    ensures
        final(out)@ == old(out)@ + pp_items(ivs@, 0, (ind@.len() + 2) as nat),
    decreases *items, 1int,
{
    let mut ind2: Vec<char> = Vec::new();
    append_chars(&mut ind2, ind);
    ind2.push(' ');
    ind2.push(' ');
    let ghost indn: nat = ind2@.len() as nat;
    proof {
        assert(all_spaces(ind2@));
        lemma_sp(indn);
        assert(ind2@ =~= sp(indn));
    }
    let n = items.len();
    let mut k: usize = 0;
    while k < n
        invariant
            k <= n,
            out@ == old(out)@ + (if k == 0 {
                Seq::<char>::empty()
            } else if k < n {
                pp_items(ivs@.subrange(0, k as int), 0, indn) + seq![',', '\n']
            } else {
                pp_items(ivs@, 0, indn)
            }),
        decreases n - k,
    {
        append_chars(out, &ind2);
        proof {
            assert(decreases_to!(*items => items@[k as int]));
        }
        push_json(&items[k], &ind2, out);
        proof {
            lemma_pp_items_snoc(ivs@, k as int, indn);
        }
        if k + 1 < n {
            out.push(',');
            out.push('\n');
            assert(out@ =~= old(out)@ + (pp_items(ivs@.subrange(0, k + 1), 0, indn) + seq![
                ',',
                '\n',
            ]));
        } else {
            proof {
                assert(ivs@.subrange(0, n as int) =~= ivs@);
            }
            assert(out@ =~= old(out)@ + pp_items(ivs@, 0, indn));
        }
        k = k + 1;
    }
}

/// Appends the member lines of a non-empty object, indented one level
/// further than `ind`.
#[verifier::loop_isolation(false)]
#[verifier::rlimit(60)]
fn push_obj_body(
    pairs: &Vec<(String, Json)>,
    pvs: Ghost<Seq<(Seq<char>, JsonV)>>,
    ind: &Vec<char>,
    out: &mut Vec<char>,
)
    requires
        all_spaces(ind@),
        pairs@.len() > 0,
        pvs@.len() == pairs@.len(),
        forall|i: int|
            0 <= i < pairs@.len() ==> pvs@[i] == (#[trigger] pairs@[i].0@, pairs@[i].1@),
    ensures
        final(out)@ == old(out)@ + pp_members(pvs@, 0, (ind@.len() + 2) as nat),
    decreases *pairs, 1int,
{
    let mut ind2: Vec<char> = Vec::new();
    append_chars(&mut ind2, ind);
    ind2.push(' ');
    ind2.push(' ');
    let ghost indn: nat = ind2@.len() as nat;
    proof {
        assert(all_spaces(ind2@));
        lemma_sp(indn);
        assert(ind2@ =~= sp(indn));
    }
    let n = pairs.len();
    let mut k: usize = 0;
    while k < n
        invariant
            k <= n,
            out@ == old(out)@ + (if k == 0 {
                Seq::<char>::empty()
            } else if k < n {
                pp_members(pvs@.subrange(0, k as int), 0, indn) + seq![',', '\n']
            } else {
                pp_members(pvs@, 0, indn)
            }),
        decreases n - k,
    {
        append_chars(out, &ind2);
        push_quoted(pairs[k].0.as_str(), out);
        out.push(':');
        out.push(' ');
        proof {
            assert(decreases_to!(*pairs => pairs@[k as int].1));
        }
        push_json(&pairs[k].1, &ind2, out);
        proof {
            lemma_pp_members_snoc(pvs@, k as int, indn);
            assert(pvs@[k as int].0 == pairs@[k as int].0@);
        }
        if k + 1 < n {
            out.push(',');
            out.push('\n');
            assert(out@ =~= old(out)@ + (pp_members(pvs@.subrange(0, k + 1), 0, indn) + seq![
                ',',
                '\n',
            ]));
        } else {
            proof {
                assert(pvs@.subrange(0, n as int) =~= pvs@);
            }
            assert(out@ =~= old(out)@ + pp_members(pvs@, 0, indn));
        }
        k = k + 1;
    }
}

/// Extending the printed prefix by one element appends that element's line.
proof fn lemma_pp_items_snoc(items: Seq<JsonV>, k: int, ind: nat)
    requires
        0 <= k < items.len(),
    ensures
        k == 0 ==> pp_items(items.subrange(0, 1), 0, ind) == sp(ind) + pp(items[0], ind),
        k > 0 ==> pp_items(items.subrange(0, k + 1), 0, ind) == pp_items(
            items.subrange(0, k),
            0,
            ind,
        ) + seq![',', '\n'] + (sp(ind) + pp(items[k], ind)),
    decreases k,
{
    if k == 0 {
        let s = items.subrange(0, 1);
        assert(s.len() == 1);
        assert(s[0] == items[0]);
    } else {
        lemma_pp_items_prefix_step(items.subrange(0, k + 1), items.subrange(0, k), 0, ind);
    }
}

/// On two prefixes that differ by one trailing element, the longer one's
/// body text is the shorter one's body text, a separator, and the last line.
proof fn lemma_pp_items_prefix_step(a: Seq<JsonV>, b: Seq<JsonV>, i: int, ind: nat)
    requires
        a.len() == b.len() + 1,
        b.len() >= 1,
        0 <= i < b.len(),
        forall|j: int| 0 <= j < b.len() ==> a[j] == #[trigger] b[j],
    ensures
        pp_items(a, i, ind) == pp_items(b, i, ind) + seq![',', '\n'] + (sp(ind) + pp(
            a[a.len() - 1],
            ind,
        )),
    decreases b.len() - i,
{
    if i + 1 < b.len() {
        lemma_pp_items_prefix_step(a, b, i + 1, ind);
    } else {
        assert(pp_items(a, i, ind) == sp(ind) + pp(a[i], ind) + seq![',', '\n'] + pp_items(
            a,
            i + 1,
            ind,
        ));
        assert(pp_items(b, i, ind) == sp(ind) + pp(b[i], ind));
    }
}

/// Extending the printed prefix by one member appends that member's line.
proof fn lemma_pp_members_snoc(pairs: Seq<(Seq<char>, JsonV)>, k: int, ind: nat)
    requires
        0 <= k < pairs.len(),
    ensures
        k == 0 ==> pp_members(pairs.subrange(0, 1), 0, ind) == sp(ind) + pp_member(
            pairs[0],
            ind,
        ),
        k > 0 ==> pp_members(pairs.subrange(0, k + 1), 0, ind) == pp_members(
            pairs.subrange(0, k),
            0,
            ind,
        ) + seq![',', '\n'] + (sp(ind) + pp_member(pairs[k], ind)),
    decreases k,
{
    if k == 0 {
        let s = pairs.subrange(0, 1);
        assert(s.len() == 1);
        assert(s[0] == pairs[0]);
    } else {
        lemma_pp_members_prefix_step(pairs.subrange(0, k + 1), pairs.subrange(0, k), 0, ind);
    }
}

proof fn lemma_pp_members_prefix_step(
    a: Seq<(Seq<char>, JsonV)>,
    b: Seq<(Seq<char>, JsonV)>,
    i: int,
    ind: nat,
)
    requires
        a.len() == b.len() + 1,
        b.len() >= 1,
        0 <= i < b.len(),
        forall|j: int| 0 <= j < b.len() ==> a[j] == #[trigger] b[j],
    ensures
        pp_members(a, i, ind) == pp_members(b, i, ind) + seq![',', '\n'] + (sp(ind) + pp_member(
            a[a.len() - 1],
            ind,
        )),
    decreases b.len() - i,
{
    if i + 1 < b.len() {
        lemma_pp_members_prefix_step(a, b, i + 1, ind);
    } else {
        assert(pp_members(a, i, ind) == sp(ind) + pp_member(a[i], ind) + seq![',', '\n']
            + pp_members(a, i + 1, ind));
        assert(pp_members(b, i, ind) == sp(ind) + pp_member(b[i], ind));
    }
}

/// The canonical pretty-printed JSON text of a value.
pub fn json_to_string(v: &Json) -> (r: String)
    ensures
        r@ == pp(v@, 0),
{
    let mut out: Vec<char> = Vec::new();
    let ind: Vec<char> = Vec::new();
    push_json(v, &ind, &mut out);
    proof {
        assert(out@ =~= pp(v@, 0));
    }
    crate::text::chars_to_string(out)
}

} // verus!
