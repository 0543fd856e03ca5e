//! Command matching, filename sanitizing, and message-segment picking.
//!
//! `parse_command` decides whether a message text triggers the card-reading
//! flow: the text is trimmed, an optional configured prefix is stripped
//! (longest prefix first; with prefixes configured, no matching prefix means
//! no trigger), and the remainder must equal a configured command.
//! `sanitize` derives a safe output filename from a card name. Neither
//! touches the card data itself.

use vstd::prelude::*;

use vstd::string::StrSliceExecFns;
use vstd::string::StringExecFns;

use crate::card_json::str_views;
use crate::text::chars_to_string;

verus! {

/// What `char::is_whitespace` holds of a character: the Unicode
/// `White_Space` property, a function of the character alone.
pub uninterp spec fn unicode_white(c: char) -> bool;

/// Relies on `char::is_whitespace`: true exactly for characters with the
/// Unicode `White_Space` property.
pub assume_specification[ char::is_whitespace ](c: char) -> (r: bool)
    ensures
        r == unicode_white(c),
;

/// The first position at or after `i` holding a non-whitespace character.
pub open spec fn skip_white(s: Seq<char>, i: int) -> int
    decreases s.len() - i,
{
    if 0 <= i < s.len() && unicode_white(s[i]) {
        skip_white(s, i + 1)
    } else {
        i
    }
}

/// The position just after the last non-whitespace character before `i`.
pub open spec fn rskip_white(s: Seq<char>, i: int) -> int
    decreases i,
{
    if 0 < i <= s.len() && unicode_white(s[i - 1]) {
        rskip_white(s, i - 1)
    } else {
        i
    }
}

/// `s` with leading and trailing whitespace removed.
pub open spec fn trimmed(s: Seq<char>) -> Seq<char> {
    let lo = skip_white(s, 0);
    if lo == s.len() {
        Seq::empty()
    } else {
        s.subrange(lo, rskip_white(s, s.len() as int))
    }
}

/// `skip_white` stays within bounds and lands on a non-space.
pub proof fn lemma_skip_white(s: Seq<char>, i: int)
    requires
        0 <= i <= s.len(),
    ensures
        i <= skip_white(s, i) <= s.len(),
        skip_white(s, i) < s.len() ==> !unicode_white(s[skip_white(s, i)]),
        forall|k: int| i <= k < skip_white(s, i) ==> unicode_white(#[trigger] s[k]),
    decreases s.len() - i,
{
    if 0 <= i < s.len() && unicode_white(s[i]) {
        lemma_skip_white(s, i + 1);
    }
}

/// Whether `p` is a prefix of `t`.
pub open spec fn is_prefix(p: Seq<char>, t: Seq<char>) -> bool {
    p.len() <= t.len() && t.subrange(0, p.len() as int) == p
}

/// Inserts a prefix into a list sorted by descending length, after any
/// prefixes of equal length.
pub open spec fn insert_pref(e: Seq<char>, s: Seq<Seq<char>>) -> Seq<Seq<char>>
    decreases s.len(),
{
    if s.len() == 0 {
        seq![e]
    } else if e.len() > s[0].len() {
        seq![e] + s
    } else {
        seq![s[0]] + insert_pref(e, s.drop_first())
    }
}

/// The prefixes sorted by descending length, stably: of the prefixes a text
/// starts with, the longest is found first.
pub open spec fn sort_prefs(s: Seq<Seq<char>>) -> Seq<Seq<char>>
    decreases s.len(),
{
    if s.len() == 0 {
        Seq::empty()
    } else {
        insert_pref(s.last(), sort_prefs(s.drop_last()))
    }
}

/// The first listed prefix (from `i` on) that `t` starts with.
pub open spec fn first_prefix_of(ps: Seq<Seq<char>>, i: int, t: Seq<char>) -> Option<Seq<char>>
    decreases ps.len() - i,
{
    if !(0 <= i < ps.len()) {
        None
    } else if is_prefix(ps[i], t) {
        Some(ps[i])
    } else {
        first_prefix_of(ps, i + 1, t)
    }
}

/// Whether some element of `cs` equals `t`.
pub open spec fn contains_text(cs: Seq<Seq<char>>, t: Seq<char>) -> bool {
    exists|i: int| 0 <= i < cs.len() && cs[i] == t
}

/// Whether `text` triggers the command flow under the given prefixes and
/// commands.
pub open spec fn parse_command_spec(
    text: Seq<char>,
    prefixes: Seq<Seq<char>>,
    commands: Seq<Seq<char>>,
) -> bool {
    let t = trimmed(text);
    if prefixes.len() == 0 {
        contains_text(commands, t)
    } else {
        match first_prefix_of(sort_prefs(prefixes), 0, t) {
            None => false,
            Some(p) => contains_text(
                commands,
                trimmed(t.subrange(p.len() as int, t.len() as int)),
            ),
        }
    }
}

/// The characters of `s[from .. to]`.
fn chars_range(s: &Vec<char>, from: usize, to: usize) -> (r: Vec<char>)
    requires
        from <= to <= s@.len(),
    ensures
        r@ == s@.subrange(from as int, to as int),
{
    let mut out: Vec<char> = Vec::new();
    let mut k: usize = from;
    while k < to
        invariant
            from <= k <= to <= s@.len(),
            out@ == s@.subrange(from as int, k as int),
        decreases to - k,
    {
        out.push(s[k]);
        proof {
            assert(out@ =~= s@.subrange(from as int, k + 1));
        }
        k = k + 1;
    }
    out
}

/// `s` with leading and trailing whitespace removed.
#[verifier::loop_isolation(false)]
fn trim_chars(s: &Vec<char>) -> (r: Vec<char>)
    ensures
        r@ == trimmed(s@),
{
    let n = s.len();
    let mut lo: usize = 0;
    while lo < n && s[lo].is_whitespace()
        invariant
            lo <= n,
            skip_white(s@, 0) == skip_white(s@, lo as int),
        decreases n - lo,
    {
        lo = lo + 1;
    }
    proof {
        assert(skip_white(s@, 0) == lo as int);
        lemma_skip_white(s@, 0);
    }
    if lo == n {
        let out: Vec<char> = Vec::new();
        proof {
            assert(out@ =~= trimmed(s@));
        }
        return out;
    }
    let mut hi: usize = n;
    while hi > lo && s[hi - 1].is_whitespace()
        invariant
            lo < hi <= n || hi == n,
            lo < n,
            !unicode_white(s@[lo as int]),
            rskip_white(s@, n as int) == rskip_white(s@, hi as int),
        decreases hi,
    {
        proof {
            if hi - 1 == lo {
                assert(unicode_white(s@[lo as int]));
            }
        }
        hi = hi - 1;
    }
    proof {
        assert(hi > lo);
        assert(rskip_white(s@, hi as int) == hi as int);
    }
    chars_range(s, lo, hi)
}

/// Whether `v` starts with the characters of `p`.
#[verifier::loop_isolation(false)]
fn starts_with_chars(v: &Vec<char>, p: &Vec<char>) -> (r: bool)
    ensures
        r == is_prefix(p@, v@),
{
    if p.len() > v.len() {
        return false;
    }
    let mut k: usize = 0;
    while k < p.len()
        invariant
            k <= p@.len() <= v@.len(),
            forall|q: int| 0 <= q < k ==> v@[q] == p@[q],
        decreases p@.len() - k,
    {
        if v[k] != p[k] {
            proof {
                assert(v@.subrange(0, p@.len() as int)[k as int] != p@[k as int]);
            }
            return false;
        }
        k = k + 1;
    }
    proof {
        assert(v@.subrange(0, p@.len() as int) =~= p@);
    }
    true
}

/// Whether the characters of `v` equal the text of `s`.
#[verifier::loop_isolation(false)]
fn chars_eq_str(v: &Vec<char>, s: &str) -> (r: bool)
    ensures
        r == (v@ == s@),
{
    let n = s.unicode_len();
    if v.len() != n {
        proof {
            assert(v@ != s@);
        }
        return false;
    }
    let mut k: usize = 0;
    while k < n
        invariant
            n == s@.len() == v@.len(),
            k <= n,
            forall|q: int| 0 <= q < k ==> v@[q] == s@[q],
        decreases n - k,
    {
        if v[k] != s.get_char(k) {
            return false;
        }
        k = k + 1;
    }
    proof {
        assert(v@ =~= s@);
    }
    true
}

/// The prefixes in matching order: sorted by descending byte length, stably.
#[verifier::loop_isolation(false)]
fn sorted_prefs<'a>(prefixes: &'a [String]) -> (r: Vec<&'a String>)
    ensures
        r@.len() == sort_prefs(str_views(prefixes@)).len(),
        forall|i: int|
            0 <= i < r@.len() ==> (#[trigger] r@[i])@ == sort_prefs(str_views(prefixes@))[i],
{
    let ghost pv = str_views(prefixes@);
    let mut out: Vec<&'a String> = Vec::new();
    let mut k: usize = 0;
    proof {
        assert(pv.subrange(0, 0) =~= Seq::<Seq<char>>::empty());
    }
    while k < prefixes.len()
        invariant
            k <= prefixes@.len(),
            pv == str_views(prefixes@),
            out@.len() == sort_prefs(pv.subrange(0, k as int)).len(),
            forall|i: int|
                0 <= i < out@.len() ==> (#[trigger] out@[i])@ == sort_prefs(
                    pv.subrange(0, k as int),
                )[i],
        decreases prefixes@.len() - k,
    {
        let ghost pre = pv.subrange(0, k as int);
        let ghost sorted_pre = sort_prefs(pre);
        let e: &String = &prefixes[k];
        let elen = e.as_str().unicode_len();
        let mut j: usize = 0;
        while j < out.len() && out[j].as_str().unicode_len() >= elen
            invariant
                j <= out@.len(),
                elen == e@.len(),
                forall|q: int| 0 <= q < j ==> ((#[trigger] out@[q])@).len() >= e@.len(),
            decreases out@.len() - j,
        {
            j = j + 1;
        }
        let ghost out_pre = out@;
        out.insert(j, e);
        proof {
            assert(e@ == pv[k as int]);
            assert forall|q: int|
                0 <= q < j implies (#[trigger] sorted_pre[q]).len() >= e@.len() by {
                assert((out_pre[q])@ == sorted_pre[q]);
            }
            if (j as int) < sorted_pre.len() {
                assert((out_pre[j as int])@ == sorted_pre[j as int]);
            }
            lemma_insert_pref_shape(e@, sorted_pre, j as int);
            let shape = sorted_pre.subrange(0, j as int) + seq![e@] + sorted_pre.subrange(
                j as int,
                sorted_pre.len() as int,
            );
            assert forall|i: int|
                0 <= i < out@.len() implies (#[trigger] out@[i])@ == shape[i] by {
                if i < j {
                    assert(out@[i] == out_pre[i]);
                } else if i == j {
                } else {
                    assert(out@[i] == out_pre[i - 1]);
                }
            }
            assert(pv.subrange(0, k + 1).drop_last() =~= pre);
            assert(pv.subrange(0, k + 1).last() == pv[k as int]);
            assert(sort_prefs(pv.subrange(0, k + 1)) == insert_pref(e@, sorted_pre));
        }
        k = k + 1;
    }
    proof {
        assert(pv.subrange(0, prefixes@.len() as int) =~= pv);
    }
    out
}

/// The specified prefix insertion is the list split at the first strictly
/// shorter entry, with the new prefix in between.
proof fn lemma_insert_pref_shape(e: Seq<char>, s: Seq<Seq<char>>, j: int)
    requires
        0 <= j <= s.len(),
        forall|q: int| 0 <= q < j ==> (#[trigger] s[q]).len() >= e.len(),
        j < s.len() ==> s[j].len() < e.len(),
    ensures
        insert_pref(e, s) =~= s.subrange(0, j) + seq![e] + s.subrange(j, s.len() as int),
    decreases s.len(),
{
    if s.len() == 0 {
    } else if e.len() > s[0].len() {
        assert(j == 0);
        assert(insert_pref(e, s) == seq![e] + s);
    } else {
        assert(j >= 1);
        lemma_insert_pref_shape(e, s.drop_first(), j - 1);
        assert(s.drop_first().subrange(0, j - 1) =~= s.subrange(1, j));
        assert(s.drop_first().subrange(j - 1, s.drop_first().len() as int) =~= s.subrange(
            j,
            s.len() as int,
        ));
        assert(insert_pref(e, s) =~= seq![s[0]] + insert_pref(e, s.drop_first()));
    }
}

/// Whether `text` triggers the command flow: trim, strip the longest
/// matching configured prefix (if prefixes are configured, an unmatched
/// prefix means no trigger), trim again, and compare against the commands.
#[verifier::loop_isolation(false)]
pub fn parse_command(text: &str, prefixes: &[String], commands: &[String]) -> (r: bool)
    ensures
        r == parse_command_spec(text@, str_views(prefixes@), str_views(commands@)),
{
    let tv = crate::text::chars_of(text);
    let t = trim_chars(&tv);
    let clean: Vec<char>;
    if prefixes.len() > 0 {
        let sorted = sorted_prefs(prefixes);
        let ghost sp = sort_prefs(str_views(prefixes@));
        let mut i: usize = 0;
        let mut found: Option<usize> = None;
        while i < sorted.len()
            invariant
                i <= sorted@.len(),
                sorted@.len() == sp.len(),
                forall|q: int| 0 <= q < sorted@.len() ==> (#[trigger] sorted@[q])@ == sp[q],
                match found {
                    None => first_prefix_of(sp, 0, t@) == first_prefix_of(sp, i as int, t@),
                    Some(w) => w < sorted@.len() && is_prefix(sp[w as int], t@)
                        && first_prefix_of(sp, 0, t@) == Some(sp[w as int]),
                },
                found is Some ==> i == sorted@.len(),
            decreases sorted@.len() - i,
        {
            let pc = crate::text::chars_of(sorted[i].as_str());
            if starts_with_chars(&t, &pc) {
                found = Some(i);
                break;
            }
            i = i + 1;
        }
        match found {
            None => {
                proof {
                    assert(first_prefix_of(sp, 0, t@) is None);
                }
                return false;
            },
            Some(w) => {
                let plen = sorted[w].as_str().unicode_len();
                let rest = chars_range(&t, plen, t.len());
                clean = trim_chars(&rest);
            },
        }
    } else {
        clean = t;
    }
    let mut k: usize = 0;
    while k < commands.len()
        invariant
            k <= commands@.len(),
            forall|q: int| 0 <= q < k ==> str_views(commands@)[q] != clean@,
        decreases commands@.len() - k,
    {
        if chars_eq_str(&clean, commands[k].as_str()) {
            proof {
                assert(str_views(commands@)[k as int] == clean@);
            }
            return true;
        }
        k = k + 1;
    }
    proof {
        assert(!contains_text(str_views(commands@), clean@));
    }
    false
}

/// The sanitized image of one filename character: path separators and shell
/// metacharacters become underscores.
pub open spec fn sanitize_char(c: char) -> char {
    if c == '/' || c == '\\' || c == ':' || c == '*' || c == '?' || c == '"' || c == '<' || c
        == '>' || c == '|' {
        '_'
    } else {
        c
    }
}

/// The name with every unsafe character replaced.
pub open spec fn sanitized(s: Seq<char>) -> Seq<char> {
    Seq::new(
        s.len(),
        |i: int|
            if 0 <= i < s.len() {
                sanitize_char(s[i])
            } else {
                ' '
            },
    )
}

/// Derives a safe output filename from a card name: each of `/ \ : * ? " <
/// > |` becomes `_`; an empty or all-whitespace result falls back to
/// `character`.
#[verifier::loop_isolation(false)]
pub fn sanitize(name: &str) -> (r: String)
    ensures
        (exists|i: int| 0 <= i < name@.len() && !unicode_white(#[trigger] sanitized(name@)[i]))
            ==> r@ == sanitized(name@),
        (forall|i: int| 0 <= i < name@.len() ==> unicode_white(#[trigger] sanitized(name@)[i]))
            ==> r@ == "character"@,
{
    let n = name.unicode_len();
    let mut out: Vec<char> = Vec::new();
    let mut all_white = true;
    let mut k: usize = 0;
    while k < n
        invariant
            n == name@.len(),
            k <= n,
            out@.len() == k as int,
            forall|q: int| 0 <= q < k ==> out@[q] == sanitized(name@)[q],
            all_white ==> forall|q: int|
                0 <= q < k ==> unicode_white(#[trigger] sanitized(name@)[q]),
            !all_white ==> exists|q: int|
                0 <= q < k && !unicode_white(#[trigger] sanitized(name@)[q]),
        decreases n - k,
    {
        let c = name.get_char(k);
        let s = if c == '/' || c == '\\' || c == ':' || c == '*' || c == '?' || c == '"' || c
            == '<' || c == '>' || c == '|' {
            '_'
        } else {
            c
        };
        proof {
            assert(sanitized(name@)[k as int] == s);
        }
        if !s.is_whitespace() {
            all_white = false;
        }
        out.push(s);
        k = k + 1;
    }
    if all_white {
        String::from_str("character")
    } else {
        proof {
            assert(out@ =~= sanitized(name@));
        }
        chars_to_string(out)
    }
}

/// One incoming message segment, as the card-reading flow sees it: the
/// segment's kind tag, and its image URL when it carries one.
pub struct MsgSegment {
    pub kind: String,
    pub image_url: Option<String>,
}

/// The index of the first image segment that carries a URL.
pub open spec fn first_image_at(segs: Seq<MsgSegment>, i: int) -> Option<int>
    decreases segs.len() - i,
{
    if !(0 <= i < segs.len()) {
        None
    } else if segs[i].kind@ == "image"@ && segs[i].image_url is Some {
        Some(i)
    } else {
        first_image_at(segs, i + 1)
    }
}

/// The URL of the first image segment, if any.
pub fn first_image_url(segs: &Vec<MsgSegment>) -> (r: Option<String>)
    ensures
        match first_image_at(segs@, 0) {
            Some(i) => r matches Some(u) && u@ == segs@[i].image_url->0@,
            None => r is None,
        },
{
    let mut k: usize = 0;
    while k < segs.len()
        invariant
            k <= segs@.len(),
            first_image_at(segs@, 0) == first_image_at(segs@, k as int),
        decreases segs@.len() - k,
    {
        if crate::text::str_eq(segs[k].kind.as_str(), "image") {
            match &segs[k].image_url {
                Some(u) => {
                    return Some(u.clone());
                },
                None => {},
            }
        }
        k = k + 1;
    }
    None
}

} // verus!
