//! The readable-text report renderer.
//!
//! The report is a fixed sequence of sections, each separated by a dashed
//! divider: a header block (name always, then creator, version and tags when
//! non-empty), the description and the first message (always), then only the
//! non-empty or present parts — alternate greetings, personality, scenario,
//! example messages, system prompt, post-history instructions, the depth
//! prompt and regex scripts from the extensions, the world book with its
//! entries sorted by `insertion_order` (stable), and the creator notes as an
//! appendix. The exact text is a specification function; the executable
//! renderer is proved to produce it character for character.

use vstd::prelude::*;

use vstd::string::StrSliceExecFns;
use vstd::string::StringExecFns;

use crate::card::{CardExtensions, CharacterData, DepthPrompt, LoreEntry, RegexScript};
use crate::dec::{dec_int, push_dec_i64, push_dec_u64};
use crate::text::{append_str, chars_to_string};

verus! {

/// The section divider: a blank line of forty dashes.
pub open spec fn sep_block() -> Seq<char> {
    "\n----------------------------------------\n"@
}

/// `texts` joined with `sep`, from element `i` on.
pub open spec fn join_from(texts: Seq<Seq<char>>, i: int, sep: Seq<char>) -> Seq<char>
    decreases texts.len() - i,
{
    if !(0 <= i < texts.len()) {
        Seq::empty()
    } else if i + 1 >= texts.len() {
        texts[i]
    } else {
        texts[i] + sep + join_from(texts, i + 1, sep)
    }
}

/// The header block: the name line always, then creator, version and tags
/// each only when non-empty.
pub open spec fn header_text(c: CharacterData) -> Seq<char> {
    "【角色名称】: "@ + c.name@ + "\n"@ + (if c.creator@.len() > 0 {
        "【创 建 者】: "@ + c.creator@ + "\n"@
    } else {
        Seq::empty()
    }) + (if c.character_version@.len() > 0 {
        "【版    本】: "@ + c.character_version@ + "\n"@
    } else {
        Seq::empty()
    }) + (if c.tags@.len() > 0 {
        "【标    签】: "@ + join_from(crate::card_json::str_views(c.tags@), 0, ", "@) + "\n"@
    } else {
        Seq::empty()
    })
}

/// A divider, a heading, a blank line, and the body.
pub open spec fn titled_block(title: Seq<char>, body: Seq<char>) -> Seq<char> {
    sep_block() + title + "\n\n"@ + body + "\n"@
}

/// The numbered alternate-greeting lines, from greeting `i` on.
pub open spec fn greet_items(v: Seq<Seq<char>>, i: int) -> Seq<char>
    decreases v.len() - i,
{
    if !(0 <= i < v.len()) {
        Seq::empty()
    } else {
        "\n# 备用 "@ + dec_int(i + 1) + "\n"@ + v[i] + "\n"@ + greet_items(v, i + 1)
    }
}

/// The alternate-greetings section, when any greeting exists.
pub open spec fn greetings_text(c: CharacterData) -> Seq<char> {
    if c.alternate_greetings@.len() > 0 {
        sep_block() + "【备用开场白 (Alternate Greetings)】\n"@ + greet_items(
            crate::card_json::str_views(c.alternate_greetings@),
            0,
        )
    } else {
        Seq::empty()
    }
}

/// A block printed only when its body is non-empty.
pub open spec fn optional_block(title: Seq<char>, body: Seq<char>) -> Seq<char> {
    if body.len() > 0 {
        titled_block(title, body)
    } else {
        Seq::empty()
    }
}

/// The depth-prompt section.
pub open spec fn depth_text(d: DepthPrompt) -> Seq<char> {
    sep_block() + "【深度提示词 (Depth Prompt)】\n"@ + "Depth: "@ + dec_int(d.depth as int)
        + " | Role: "@ + d.role@ + "\n\n"@ + d.prompt@ + "\n"@
}

/// One regex-script block.
pub open spec fn script_text(s: RegexScript, i: int) -> Seq<char> {
    "\n## "@ + dec_int(i + 1) + " - "@ + s.script_name@ + " "@ + (if s.disabled {
        "(禁用)"@
    } else {
        "(启用)"@
    }) + "\n"@ + "Regex: "@ + s.find_regex@ + "\n"@ + "Replace:\n"@ + s.replace_string@ + "\n"@
}

/// The regex-script blocks, from script `i` on.
pub open spec fn script_items(v: Seq<RegexScript>, i: int) -> Seq<char>
    decreases v.len() - i,
{
    if !(0 <= i < v.len()) {
        Seq::empty()
    } else {
        script_text(v[i], i) + script_items(v, i + 1)
    }
}

/// The extensions sections: depth prompt, then regex scripts.
pub open spec fn ext_text(x: CardExtensions) -> Seq<char> {
    (match x.depth_prompt {
        None => Seq::empty(),
        Some(d) => depth_text(d),
    }) + (if x.regex_scripts@.len() > 0 {
        sep_block() + "【正则脚本 (Regex Scripts)】\n"@ + script_items(x.regex_scripts@, 0)
    } else {
        Seq::empty()
    })
}

/// Inserts an entry into a sequence sorted by `insertion_order`, after any
/// entries of equal order.
pub open spec fn insert_sorted(e: LoreEntry, s: Seq<LoreEntry>) -> Seq<LoreEntry>
    decreases s.len(),
{
    if s.len() == 0 {
        seq![e]
    } else if e.insertion_order < s[0].insertion_order {
        seq![e] + s
    } else {
        seq![s[0]] + insert_sorted(e, s.drop_first())
    }
}

/// The entries sorted ascending by `insertion_order`, equal orders keeping
/// their source order (insertion sort, later elements inserted after equal
/// ones).
pub open spec fn sort_entries(s: Seq<LoreEntry>) -> Seq<LoreEntry>
    decreases s.len(),
{
    if s.len() == 0 {
        Seq::empty()
    } else {
        insert_sorted(s.last(), sort_entries(s.drop_last()))
    }
}

/// One world-book entry block.
pub open spec fn entry_text(e: LoreEntry) -> Seq<char> {
    "\n>> "@ + (if !e.enabled {
        "[未启用] "@
    } else {
        Seq::empty()
    }) + "Key: ["@ + join_from(crate::card_json::str_views(e.keys@), 0, ", "@) + "]\n"@ + (if
        e.comment@.len() > 0 {
        "注释: "@ + e.comment@ + "\n"@
    } else {
        Seq::empty()
    }) + "内容:\n"@ + e.content@ + "\n"@
}

/// The world-book entry blocks, from entry `i` on.
pub open spec fn entry_items(v: Seq<LoreEntry>, i: int) -> Seq<char>
    decreases v.len() - i,
{
    if !(0 <= i < v.len()) {
        Seq::empty()
    } else {
        entry_text(v[i]) + entry_items(v, i + 1)
    }
}

/// The world-book section, when a book with entries exists: a count header,
/// then the entries in display order.
pub open spec fn book_text(c: CharacterData) -> Seq<char> {
    match c.character_book {
        None => Seq::empty(),
        Some(b) => if b.entries@.len() > 0 {
            sep_block() + "【世界书 / 设定集 (World Info)】 - 共 "@ + dec_int(
                b.entries@.len() as int,
            ) + " 条\n"@ + entry_items(sort_entries(b.entries@), 0)
        } else {
            Seq::empty()
        },
    }
}

/// The report's first half: header, description, first message, greetings,
/// and the conditional plain-text sections.
pub open spec fn front_text(c: CharacterData) -> Seq<char> {
    header_text(c) + titled_block("【角色描述 (Description)】"@, c.description@) + titled_block(
        "【开场白 (First Message)】"@,
        c.first_mes@,
    ) + greetings_text(c) + optional_block("【性格 (Personality)】"@, c.personality@)
        + optional_block("【场景 (Scenario)】"@, c.scenario@) + optional_block(
        "【对话示例 (Example Messages)】"@,
        c.mes_example@,
    ) + optional_block("【系统提示词 (System Prompt)】"@, c.system_prompt@) + optional_block(
        "【历史后提示词 (Post History Instructions)】"@,
        c.post_history_instructions@,
    )
}

/// The report's second half: extensions, world book, creator notes.
pub open spec fn tail_text(c: CharacterData) -> Seq<char> {
    (match c.extensions {
        None => Seq::empty(),
        Some(x) => ext_text(x),
    }) + book_text(c) + optional_block("【作者注释 (Creator Notes)】"@, c.creator_notes@)
}

/// The whole report.
pub open spec fn render_spec(c: CharacterData) -> Seq<char> {
    front_text(c) + tail_text(c)
}

/// Appends `texts[i..]` joined with `sep`.
fn push_join(out: &mut Vec<char>, texts: &Vec<String>, i: usize, sep: &str)
    requires
        i <= texts@.len(),
    ensures
        final(out)@ == old(out)@ + join_from(crate::card_json::str_views(texts@), i as int, sep@),
    decreases texts@.len() - i,
{
    if i < texts.len() {
        append_str(out, texts[i].as_str());
        if i + 1 < texts.len() {
            append_str(out, sep);
            push_join(out, texts, i + 1, sep);
        }
        assert(out@ =~= old(out)@ + join_from(
            crate::card_json::str_views(texts@),
            i as int,
            sep@,
        ));
    } else {
        assert(out@ =~= old(out)@ + join_from(
            crate::card_json::str_views(texts@),
            i as int,
            sep@,
        ));
    }
}

/// Appends the numbered greeting lines from `i` on.
fn push_greets(out: &mut Vec<char>, v: &Vec<String>, i: usize)
    requires
        i <= v@.len(),
    ensures
        final(out)@ == old(out)@ + greet_items(crate::card_json::str_views(v@), i as int),
    decreases v@.len() - i,
{
    if i < v.len() {
        append_str(out, "\n# 备用 ");
        push_dec_u64((i + 1) as u64, out);
        proof {
            assert(dec_int(i + 1) == crate::dec::dec_digits((i + 1) as nat));
        }
        append_str(out, "\n");
        append_str(out, v[i].as_str());
        append_str(out, "\n");
        push_greets(out, v, i + 1);
        assert(out@ =~= old(out)@ + greet_items(crate::card_json::str_views(v@), i as int));
    } else {
        assert(out@ =~= old(out)@ + greet_items(crate::card_json::str_views(v@), i as int));
    }
}

/// Appends the regex-script blocks from `i` on.
fn push_scripts(out: &mut Vec<char>, v: &Vec<RegexScript>, i: usize)
    requires
        i <= v@.len(),
    ensures
        final(out)@ == old(out)@ + script_items(v@, i as int),
    decreases v@.len() - i,
{
    if i < v.len() {
        append_str(out, "\n## ");
        push_dec_u64((i + 1) as u64, out);
        proof {
            assert(dec_int(i + 1) == crate::dec::dec_digits((i + 1) as nat));
        }
        append_str(out, " - ");
        append_str(out, v[i].script_name.as_str());
        append_str(out, " ");
        if v[i].disabled {
            append_str(out, "(禁用)");
        } else {
            append_str(out, "(启用)");
        }
        append_str(out, "\n");
        append_str(out, "Regex: ");
        append_str(out, v[i].find_regex.as_str());
        append_str(out, "\n");
        append_str(out, "Replace:\n");
        append_str(out, v[i].replace_string.as_str());
        append_str(out, "\n");
        push_scripts(out, v, i + 1);
        assert(out@ =~= old(out)@ + script_items(v@, i as int));
    } else {
        assert(out@ =~= old(out)@ + script_items(v@, i as int));
    }
}

/// The entries of `v` in display order, as references.
#[verifier::loop_isolation(false)]
fn sorted_refs<'a>(v: &'a Vec<LoreEntry>) -> (r: Vec<&'a LoreEntry>)
    ensures
        r@.len() == sort_entries(v@).len(),
        forall|i: int| 0 <= i < r@.len() ==> *(#[trigger] r@[i]) == sort_entries(v@)[i],
{
    let mut out: Vec<&'a LoreEntry> = Vec::new();
    let mut k: usize = 0;
    proof {
        assert(v@.subrange(0, 0) =~= Seq::<LoreEntry>::empty());
    }
    while k < v.len()
        invariant
            k <= v@.len(),
            out@.len() == sort_entries(v@.subrange(0, k as int)).len(),
            forall|i: int|
                0 <= i < out@.len() ==> *(#[trigger] out@[i]) == sort_entries(
                    v@.subrange(0, k as int),
                )[i],
        decreases v@.len() - k,
    {
        let ghost pre = v@.subrange(0, k as int);
        let ghost sorted_pre = sort_entries(pre);
        // find the insertion point: after all entries of order <= the new one
        let mut j: usize = 0;
        while j < out.len() && out[j].insertion_order <= v[k].insertion_order
            invariant
                j <= out@.len(),
                forall|q: int|
                    0 <= q < j ==> (#[trigger] out@[q]).insertion_order <= v@[k as int].insertion_order,
            decreases out@.len() - j,
        {
            j = j + 1;
        }
        let ghost e = v@[k as int];
        let ghost out_pre = out@;
        out.insert(j, &v[k]);
        proof {
            assert forall|q: int|
                0 <= q < j implies (#[trigger] sorted_pre[q]).insertion_order
                <= e.insertion_order by {
                assert(*out_pre[q] == sorted_pre[q]);
            }
            if (j as int) < sorted_pre.len() {
                assert(*out_pre[j as int] == sorted_pre[j as int]);
            }
            lemma_insert_sorted_shape(e, sorted_pre, j as int);
            let shape = sorted_pre.subrange(0, j as int) + seq![e] + sorted_pre.subrange(
                j as int,
                sorted_pre.len() as int,
            );
            assert forall|i: int| 0 <= i < out@.len() implies *(#[trigger] out@[i]) == shape[i] by {
                if i < j {
                    assert(out@[i] == out_pre[i]);
                } else if i == j {
                } else {
                    assert(out@[i] == out_pre[i - 1]);
                }
            }
            assert(v@.subrange(0, k + 1).drop_last() =~= pre);
            assert(v@.subrange(0, k + 1).last() == v@[k as int]);
            assert(sort_entries(v@.subrange(0, k + 1)) == insert_sorted(e, sorted_pre));
        }
        k = k + 1;
    }
    proof {
        assert(v@.subrange(0, v@.len() as int) =~= v@);
    }
    out
}

/// The specified insertion is the sequence split at the first greater order,
/// with the new entry in between.
proof fn lemma_insert_sorted_shape(e: LoreEntry, s: Seq<LoreEntry>, j: int)
    requires
        0 <= j <= s.len(),
        forall|q: int| 0 <= q < j ==> (#[trigger] s[q]).insertion_order <= e.insertion_order,
        j < s.len() ==> s[j].insertion_order > e.insertion_order,
    ensures
        insert_sorted(e, s) =~= s.subrange(0, j) + seq![e] + s.subrange(j, s.len() as int),
    decreases s.len(),
{
    if s.len() == 0 {
    } else if e.insertion_order < s[0].insertion_order {
        assert(j == 0);
        assert(insert_sorted(e, s) == seq![e] + s);
    } else {
        assert(j >= 1);
        lemma_insert_sorted_shape(e, s.drop_first(), j - 1);
        assert(s.drop_first().subrange(0, j - 1) =~= s.subrange(1, j));
        assert(s.drop_first().subrange(j - 1, s.drop_first().len() as int) =~= s.subrange(
            j,
            s.len() as int,
        ));
        assert(insert_sorted(e, s) =~= seq![s[0]] + insert_sorted(e, s.drop_first()));
    }
}

/// Appends the world-book entry blocks from `i` on, reading the entries
/// through the sorted reference list.
fn push_entries(out: &mut Vec<char>, v: &Vec<&LoreEntry>, i: usize, Ghost(sv): Ghost<Seq<LoreEntry>>)
    requires
        i <= v@.len(),
        v@.len() == sv.len(),
        forall|q: int| 0 <= q < v@.len() ==> *(#[trigger] v@[q]) == sv[q],
    ensures
        final(out)@ == old(out)@ + entry_items(sv, i as int),
    decreases v@.len() - i,
{
    if i < v.len() {
        let e: &LoreEntry = v[i];
        append_str(out, "\n>> ");
        if !e.enabled {
            append_str(out, "[未启用] ");
        }
        append_str(out, "Key: [");
        push_join(out, &e.keys, 0, ", ");
        append_str(out, "]\n");
        if e.comment.unicode_len() > 0 {
            append_str(out, "注释: ");
            append_str(out, e.comment.as_str());
            append_str(out, "\n");
        }
        append_str(out, "内容:\n");
        append_str(out, e.content.as_str());
        append_str(out, "\n");
        push_entries(out, v, i + 1, Ghost(sv));
        assert(out@ =~= old(out)@ + entry_items(sv, i as int));
    } else {
        assert(out@ =~= old(out)@ + entry_items(sv, i as int));
    }
}

/// Appends a divider, a heading, a blank line, and the body.
fn push_titled(out: &mut Vec<char>, title: &str, body: &str)
    ensures
        final(out)@ == old(out)@ + titled_block(title@, body@),
{
    append_str(out, "\n----------------------------------------\n");
    append_str(out, title);
    append_str(out, "\n\n");
    append_str(out, body);
    append_str(out, "\n");
    assert(out@ =~= old(out)@ + titled_block(title@, body@));
}

/// Appends the header block.
fn push_header(card: &CharacterData, out: &mut Vec<char>)
    ensures
        final(out)@ == old(out)@ + header_text(*card),
{
    let ghost p1 = "【角色名称】: "@ + card.name@ + "\n"@;
    let ghost p2 = if card.creator@.len() > 0 {
        "【创 建 者】: "@ + card.creator@ + "\n"@
    } else {
        Seq::<char>::empty()
    };
    let ghost p3 = if card.character_version@.len() > 0 {
        "【版    本】: "@ + card.character_version@ + "\n"@
    } else {
        Seq::<char>::empty()
    };
    let ghost p4 = if card.tags@.len() > 0 {
        "【标    签】: "@ + join_from(crate::card_json::str_views(card.tags@), 0, ", "@) + "\n"@
    } else {
        Seq::<char>::empty()
    };
    append_str(out, "【角色名称】: ");
    append_str(out, card.name.as_str());
    append_str(out, "\n");
    assert(out@ =~= old(out)@ + p1);
    let ghost t1 = out@;
    if card.creator.unicode_len() > 0 {
        append_str(out, "【创 建 者】: ");
        append_str(out, card.creator.as_str());
        append_str(out, "\n");
    }
    assert(out@ =~= t1 + p2);
    let ghost t2 = out@;
    if card.character_version.unicode_len() > 0 {
        append_str(out, "【版    本】: ");
        append_str(out, card.character_version.as_str());
        append_str(out, "\n");
    }
    assert(out@ =~= t2 + p3);
    let ghost t3 = out@;
    if card.tags.len() > 0 {
        append_str(out, "【标    签】: ");
        push_join(out, &card.tags, 0, ", ");
        append_str(out, "\n");
    }
    assert(out@ =~= t3 + p4);
    proof {
        vstd::seq_lib::lemma_concat_associative(old(out)@, p1, p2);
        vstd::seq_lib::lemma_concat_associative(old(out)@, p1 + p2, p3);
        vstd::seq_lib::lemma_concat_associative(old(out)@, p1 + p2 + p3, p4);
        assert(header_text(*card) == p1 + p2 + p3 + p4);
    }
}

/// Appends a block only when its body is non-empty.
fn push_optional(out: &mut Vec<char>, title: &str, body: &String)
    ensures
        final(out)@ == old(out)@ + optional_block(title@, body@),
{
    if body.unicode_len() > 0 {
        push_titled(out, title, body.as_str());
    } else {
        assert(out@ =~= old(out)@ + optional_block(title@, body@));
    }
}

/// Appends the alternate-greetings section.
fn push_greetings(card: &CharacterData, out: &mut Vec<char>)
    ensures
        final(out)@ == old(out)@ + greetings_text(*card),
{
    if card.alternate_greetings.len() > 0 {
        append_str(out, "\n----------------------------------------\n");
        append_str(out, "【备用开场白 (Alternate Greetings)】\n");
        push_greets(out, &card.alternate_greetings, 0);
        assert(out@ =~= old(out)@ + greetings_text(*card));
    } else {
        assert(out@ =~= old(out)@ + greetings_text(*card));
    }
}

/// Appends the extensions sections.
fn push_ext(card: &CharacterData, out: &mut Vec<char>)
    ensures
        final(out)@ == old(out)@ + (match card.extensions {
            None => Seq::<char>::empty(),
            Some(x) => ext_text(x),
        }),
{
    let ghost base = old(out)@;
    match &card.extensions {
        None => {
            assert(out@ =~= base + Seq::<char>::empty());
        },
        Some(x) => {
            match &x.depth_prompt {
                None => {},
                Some(d) => {
                    append_str(out, "\n----------------------------------------\n");
                    append_str(out, "【深度提示词 (Depth Prompt)】\n");
                    append_str(out, "Depth: ");
                    push_dec_i64(d.depth as i64, out);
                    append_str(out, " | Role: ");
                    append_str(out, d.role.as_str());
                    append_str(out, "\n\n");
                    append_str(out, d.prompt.as_str());
                    append_str(out, "\n");
                    assert(out@ =~= base + depth_text(*d));
                },
            }
            if x.regex_scripts.len() > 0 {
                append_str(out, "\n----------------------------------------\n");
                append_str(out, "【正则脚本 (Regex Scripts)】\n");
                push_scripts(out, &x.regex_scripts, 0);
            }
            assert(out@ =~= base + ext_text(*x));
        },
    }
}

/// Appends the world-book section.
fn push_book(card: &CharacterData, out: &mut Vec<char>)
    ensures
        final(out)@ == old(out)@ + book_text(*card),
{
    let ghost base = old(out)@;
    match &card.character_book {
        None => {
            assert(out@ =~= base + book_text(*card));
        },
        Some(b) => {
            if b.entries.len() > 0 {
                append_str(out, "\n----------------------------------------\n");
                append_str(out, "【世界书 / 设定集 (World Info)】 - 共 ");
                push_dec_u64(b.entries.len() as u64, out);
                proof {
                    assert(dec_int(b.entries@.len() as int) == crate::dec::dec_digits(
                        b.entries@.len(),
                    ));
                }
                append_str(out, " 条\n");
                let sorted = sorted_refs(&b.entries);
                push_entries(out, &sorted, 0, Ghost(sort_entries(b.entries@)));
            }
            assert(out@ =~= base + book_text(*card));
        },
    }
}

/// Renders the readable report of a card.
pub fn format_readable_text(card: &CharacterData) -> (r: String)
    ensures
        r@ == render_spec(*card),
{
    let mut out: Vec<char> = Vec::new();
    push_header(card, &mut out);
    push_titled(&mut out, "【角色描述 (Description)】", card.description.as_str());
    push_titled(&mut out, "【开场白 (First Message)】", card.first_mes.as_str());
    push_greetings(card, &mut out);
    push_optional(&mut out, "【性格 (Personality)】", &card.personality);
    push_optional(&mut out, "【场景 (Scenario)】", &card.scenario);
    push_optional(&mut out, "【对话示例 (Example Messages)】", &card.mes_example);
    push_optional(&mut out, "【系统提示词 (System Prompt)】", &card.system_prompt);
    push_optional(
        &mut out,
        "【历史后提示词 (Post History Instructions)】",
        &card.post_history_instructions,
    );
    push_ext(card, &mut out);
    push_book(card, &mut out);
    push_optional(&mut out, "【作者注释 (Creator Notes)】", &card.creator_notes);
    proof {
        let c = *card;
        let b1 = header_text(c);
        let b2 = titled_block("【角色描述 (Description)】"@, c.description@);
        let b3 = titled_block("【开场白 (First Message)】"@, c.first_mes@);
        let b4 = greetings_text(c);
        let b5 = optional_block("【性格 (Personality)】"@, c.personality@);
        let b6 = optional_block("【场景 (Scenario)】"@, c.scenario@);
        let b7 = optional_block("【对话示例 (Example Messages)】"@, c.mes_example@);
        let b8 = optional_block("【系统提示词 (System Prompt)】"@, c.system_prompt@);
        let b9 = optional_block(
            "【历史后提示词 (Post History Instructions)】"@,
            c.post_history_instructions@,
        );
        let b10 = match c.extensions {
            None => Seq::<char>::empty(),
            Some(x) => ext_text(x),
        };
        let b11 = book_text(c);
        let b12 = optional_block("【作者注释 (Creator Notes)】"@, c.creator_notes@);
        let t0 = Seq::<char>::empty();
        assert(t0 + b1 =~= b1);
        vstd::seq_lib::lemma_concat_associative(b1, b2, b3);
        vstd::seq_lib::lemma_concat_associative(b1 + b2, b3, b4);
        vstd::seq_lib::lemma_concat_associative(b1 + b2 + b3, b4, b5);
        vstd::seq_lib::lemma_concat_associative(b1 + b2 + b3 + b4, b5, b6);
        vstd::seq_lib::lemma_concat_associative(b1 + b2 + b3 + b4 + b5, b6, b7);
        vstd::seq_lib::lemma_concat_associative(b1 + b2 + b3 + b4 + b5 + b6, b7, b8);
        vstd::seq_lib::lemma_concat_associative(b1 + b2 + b3 + b4 + b5 + b6 + b7, b8, b9);
        vstd::seq_lib::lemma_concat_associative(b1 + b2 + b3 + b4 + b5 + b6 + b7 + b8, b9, b10);
        vstd::seq_lib::lemma_concat_associative(
            b1 + b2 + b3 + b4 + b5 + b6 + b7 + b8 + b9,
            b10,
            b11,
        );
        vstd::seq_lib::lemma_concat_associative(
            b1 + b2 + b3 + b4 + b5 + b6 + b7 + b8 + b9 + b10,
            b11,
            b12,
        );
        assert(out@ == render_spec(c));
    }
    chars_to_string(out)
}

} // verus!
