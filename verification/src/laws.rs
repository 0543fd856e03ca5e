//! Properties of the report renderer, stated and proved once for all cards.

use vstd::prelude::*;

use crate::card::{CharacterData, LoreEntry};
use crate::render::{
    book_text, front_text, greetings_text, header_text, insert_sorted, render_spec, sort_entries,
    tail_text, titled_block,
};

verus! {

/// Whether the entries appear in ascending `insertion_order`.
pub open spec fn sorted_by_order(s: Seq<LoreEntry>) -> bool {
    forall|i: int, j: int|
        0 <= i <= j < s.len() ==> (#[trigger] s[i]).insertion_order <= (
        #[trigger] s[j]).insertion_order
}

/// The subsequence of entries whose `insertion_order` is `k`, in source
/// order.
pub open spec fn with_order(s: Seq<LoreEntry>, k: int) -> Seq<LoreEntry>
    decreases s.len(),
{
    if s.len() == 0 {
        Seq::empty()
    } else {
        (if s[0].insertion_order == k {
            seq![s[0]]
        } else {
            Seq::empty()
        }) + with_order(s.drop_first(), k)
    }
}

/// Picking one order value distributes over concatenation.
proof fn lemma_with_order_add(a: Seq<LoreEntry>, b: Seq<LoreEntry>, k: int)
    ensures
        with_order(a + b, k) == with_order(a, k) + with_order(b, k),
    decreases a.len(),
{
    if a.len() == 0 {
        assert(a + b =~= b);
        assert(with_order(a, k) + with_order(b, k) =~= with_order(b, k));
    } else {
        lemma_with_order_add(a.drop_first(), b, k);
        assert((a + b).drop_first() =~= a.drop_first() + b);
        assert((a + b)[0] == a[0]);
        assert((if a[0].insertion_order == k {
            seq![a[0]]
        } else {
            Seq::<LoreEntry>::empty()
        }) + (with_order(a.drop_first(), k) + with_order(b, k)) =~= with_order(a, k)
            + with_order(b, k));
    }
}

/// A sequence with no entry of order `k` contributes nothing.
proof fn lemma_with_order_absent(s: Seq<LoreEntry>, k: int)
    requires
        forall|i: int| 0 <= i < s.len() ==> (#[trigger] s[i]).insertion_order != k,
    ensures
        with_order(s, k) == Seq::<LoreEntry>::empty(),
    decreases s.len(),
{
    if s.len() > 0 {
        assert(forall|i: int|
            0 <= i < s.drop_first().len() ==> (#[trigger] s.drop_first()[i]).insertion_order
                != k);
        lemma_with_order_absent(s.drop_first(), k);
        assert(with_order(s, k) =~= Seq::<LoreEntry>::empty());
    }
}

/// The first position whose order exceeds `e`'s, scanning from `i`.
spec fn first_gt(s: Seq<LoreEntry>, e: LoreEntry, i: int) -> int
    decreases s.len() - i,
{
    if 0 <= i < s.len() && s[i].insertion_order <= e.insertion_order {
        first_gt(s, e, i + 1)
    } else {
        i
    }
}

proof fn lemma_first_gt(s: Seq<LoreEntry>, e: LoreEntry, i: int)
    requires
        0 <= i <= s.len(),
    ensures
        i <= first_gt(s, e, i) <= s.len(),
        first_gt(s, e, i) < s.len() ==> s[first_gt(s, e, i)].insertion_order
            > e.insertion_order,
        forall|q: int|
            i <= q < first_gt(s, e, i) ==> (#[trigger] s[q]).insertion_order
                <= e.insertion_order,
    decreases s.len() - i,
{
    if 0 <= i < s.len() && s[i].insertion_order <= e.insertion_order {
        lemma_first_gt(s, e, i + 1);
    }
}

/// Inserting splits the sequence at the first greater order.
proof fn lemma_insert_split(e: LoreEntry, s: Seq<LoreEntry>)
    ensures
        ({
            let j = first_gt(s, e, 0);
            insert_sorted(e, s) =~= s.subrange(0, j) + seq![e] + s.subrange(j, s.len() as int)
        }),
    decreases s.len(),
{
    lemma_first_gt(s, e, 0);
    let j = first_gt(s, e, 0);
    if s.len() == 0 {
    } else if e.insertion_order < s[0].insertion_order {
        assert(j == 0);
    } else {
        lemma_insert_split(e, s.drop_first());
        assert(first_gt(s, e, 0) == first_gt(s, e, 1));
        lemma_first_gt(s.drop_first(), e, 0);
        lemma_first_gt_shift(s, e);
        let j2 = first_gt(s.drop_first(), e, 0);
        assert(j == j2 + 1);
        assert(s.drop_first().subrange(0, j2) =~= s.subrange(1, j));
        assert(s.drop_first().subrange(j2, s.drop_first().len() as int) =~= s.subrange(
            j,
            s.len() as int,
        ));
        assert(insert_sorted(e, s) =~= seq![s[0]] + insert_sorted(e, s.drop_first()));
        assert(insert_sorted(e, s) =~= s.subrange(0, j) + seq![e] + s.subrange(
            j,
            s.len() as int,
        ));
    }
}

/// Dropping the first element shifts the split point by one.
proof fn lemma_first_gt_shift(s: Seq<LoreEntry>, e: LoreEntry)
    requires
        s.len() > 0,
        s[0].insertion_order <= e.insertion_order,
    ensures
        first_gt(s, e, 0) == first_gt(s.drop_first(), e, 0) + 1,
    decreases s.len(),
{
    lemma_first_gt_from(s, e, 1);
}

/// Scanning `s` from `i + 1` is scanning its tail from `i`.
proof fn lemma_first_gt_from(s: Seq<LoreEntry>, e: LoreEntry, i: int)
    requires
        1 <= i <= s.len(),
    ensures
        first_gt(s, e, i) == first_gt(s.drop_first(), e, i - 1) + 1,
    decreases s.len() - i,
{
    if i < s.len() {
        assert(s.drop_first()[i - 1] == s[i]);
        if s[i].insertion_order <= e.insertion_order {
            lemma_first_gt_from(s, e, i + 1);
        }
    }
}

/// Inserting keeps the sequence sorted and appends the entry after its
/// equals.
proof fn lemma_insert_props(e: LoreEntry, s: Seq<LoreEntry>, k: int)
    requires
        sorted_by_order(s),
    ensures
        sorted_by_order(insert_sorted(e, s)),
        insert_sorted(e, s).len() == s.len() + 1,
        with_order(insert_sorted(e, s), k) == (if e.insertion_order == k {
            with_order(s, k).push(e)
        } else {
            with_order(s, k)
        }),
{
    lemma_first_gt(s, e, 0);
    lemma_insert_split(e, s);
    let j = first_gt(s, e, 0);
    let a = s.subrange(0, j);
    let b = s.subrange(j, s.len() as int);
    let r = insert_sorted(e, s);
    assert(r =~= a + seq![e] + b);
    // sortedness, from the split shape
    assert forall|x: int, y: int|
        0 <= x <= y < r.len() implies (#[trigger] r[x]).insertion_order <= (
        #[trigger] r[y]).insertion_order by {
        if x < j {
            assert(r[x] == s[x]);
        } else if x == j {
            assert(r[x] == e);
        } else {
            assert(r[x] == s[x - 1]);
        }
        if y < j {
            assert(r[y] == s[y]);
        } else if y == j {
            assert(r[y] == e);
        } else {
            assert(r[y] == s[y - 1]);
        }
    }
    // the picked subsequences, from distribution over the split
    lemma_with_order_add(a + seq![e], b, k);
    lemma_with_order_add(a, seq![e], k);
    lemma_with_order_add(a, b, k);
    assert(s =~= a + b);
    assert(seq![e].drop_first() =~= Seq::<LoreEntry>::empty());
    assert(with_order(Seq::<LoreEntry>::empty(), k) == Seq::<LoreEntry>::empty());
    assert(with_order(seq![e], k) =~= (if e.insertion_order == k {
        seq![e]
    } else {
        Seq::<LoreEntry>::empty()
    }));
    if e.insertion_order == k {
        assert(forall|i: int|
            0 <= i < b.len() ==> (#[trigger] b[i]).insertion_order > e.insertion_order);
        lemma_with_order_absent(b, k);
        assert(with_order(r, k) =~= with_order(s, k).push(e));
    } else {
        assert(with_order(r, k) =~= with_order(s, k));
    }
}

/// The display order of world-book entries: sorting by `insertion_order` is
/// ascending and stable — entries of equal order keep their source order,
/// and nothing is added or lost.
pub proof fn lemma_sort_entries_stable(s: Seq<LoreEntry>)
    ensures
        sorted_by_order(sort_entries(s)),
        sort_entries(s).len() == s.len(),
        forall|k: int| #[trigger] with_order(sort_entries(s), k) == with_order(s, k),
    decreases s.len(),
{
    if s.len() > 0 {
        lemma_sort_entries_stable(s.drop_last());
        let e = s.last();
        assert forall|k: int| #[trigger]
            with_order(sort_entries(s), k) == with_order(s, k) by {
            lemma_insert_props(e, sort_entries(s.drop_last()), k);
            assert(s =~= s.drop_last() + seq![e]);
            lemma_with_order_add(s.drop_last(), seq![e], k);
            assert(seq![e].drop_first() =~= Seq::<LoreEntry>::empty());
            assert(with_order(Seq::<LoreEntry>::empty(), k) == Seq::<LoreEntry>::empty());
    assert(with_order(Seq::<LoreEntry>::empty(), k) == Seq::<LoreEntry>::empty());
            assert(with_order(seq![e], k) =~= (if e.insertion_order == k {
                seq![e]
            } else {
                Seq::<LoreEntry>::empty()
            }));
            if e.insertion_order == k {
                assert(with_order(s, k) =~= with_order(s.drop_last(), k).push(e));
            } else {
                assert(with_order(s, k) =~= with_order(s.drop_last(), k));
            }
        }
        lemma_insert_props(e, sort_entries(s.drop_last()), 0);
    }
}

/// Rendering is a pure function of the card: rendering the same card twice
/// yields byte-identical text.
pub proof fn lemma_render_deterministic(c1: CharacterData, c2: CharacterData)
    requires
        c1 == c2,
    ensures
        render_spec(c1) == render_spec(c2),
{
}

/// A card whose optional parts are all empty or absent renders as exactly
/// the always-present sections: the name line, the description block, and
/// the first-message block — no conditional section at all.
pub proof fn lemma_minimal_card_report(c: CharacterData)
    requires
        c.creator@.len() == 0,
        c.character_version@.len() == 0,
        c.tags@.len() == 0,
        c.alternate_greetings@.len() == 0,
        c.personality@.len() == 0,
        c.scenario@.len() == 0,
        c.mes_example@.len() == 0,
        c.system_prompt@.len() == 0,
        c.post_history_instructions@.len() == 0,
        c.extensions is None,
        match c.character_book {
            None => true,
            Some(b) => b.entries@.len() == 0,
        },
        c.creator_notes@.len() == 0,
    ensures
        render_spec(c) == "【角色名称】: "@ + c.name@ + "\n"@ + titled_block(
            "【角色描述 (Description)】"@,
            c.description@,
        ) + titled_block("【开场白 (First Message)】"@, c.first_mes@),
{
    assert(header_text(c) =~= "【角色名称】: "@ + c.name@ + "\n"@);
    assert(greetings_text(c) =~= Seq::<char>::empty());
    assert(book_text(c) =~= Seq::<char>::empty());
    assert(front_text(c) =~= "【角色名称】: "@ + c.name@ + "\n"@ + titled_block(
        "【角色描述 (Description)】"@,
        c.description@,
    ) + titled_block("【开场白 (First Message)】"@, c.first_mes@));
    assert(tail_text(c) =~= Seq::<char>::empty());
    assert(render_spec(c) =~= front_text(c));
}

} // verus!
