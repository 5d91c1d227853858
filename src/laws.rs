//! What holds of every inference and every rendering.
use vstd::prelude::*;
use crate::access::{Access, Entry};
use crate::blacklist::{
    add_new, blacklist_paths, carve_out, denials, denies, entry_denials, is_marker,
    leads_to_whitelisted, level_at, level_denials, level_dir, listing_children, mentions_users,
    qualifies, sibling_path, survives_carve_out, walk_denials, DirListing,
};
use crate::path::{components, has_substring, is_ancestor_or_self, render};
use crate::rules::{count_nonempty, header_text, joined, rule_lines, rules_text};

verus! {

proof fn lemma_contains_concat(a: Seq<Seq<char>>, b: Seq<Seq<char>>, x: Seq<char>)
    ensures
        (a + b).contains(x) <==> (a.contains(x) || b.contains(x)),
{
    if a.contains(x) {
        let i = choose|i: int| 0 <= i < a.len() && a[i] == x;
        assert((a + b)[i] == x);
    }
    if b.contains(x) {
        let i = choose|i: int| 0 <= i < b.len() && b[i] == x;
        assert((a + b)[a.len() + i] == x);
    }
    if (a + b).contains(x) {
        let i = choose|i: int| 0 <= i < (a + b).len() && (a + b)[i] == x;
        if i < a.len() {
            assert(a[i] == x);
        } else {
            assert(b[i - a.len()] == x);
        }
    }
}

proof fn lemma_contains_push(a: Seq<Seq<char>>, y: Seq<char>, x: Seq<char>)
    ensures
        a.push(y).contains(x) <==> (a.contains(x) || x == y),
{
    assert(a.push(y) =~= a + seq![y]);
    lemma_contains_concat(a, seq![y], x);
    assert(seq![y].contains(x) <==> x == y) by {
        if x == y {
            assert(seq![y][0] == x);
        }
    }
}

// ---- where every denial comes from ----

proof fn lemma_level_denials_denied(
    wl: Seq<Entry>,
    comps: Seq<Seq<char>>,
    i: int,
    kids: Seq<Seq<char>>,
    x: Seq<char>,
)
    requires
        level_denials(wl, comps, i, kids).contains(x),
    ensures
        !leads_to_whitelisted(wl, x),
        x.len() > 0,
    decreases kids.len(),
{
    let prev = level_denials(wl, comps, i, kids.drop_last());
    let tail = if denies(wl, comps, i, kids.last()) {
        seq![sibling_path(comps, i, kids.last())]
    } else {
        seq![]
    };
    lemma_contains_concat(prev, tail, x);
    if prev.contains(x) {
        lemma_level_denials_denied(wl, comps, i, kids.drop_last(), x);
    } else {
        assert(tail[0] == x);
        assert(render(comps.subrange(0, i + 1).push(kids.last())).len() > 0);
    }
}

proof fn lemma_walk_denied(
    wl: Seq<Entry>,
    ls: Seq<DirListing>,
    comps: Seq<Seq<char>>,
    n: nat,
    x: Seq<char>,
)
    requires
        walk_denials(wl, ls, comps, n).contains(x),
    ensures
        !leads_to_whitelisted(wl, x),
        x.len() > 0,
    decreases n,
{
    let prev = walk_denials(wl, ls, comps, (n - 1) as nat);
    let lvl = level_at(wl, ls, comps, n - 1);
    lemma_contains_concat(prev, lvl, x);
    if prev.contains(x) {
        lemma_walk_denied(wl, ls, comps, (n - 1) as nat, x);
    } else {
        lemma_level_denials_denied(
            wl,
            comps,
            n - 1,
            listing_children(ls, level_dir(comps, n - 1)),
            x,
        );
    }
}

proof fn lemma_denials_denied(wl: Seq<Entry>, ls: Seq<DirListing>, n: nat, x: Seq<char>)
    requires
        n <= wl.len(),
        denials(wl, ls, n).contains(x),
    ensures
        !leads_to_whitelisted(wl, x),
        x.len() > 0,
    decreases n,
{
    let prev = denials(wl, ls, (n - 1) as nat);
    let e = wl[n - 1];
    lemma_contains_concat(prev, entry_denials(wl, ls, e), x);
    if prev.contains(x) {
        lemma_denials_denied(wl, ls, (n - 1) as nat, x);
    } else {
        let comps = components(e.path@);
        lemma_walk_denied(wl, ls, comps, (comps.len() - 1) as nat, x);
    }
}

proof fn lemma_add_new_from(acc: Seq<Seq<char>>, s: Seq<Seq<char>>, x: Seq<char>)
    ensures
        add_new(acc, s).contains(x) <==> (acc.contains(x) || s.contains(x)),
    decreases s.len(),
{
    if s.len() > 0 {
        lemma_add_new_from(acc, s.drop_last(), x);
        lemma_contains_push(add_new(acc, s.drop_last()), s.last(), x);
        assert(s =~= s.drop_last().push(s.last()));
        lemma_contains_push(s.drop_last(), s.last(), x);
    }
}

proof fn lemma_add_new_no_duplicates(acc: Seq<Seq<char>>, s: Seq<Seq<char>>)
    requires
        acc.no_duplicates(),
    ensures
        add_new(acc, s).no_duplicates(),
    decreases s.len(),
{
    if s.len() > 0 {
        lemma_add_new_no_duplicates(acc, s.drop_last());
        let a = add_new(acc, s.drop_last());
        if !a.contains(s.last()) {
            assert forall|i: int, j: int|
                0 <= i < a.push(s.last()).len() && 0 <= j < a.push(s.last()).len() && i != j
                    implies a.push(s.last())[i] != a.push(s.last())[j] by {
                if i == a.len() {
                    assert(a[j] == a.push(s.last())[j]);
                } else if j == a.len() {
                    assert(a[i] == a.push(s.last())[i]);
                }
            }
        }
    }
}

proof fn lemma_carve_out_from(wl: Seq<Entry>, s: Seq<Seq<char>>, x: Seq<char>)
    ensures
        carve_out(wl, s).contains(x) <==> (s.contains(x) && survives_carve_out(wl, x)),
    decreases s.len(),
{
    if s.len() > 0 {
        lemma_carve_out_from(wl, s.drop_last(), x);
        let prev = carve_out(wl, s.drop_last());
        let tail = if survives_carve_out(wl, s.last()) {
            seq![s.last()]
        } else {
            seq![]
        };
        lemma_contains_concat(prev, tail, x);
        assert(s =~= s.drop_last().push(s.last()));
        lemma_contains_push(s.drop_last(), s.last(), x);
        if tail.contains(x) {
            assert(tail[0] == x);
        }
        if x == s.last() && survives_carve_out(wl, x) {
            assert(tail[0] == x);
        }
    }
}

proof fn lemma_carve_out_no_duplicates(wl: Seq<Entry>, s: Seq<Seq<char>>)
    requires
        s.no_duplicates(),
    ensures
        carve_out(wl, s).no_duplicates(),
    decreases s.len(),
{
    if s.len() > 0 {
        let d = s.drop_last();
        assert(d.no_duplicates()) by {
            assert forall|i: int, j: int| 0 <= i < d.len() && 0 <= j < d.len() && i != j implies d[i]
                != d[j] by {
                assert(d[i] == s[i] && d[j] == s[j]);
            }
        }
        lemma_carve_out_no_duplicates(wl, d);
        let prev = carve_out(wl, d);
        if survives_carve_out(wl, s.last()) {
            assert(!d.contains(s.last())) by {
                if d.contains(s.last()) {
                    let i = choose|i: int| 0 <= i < d.len() && d[i] == s.last();
                    assert(s[i] == s[s.len() - 1]);
                }
            }
            lemma_carve_out_from(wl, d, s.last());
            assert(prev + seq![s.last()] =~= prev.push(s.last()));
            assert forall|i: int, j: int|
                0 <= i < prev.push(s.last()).len() && 0 <= j < prev.push(s.last()).len() && i
                    != j implies prev.push(s.last())[i] != prev.push(s.last())[j] by {
                if i == prev.len() {
                    assert(prev[j] == prev.push(s.last())[j]);
                } else if j == prev.len() {
                    assert(prev[i] == prev.push(s.last())[i]);
                }
            }
        } else {
            assert(prev + seq![] =~= prev);
        }
    }
}

// ---- where every sibling goes ----

proof fn lemma_level_denials_has(
    wl: Seq<Entry>,
    comps: Seq<Seq<char>>,
    i: int,
    kids: Seq<Seq<char>>,
    c: Seq<char>,
)
    requires
        kids.contains(c),
        denies(wl, comps, i, c),
    ensures
        level_denials(wl, comps, i, kids).contains(sibling_path(comps, i, c)),
    decreases kids.len(),
{
    let x = sibling_path(comps, i, c);
    let prev = level_denials(wl, comps, i, kids.drop_last());
    let tail = if denies(wl, comps, i, kids.last()) {
        seq![sibling_path(comps, i, kids.last())]
    } else {
        seq![]
    };
    lemma_contains_concat(prev, tail, x);
    if kids.last() == c {
        assert(tail[0] == x);
    } else {
        let k = choose|k: int| 0 <= k < kids.len() && kids[k] == c;
        assert(kids.drop_last()[k] == c);
        lemma_level_denials_has(wl, comps, i, kids.drop_last(), c);
    }
}

proof fn lemma_walk_has(
    wl: Seq<Entry>,
    ls: Seq<DirListing>,
    comps: Seq<Seq<char>>,
    n: nat,
    i: int,
    x: Seq<char>,
)
    requires
        0 <= i < n,
        level_at(wl, ls, comps, i).contains(x),
    ensures
        walk_denials(wl, ls, comps, n).contains(x),
    decreases n,
{
    let prev = walk_denials(wl, ls, comps, (n - 1) as nat);
    lemma_contains_concat(prev, level_at(wl, ls, comps, n - 1), x);
    if i < n - 1 {
        lemma_walk_has(wl, ls, comps, (n - 1) as nat, i, x);
    }
}

proof fn lemma_denials_has(wl: Seq<Entry>, ls: Seq<DirListing>, n: nat, j: int, x: Seq<char>)
    requires
        0 <= j < n <= wl.len(),
        entry_denials(wl, ls, wl[j]).contains(x),
    ensures
        denials(wl, ls, n).contains(x),
    decreases n,
{
    let prev = denials(wl, ls, (n - 1) as nat);
    lemma_contains_concat(prev, entry_denials(wl, ls, wl[n - 1]), x);
    if j < n - 1 {
        lemma_denials_has(wl, ls, (n - 1) as nat, j, x);
    }
}

proof fn lemma_walk_same(
    wl: Seq<Entry>,
    ls1: Seq<DirListing>,
    ls2: Seq<DirListing>,
    comps: Seq<Seq<char>>,
    n: nat,
)
    requires
        forall|d: Seq<char>| #[trigger] listing_children(ls1, d) == listing_children(ls2, d),
    ensures
        walk_denials(wl, ls1, comps, n) == walk_denials(wl, ls2, comps, n),
    decreases n,
{
    if n > 0 {
        lemma_walk_same(wl, ls1, ls2, comps, (n - 1) as nat);
        assert(listing_children(ls1, level_dir(comps, n - 1)) == listing_children(
            ls2,
            level_dir(comps, n - 1),
        ));
    }
}

proof fn lemma_denials_same(wl: Seq<Entry>, ls1: Seq<DirListing>, ls2: Seq<DirListing>, n: nat)
    requires
        n <= wl.len(),
        forall|d: Seq<char>| #[trigger] listing_children(ls1, d) == listing_children(ls2, d),
    ensures
        denials(wl, ls1, n) == denials(wl, ls2, n),
    decreases n,
{
    if n > 0 {
        lemma_denials_same(wl, ls1, ls2, (n - 1) as nat);
        let comps = components(wl[n - 1].path@);
        lemma_walk_same(wl, ls1, ls2, comps, (comps.len() - 1) as nat);
    }
}

proof fn lemma_denials_empty(wl: Seq<Entry>, ls: Seq<DirListing>, n: nat)
    requires
        n <= wl.len(),
        forall|j: int| 0 <= j < wl.len() ==> !qualifies(#[trigger] wl[j]),
    ensures
        denials(wl, ls, n) == Seq::<Seq<char>>::empty(),
    decreases n,
{
    if n > 0 {
        lemma_denials_empty(wl, ls, (n - 1) as nat);
        assert(!qualifies(wl[n - 1]));
        assert(denials(wl, ls, n) =~= Seq::<Seq<char>>::empty());
    }
}

// ---- the laws ----

/// Inference reads the filesystem only through the listed children of each
/// directory: two snapshots that list the same children for every directory
/// give the same deny rules, in the same order. In particular, inference
/// repeated on an unchanged whitelist and an unchanged filesystem gives the
/// same result.
pub proof fn lemma_inference_repeatable(
    wl: Seq<Entry>,
    ls1: Seq<DirListing>,
    ls2: Seq<DirListing>,
)
    requires
        forall|d: Seq<char>| #[trigger] listing_children(ls1, d) == listing_children(ls2, d),
    ensures
        blacklist_paths(wl, ls1) == blacklist_paths(wl, ls2),
{
    lemma_denials_same(wl, ls1, ls2, wl.len());
}

/// No deny rule hides a whitelisted path: no inferred path is a whitelist
/// path or one of its ancestors.
pub proof fn lemma_no_collateral_denial(wl: Seq<Entry>, ls: Seq<DirListing>, k: int, j: int)
    requires
        0 <= k < blacklist_paths(wl, ls).len(),
        0 <= j < wl.len(),
        wl[j].path@.len() > 0,
    ensures
        !is_ancestor_or_self(components(blacklist_paths(wl, ls)[k]), components(wl[j].path@)),
{
    let all = denials(wl, ls, wl.len());
    let x = blacklist_paths(wl, ls)[k];
    assert(blacklist_paths(wl, ls).contains(x));
    lemma_carve_out_from(wl, add_new(seq![], all), x);
    lemma_add_new_from(seq![], all, x);
    lemma_denials_denied(wl, ls, wl.len(), x);
    assert(!leads_to_whitelisted(wl, x));
    assert(components(wl[j].path@) == components(wl[j].path@));
}

/// No inferred deny rule has an empty path.
pub proof fn lemma_denied_paths_nonempty(wl: Seq<Entry>, ls: Seq<DirListing>, k: int)
    requires
        0 <= k < blacklist_paths(wl, ls).len(),
    ensures
        blacklist_paths(wl, ls)[k].len() > 0,
{
    let all = denials(wl, ls, wl.len());
    let x = blacklist_paths(wl, ls)[k];
    assert(blacklist_paths(wl, ls).contains(x));
    lemma_carve_out_from(wl, add_new(seq![], all), x);
    lemma_add_new_from(seq![], all, x);
    lemma_denials_denied(wl, ls, wl.len(), x);
}

/// Every sibling along a qualifying whitelist path that is not the next
/// component and leads to no whitelisted path is denied exactly once, unless
/// the legacy carve-out removes it.
pub proof fn lemma_coverage(wl: Seq<Entry>, ls: Seq<DirListing>, j: int, i: int, c: Seq<char>)
    requires
        0 <= j < wl.len(),
        qualifies(wl[j]),
        0 <= i < components(wl[j].path@).len() - 1,
        !is_marker(components(wl[j].path@)[i]),
        listing_children(ls, level_dir(components(wl[j].path@), i)).contains(c),
        denies(wl, components(wl[j].path@), i, c),
        survives_carve_out(wl, sibling_path(components(wl[j].path@), i, c)),
    ensures
        blacklist_paths(wl, ls).contains(sibling_path(components(wl[j].path@), i, c)),
        blacklist_paths(wl, ls).no_duplicates(),
{
    let comps = components(wl[j].path@);
    let x = sibling_path(comps, i, c);
    let all = denials(wl, ls, wl.len());
    lemma_level_denials_has(wl, comps, i, listing_children(ls, level_dir(comps, i)), c);
    lemma_walk_has(wl, ls, comps, (comps.len() - 1) as nat, i, x);
    lemma_denials_has(wl, ls, wl.len(), j, x);
    lemma_add_new_from(seq![], all, x);
    lemma_carve_out_from(wl, add_new(seq![], all), x);
    lemma_add_new_no_duplicates(seq![], all);
    lemma_carve_out_no_duplicates(wl, add_new(seq![], all));
}

/// Inference never names the same path twice.
pub proof fn lemma_no_repeated_denial(wl: Seq<Entry>, ls: Seq<DirListing>)
    ensures
        blacklist_paths(wl, ls).no_duplicates(),
{
    let all = denials(wl, ls, wl.len());
    lemma_add_new_no_duplicates(seq![], all);
    lemma_carve_out_no_duplicates(wl, add_new(seq![], all));
}

/// An entry whose tier is `Closed` or `BoxOnly` contributes no denial; a
/// whitelist with no other entries gives no deny rule at all.
pub proof fn lemma_unqualified_entries_deny_nothing(wl: Seq<Entry>, ls: Seq<DirListing>, e: Entry)
    ensures
        (e.access == Access::Closed || e.access == Access::BoxOnly) ==> entry_denials(wl, ls, e)
            == Seq::<Seq<char>>::empty(),
        (forall|j: int|
            0 <= j < wl.len() ==> (#[trigger] wl[j]).access == Access::Closed || wl[j].access
                == Access::BoxOnly) ==> blacklist_paths(wl, ls) == Seq::<Seq<char>>::empty(),
{
    if forall|j: int|
        0 <= j < wl.len() ==> (#[trigger] wl[j]).access == Access::Closed || wl[j].access
            == Access::BoxOnly {
        lemma_denials_empty(wl, ls, wl.len());
        assert(blacklist_paths(wl, ls) =~= Seq::<Seq<char>>::empty());
    }
}

// ---- adding an entry that seeds nothing ----

proof fn lemma_leads_grows(wl: Seq<Entry>, x: Entry, p: Seq<char>)
    requires
        leads_to_whitelisted(wl, p),
    ensures
        leads_to_whitelisted(wl.push(x), p),
{
    let j = choose|j: int|
        0 <= j < wl.len() && wl[j].path@.len() > 0 && is_ancestor_or_self(
            components(p),
            #[trigger] components(wl[j].path@),
        );
    assert(wl.push(x)[j] == wl[j]);
    assert(components(wl.push(x)[j].path@) == components(wl[j].path@));
}

proof fn lemma_users_grows(wl: Seq<Entry>, x: Entry)
    requires
        mentions_users(wl),
    ensures
        mentions_users(wl.push(x)),
{
    let j = choose|j: int| 0 <= j < wl.len() && has_substring(#[trigger] wl[j].path@, "C:\\Users"@);
    assert(wl.push(x)[j] == wl[j]);
}

proof fn lemma_level_shrinks(
    wl: Seq<Entry>,
    x: Entry,
    comps: Seq<Seq<char>>,
    i: int,
    kids: Seq<Seq<char>>,
    y: Seq<char>,
)
    requires
        level_denials(wl.push(x), comps, i, kids).contains(y),
    ensures
        level_denials(wl, comps, i, kids).contains(y),
    decreases kids.len(),
{
    let wl2 = wl.push(x);
    let c = kids.last();
    let prev1 = level_denials(wl, comps, i, kids.drop_last());
    let prev2 = level_denials(wl2, comps, i, kids.drop_last());
    let tail1 = if denies(wl, comps, i, c) {
        seq![sibling_path(comps, i, c)]
    } else {
        seq![]
    };
    let tail2 = if denies(wl2, comps, i, c) {
        seq![sibling_path(comps, i, c)]
    } else {
        seq![]
    };
    lemma_contains_concat(prev1, tail1, y);
    lemma_contains_concat(prev2, tail2, y);
    if prev2.contains(y) {
        lemma_level_shrinks(wl, x, comps, i, kids.drop_last(), y);
    } else {
        assert(tail2[0] == y);
        if leads_to_whitelisted(wl, sibling_path(comps, i, c)) {
            lemma_leads_grows(wl, x, sibling_path(comps, i, c));
        }
        assert(tail1[0] == y);
    }
}

proof fn lemma_walk_shrinks(
    wl: Seq<Entry>,
    x: Entry,
    ls: Seq<DirListing>,
    comps: Seq<Seq<char>>,
    n: nat,
    y: Seq<char>,
)
    requires
        walk_denials(wl.push(x), ls, comps, n).contains(y),
    ensures
        walk_denials(wl, ls, comps, n).contains(y),
    decreases n,
{
    let wl2 = wl.push(x);
    let prev1 = walk_denials(wl, ls, comps, (n - 1) as nat);
    let prev2 = walk_denials(wl2, ls, comps, (n - 1) as nat);
    lemma_contains_concat(prev1, level_at(wl, ls, comps, n - 1), y);
    lemma_contains_concat(prev2, level_at(wl2, ls, comps, n - 1), y);
    if prev2.contains(y) {
        lemma_walk_shrinks(wl, x, ls, comps, (n - 1) as nat, y);
    } else {
        lemma_level_shrinks(
            wl,
            x,
            comps,
            n - 1,
            listing_children(ls, level_dir(comps, n - 1)),
            y,
        );
    }
}

proof fn lemma_denials_shrink(wl: Seq<Entry>, x: Entry, ls: Seq<DirListing>, n: nat, y: Seq<char>)
    requires
        n <= wl.len(),
        denials(wl.push(x), ls, n).contains(y),
    ensures
        denials(wl, ls, n).contains(y),
    decreases n,
{
    let wl2 = wl.push(x);
    let e = wl[n - 1];
    assert(wl2[n - 1] == e);
    let prev1 = denials(wl, ls, (n - 1) as nat);
    let prev2 = denials(wl2, ls, (n - 1) as nat);
    lemma_contains_concat(prev1, entry_denials(wl, ls, e), y);
    lemma_contains_concat(prev2, entry_denials(wl2, ls, e), y);
    if prev2.contains(y) {
        lemma_denials_shrink(wl, x, ls, (n - 1) as nat, y);
    } else {
        let comps = components(e.path@);
        lemma_walk_shrinks(wl, x, ls, comps, (comps.len() - 1) as nat, y);
    }
}

/// Appending a `Closed` or `BoxOnly` entry to a whitelist never adds a deny
/// rule: every path inferred afterwards was inferred before.
pub proof fn lemma_unqualified_entry_adds_no_denial(
    wl: Seq<Entry>,
    ls: Seq<DirListing>,
    x: Entry,
    p: Seq<char>,
)
    requires
        x.access == Access::Closed || x.access == Access::BoxOnly,
        blacklist_paths(wl.push(x), ls).contains(p),
    ensures
        blacklist_paths(wl, ls).contains(p),
{
    let wl2 = wl.push(x);
    let d1 = denials(wl, ls, wl.len());
    let d2 = denials(wl2, ls, wl2.len());
    assert(wl2[wl.len() as int] == x);
    assert(d2 =~= denials(wl2, ls, wl.len()));
    lemma_carve_out_from(wl2, add_new(seq![], d2), p);
    lemma_add_new_from(seq![], d2, p);
    lemma_denials_shrink(wl, x, ls, wl.len(), p);
    lemma_add_new_from(seq![], d1, p);
    if mentions_users(wl) {
        lemma_users_grows(wl, x);
    }
    lemma_carve_out_from(wl, add_new(seq![], d1), p);
}

/// When a whitelist path mentions the Users root, no deny rule names the
/// `Documents and Settings` alias.
pub proof fn lemma_legacy_carve_out(wl: Seq<Entry>, ls: Seq<DirListing>, k: int)
    requires
        mentions_users(wl),
        0 <= k < blacklist_paths(wl, ls).len(),
    ensures
        !has_substring(blacklist_paths(wl, ls)[k], "C:\\Documents and Settings"@),
{
    let x = blacklist_paths(wl, ls)[k];
    assert(blacklist_paths(wl, ls).contains(x));
    lemma_carve_out_from(wl, add_new(seq![], denials(wl, ls, wl.len())), x);
}

/// The rule file holds the header line once, at its start, and then exactly
/// one rule line for each entry with a non-empty path.
pub proof fn lemma_one_line_per_entry(entries: Seq<Entry>, dirs: Seq<Seq<char>>)
    ensures
        rule_lines(entries, dirs).len() == count_nonempty(entries),
        rules_text(entries, dirs) == header_text() + "\n"@ + joined(rule_lines(entries, dirs)),
        rules_text(entries, dirs).subrange(0, header_text().len() as int) == header_text(),
    decreases entries.len(),
{
    if entries.len() > 0 {
        lemma_one_line_per_entry(entries.drop_last(), dirs);
    }
    assert(rules_text(entries, dirs).subrange(0, header_text().len() as int) =~= header_text());
}

} // verus!
