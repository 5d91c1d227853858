//! Inference of deny rules: for every directory level along each qualifying
//! whitelist path, every sibling that leads to no whitelisted path is hidden.
use vstd::prelude::*;
use vstd::string::*;
use crate::access::{Access, Entry};
use crate::path::{
    child_path, components, has_substring, is_ancestor_or_self, lemma_components_nonempty,
    lemma_views_push, path_components, render, render_prefix, starts_with_components,
    contains_text, views,
};

verus! {

/// The children of one directory, as listed from the filesystem at one moment.
/// A directory whose listing failed has no `DirListing`.
pub struct DirListing {
    pub dir: String,
    pub children: Vec<String>,
}

/// The children listed for `dir`: those of the first listing of that
/// directory, none where it was not listed.
pub open spec fn listing_children(ls: Seq<DirListing>, dir: Seq<char>) -> Seq<Seq<char>>
    decreases ls.len(),
{
    if ls.len() == 0 {
        seq![]
    } else if ls[0].dir@ == dir {
        views(ls[0].children@)
    } else {
        listing_children(ls.drop_first(), dir)
    }
}

/// An entry seeds inference: its path is not empty and its tier is neither
/// `Closed` nor `BoxOnly`.
pub open spec fn qualifies(e: Entry) -> bool {
    e.path@.len() > 0 && e.access != Access::Closed && e.access != Access::BoxOnly
}

/// Some non-empty whitelist path is `p` itself or lies inside `p`.
pub open spec fn leads_to_whitelisted(wl: Seq<Entry>, p: Seq<char>) -> bool {
    exists|j: int|
        0 <= j < wl.len() && wl[j].path@.len() > 0 && is_ancestor_or_self(
            components(p),
            #[trigger] components(wl[j].path@),
        )
}

/// A current-directory or parent-directory marker.
pub open spec fn is_marker(c: Seq<char>) -> bool {
    c == seq!['.'] || c == seq!['.', '.']
}

/// The directory at level `i` of a path: its first `i + 1` components.
pub open spec fn level_dir(comps: Seq<Seq<char>>, i: int) -> Seq<char> {
    render(comps.subrange(0, i + 1))
}

/// The path of the child `c` of the directory at level `i`.
pub open spec fn sibling_path(comps: Seq<Seq<char>>, i: int, c: Seq<char>) -> Seq<char> {
    render(comps.subrange(0, i + 1).push(c))
}

/// The child `c` at level `i` is denied: it is not the next component of the
/// path, and no whitelisted path lies inside it.
pub open spec fn denies(wl: Seq<Entry>, comps: Seq<Seq<char>>, i: int, c: Seq<char>) -> bool {
    c != comps[i + 1] && !leads_to_whitelisted(wl, sibling_path(comps, i, c))
}

/// The denied children among `kids`, as paths, in the order of `kids`.
pub open spec fn level_denials(
    wl: Seq<Entry>,
    comps: Seq<Seq<char>>,
    i: int,
    kids: Seq<Seq<char>>,
) -> Seq<Seq<char>>
    decreases kids.len(),
{
    if kids.len() == 0 {
        seq![]
    } else {
        level_denials(wl, comps, i, kids.drop_last()) + if denies(wl, comps, i, kids.last()) {
            seq![sibling_path(comps, i, kids.last())]
        } else {
            seq![]
        }
    }
}

/// The denials at level `i`: none at a marker component, else those among
/// the children listed for the level's directory.
pub open spec fn level_at(
    wl: Seq<Entry>,
    ls: Seq<DirListing>,
    comps: Seq<Seq<char>>,
    i: int,
) -> Seq<Seq<char>> {
    if is_marker(comps[i]) {
        seq![]
    } else {
        level_denials(wl, comps, i, listing_children(ls, level_dir(comps, i)))
    }
}

/// The denials of levels `0 .. n`, level by level.
pub open spec fn walk_denials(
    wl: Seq<Entry>,
    ls: Seq<DirListing>,
    comps: Seq<Seq<char>>,
    n: nat,
) -> Seq<Seq<char>>
    decreases n,
{
    if n == 0 {
        seq![]
    } else {
        walk_denials(wl, ls, comps, (n - 1) as nat) + level_at(wl, ls, comps, n - 1)
    }
}

/// The denials contributed by one entry: every level of its path but the last.
pub open spec fn entry_denials(wl: Seq<Entry>, ls: Seq<DirListing>, e: Entry) -> Seq<Seq<char>> {
    if qualifies(e) {
        let comps = components(e.path@);
        walk_denials(wl, ls, comps, (comps.len() - 1) as nat)
    } else {
        seq![]
    }
}

/// The denials of the first `n` whitelist entries, in order, repeats included.
pub open spec fn denials(wl: Seq<Entry>, ls: Seq<DirListing>, n: nat) -> Seq<Seq<char>>
    decreases n,
{
    if n == 0 {
        seq![]
    } else {
        denials(wl, ls, (n - 1) as nat) + entry_denials(wl, ls, wl[n - 1])
    }
}

/// `acc` followed by the elements of `s` that are not already there, each once,
/// in the order of their first occurrence.
pub open spec fn add_new(acc: Seq<Seq<char>>, s: Seq<Seq<char>>) -> Seq<Seq<char>>
    decreases s.len(),
{
    if s.len() == 0 {
        acc
    } else {
        let a = add_new(acc, s.drop_last());
        if a.contains(s.last()) {
            a
        } else {
            a.push(s.last())
        }
    }
}

/// Some whitelist path mentions the Users profile root.
pub open spec fn mentions_users(wl: Seq<Entry>) -> bool {
    exists|j: int| 0 <= j < wl.len() && has_substring(#[trigger] wl[j].path@, "C:\\Users"@)
}

/// A denial survives the legacy carve-out: when the whitelist mentions the
/// Users root, no denial may name the `Documents and Settings` alias of it.
pub open spec fn survives_carve_out(wl: Seq<Entry>, p: Seq<char>) -> bool {
    !(mentions_users(wl) && has_substring(p, "C:\\Documents and Settings"@))
}

/// The elements of `s` that survive the carve-out, in order.
pub open spec fn carve_out(wl: Seq<Entry>, s: Seq<Seq<char>>) -> Seq<Seq<char>>
    decreases s.len(),
{
    if s.len() == 0 {
        seq![]
    } else {
        carve_out(wl, s.drop_last()) + if survives_carve_out(wl, s.last()) {
            seq![s.last()]
        } else {
            seq![]
        }
    }
}

/// The paths of the inferred deny rules, in inference order.
pub open spec fn blacklist_paths(wl: Seq<Entry>, ls: Seq<DirListing>) -> Seq<Seq<char>> {
    carve_out(wl, add_new(seq![], denials(wl, ls, wl.len())))
}

/// The index of the first listing of `dir`.
pub fn find_listing(listings: &Vec<DirListing>, dir: &String) -> (r: Option<usize>)
    ensures
        match r {
            Some(k) => k < listings@.len() && listing_children(listings@, dir@) == views(
                listings@[k as int].children@,
            ),
            None => listing_children(listings@, dir@) == Seq::<Seq<char>>::empty(),
        },
{
    let mut k: usize = 0;
    assert(listings@.subrange(0, listings@.len() as int) =~= listings@);
    while k < listings.len()
        invariant
            k <= listings@.len(),
            listing_children(listings@, dir@) == listing_children(
                listings@.subrange(k as int, listings@.len() as int),
                dir@,
            ),
        decreases listings.len() - k,
    {
        let ghost rest = listings@.subrange(k as int, listings@.len() as int);
        assert(rest[0] == listings@[k as int]);
        if listings[k].dir == *dir {
            return Some(k);
        }
        assert(rest.drop_first() =~= listings@.subrange(k + 1, listings@.len() as int));
        k = k + 1;
    }
    None
}

/// Whether a whitelisted path is `p` itself or lies inside `p`.
pub fn leads_to_whitelisted_path(whitelist: &Vec<Entry>, p: &String) -> (r: bool)
    ensures
        r == leads_to_whitelisted(whitelist@, p@),
{
    let pc = path_components(p);
    let mut j: usize = 0;
    while j < whitelist.len()
        invariant
            views(pc@) == components(p@),
            j <= whitelist@.len(),
            forall|q: int|
                0 <= q < j ==> !(whitelist@[q].path@.len() > 0 && is_ancestor_or_self(
                    components(p@),
                    #[trigger] components(whitelist@[q].path@),
                )),
        decreases whitelist.len() - j,
    {
        if !whitelist[j].path.as_str().is_empty() {
            let wc = path_components(&whitelist[j].path);
            if starts_with_components(&wc, &pc) {
                return true;
            }
        }
        j = j + 1;
    }
    false
}

/// Whether some whitelist path mentions the Users profile root.
pub fn mentions_users_root(whitelist: &Vec<Entry>) -> (r: bool)
    ensures
        r == mentions_users(whitelist@),
{
    let mut j: usize = 0;
    while j < whitelist.len()
        invariant
            j <= whitelist@.len(),
            forall|q: int| 0 <= q < j ==> !has_substring(#[trigger] whitelist@[q].path@, "C:\\Users"@),
        decreases whitelist.len() - j,
    {
        if contains_text(whitelist[j].path.as_str(), "C:\\Users") {
            return true;
        }
        j = j + 1;
    }
    false
}

/// Whether `s` is `.` or `..`.
pub fn is_dot_marker(s: &String) -> (r: bool)
    ensures
        r == is_marker(s@),
{
    let n = s.as_str().unicode_len();
    if n == 1 {
        let r = s.as_str().get_char(0) == '.';
        assert(r ==> s@ =~= seq!['.']);
        r
    } else if n == 2 {
        let r = s.as_str().get_char(0) == '.' && s.as_str().get_char(1) == '.';
        assert(r ==> s@ =~= seq!['.', '.']);
        r
    } else {
        false
    }
}

/// Whether `p` is one of `v`.
pub fn contains_path(v: &Vec<String>, p: &String) -> (r: bool)
    ensures
        r == views(v@).contains(p@),
{
    let mut k: usize = 0;
    while k < v.len()
        invariant
            k <= v@.len(),
            forall|q: int| 0 <= q < k ==> v@[q]@ != p@,
        decreases v.len() - k,
    {
        if v[k] == *p {
            assert(views(v@)[k as int] == p@);
            return true;
        }
        k = k + 1;
    }
    false
}


/// Appends `p` unless it is already present.
fn push_new(seen: &mut Vec<String>, p: String)
    ensures
        views(final(seen)@) == if views(old(seen)@).contains(p@) {
            views(old(seen)@)
        } else {
            views(old(seen)@).push(p@)
        },
{
    if !contains_path(seen, &p) {
        proof {
            lemma_views_push(seen@, p);
        }
        seen.push(p);
    }
}

/// The denied children of the directory at level `i` of `comps`, added to `seen`.
fn deny_level(
    whitelist: &Vec<Entry>,
    comps: &Vec<String>,
    i: usize,
    kids: &Vec<String>,
    seen: &mut Vec<String>,
)
    requires
        i + 1 < comps@.len(),
    ensures
        views(final(seen)@) == add_new(
            views(old(seen)@),
            level_denials(whitelist@, views(comps@), i as int, views(kids@)),
        ),
{
    let ghost cv = views(comps@);
    let ghost start = views(seen@);
    let n = comps.len();
    let next = i + 1;
    let mut c: usize = 0;
    assert(views(kids@).subrange(0, 0) =~= Seq::<Seq<char>>::empty());
    while c < kids.len()
        invariant
            next == i + 1,
            n == comps@.len(),
            next < n,
            cv == views(comps@),
            c <= kids@.len(),
            views(seen@) == add_new(
                start,
                level_denials(whitelist@, cv, i as int, views(kids@).subrange(0, c as int)),
            ),
        decreases kids.len() - c,
    {
        let ghost done = level_denials(whitelist@, cv, i as int, views(kids@).subrange(0, c as int));
        let ghost upto = views(kids@).subrange(0, c + 1);
        assert(upto.drop_last() =~= views(kids@).subrange(0, c as int));
        assert(upto.last() == kids@[c as int]@);
        if kids[c] != comps[next] {
            let p = child_path(comps, i, &kids[c]);
            if !leads_to_whitelisted_path(whitelist, &p) {
                assert(denies(whitelist@, cv, i as int, upto.last()));
                assert((done + seq![p@]).drop_last() =~= done);
                push_new(seen, p);
            } else {
                assert(done + seq![] =~= done);
            }
        } else {
            assert(done + seq![] =~= done);
        }
        c = c + 1;
    }
    assert(views(kids@).subrange(0, kids@.len() as int) =~= views(kids@));
}

/// Infers the deny rules that complement `whitelist`, given the directory
/// listings taken from the filesystem. Every rule has the tier `BoxOnly`, and
/// no path occurs twice.
pub fn generate_blacklist(whitelist: &Vec<Entry>, listings: &Vec<DirListing>) -> (r: Vec<Entry>)
    ensures
        r@.len() == blacklist_paths(whitelist@, listings@).len(),
        forall|k: int|
            0 <= k < r@.len() ==> (#[trigger] r@[k]).path@ == blacklist_paths(
                whitelist@,
                listings@,
            )[k] && r@[k].access == Access::BoxOnly,
{
    let ghost wl = whitelist@;
    let ghost ls = listings@;
    let mut seen: Vec<String> = Vec::new();
    let mut e: usize = 0;
    assert(views(seen@) =~= Seq::<Seq<char>>::empty());
    while e < whitelist.len()
        invariant
            wl == whitelist@,
            ls == listings@,
            e <= wl.len(),
            views(seen@) == add_new(seq![], denials(wl, ls, e as nat)),
        decreases wl.len() - e,
    {
        let ghost before = denials(wl, ls, e as nat);
        let entry = &whitelist[e];
        if !entry.path.as_str().is_empty() && entry.access != Access::Closed && entry.access
            != Access::BoxOnly {
            let comps = path_components(&entry.path);
            proof {
                lemma_components_nonempty(entry.path@);
            }
            let ghost cv = views(comps@);
            let mut i: usize = 0;
            assert(before + seq![] =~= before);
            while i + 1 < comps.len()
                invariant
                    wl == whitelist@,
                    ls == listings@,
                    cv == views(comps@),
                    cv == components(wl[e as int].path@),
                    1 <= comps@.len(),
                    i + 1 <= comps@.len(),
                    views(seen@) == add_new(seq![], before + walk_denials(wl, ls, cv, i as nat)),
                decreases comps.len() - i,
            {
                let ghost walked = walk_denials(wl, ls, cv, i as nat);
                proof {
                    lemma_add_new_concat(seq![], before + walked, level_at(wl, ls, cv, i as int));
                }
                if !is_dot_marker(&comps[i]) {
                    let dir = render_prefix(&comps, i);
                    match find_listing(listings, &dir) {
                        Some(k) => {
                            deny_level(whitelist, &comps, i, &listings[k].children, &mut seen);
                        },
                        None => {
                            assert(level_at(wl, ls, cv, i as int) =~= Seq::<Seq<char>>::empty());
                        },
                    }
                }
                assert(before + walk_denials(wl, ls, cv, (i + 1) as nat) =~= (before + walked)
                    + level_at(wl, ls, cv, i as int));
                i = i + 1;
            }
            assert(denials(wl, ls, (e + 1) as nat) =~= before + walk_denials(
                wl,
                ls,
                cv,
                i as nat,
            ));
        } else {
            assert(denials(wl, ls, (e + 1) as nat) =~= before);
        }
        e = e + 1;
    }
    let users = mentions_users_root(whitelist);
    let mut out: Vec<Entry> = Vec::new();
    let mut k: usize = 0;
    while k < seen.len()
        invariant
            wl == whitelist@,
            users == mentions_users(wl),
            k <= seen@.len(),
            out@.len() == carve_out(wl, views(seen@).subrange(0, k as int)).len(),
            forall|m: int|
                0 <= m < out@.len() ==> (#[trigger] out@[m]).path@ == carve_out(
                    wl,
                    views(seen@).subrange(0, k as int),
                )[m] && out@[m].access == Access::BoxOnly,
        decreases seen.len() - k,
    {
        let ghost upto = views(seen@).subrange(0, k + 1);
        assert(upto.drop_last() =~= views(seen@).subrange(0, k as int));
        let alias = users && contains_text(seen[k].as_str(), "C:\\Documents and Settings");
        if !alias {
            out.push(Entry { path: seen[k].clone(), access: Access::BoxOnly });
        }
        k = k + 1;
    }
    assert(views(seen@).subrange(0, seen@.len() as int) =~= views(seen@));
    out
}

/// Adding the elements of `a + b` is adding those of `a`, then those of `b`.
pub proof fn lemma_add_new_concat(acc: Seq<Seq<char>>, a: Seq<Seq<char>>, b: Seq<Seq<char>>)
    ensures
        add_new(acc, a + b) == add_new(add_new(acc, a), b),
    decreases b.len(),
{
    if b.len() == 0 {
        assert(a + b =~= a);
    } else {
        assert((a + b).drop_last() =~= a + b.drop_last());
        assert((a + b).last() == b.last());
        lemma_add_new_concat(acc, a, b.drop_last());
    }
}


/// The directories read at the levels of one path: levels `0 .. n`, markers skipped.
pub open spec fn walk_dirs(comps: Seq<Seq<char>>, n: nat) -> Seq<Seq<char>>
    decreases n,
{
    if n == 0 {
        seq![]
    } else {
        walk_dirs(comps, (n - 1) as nat) + if is_marker(comps[n - 1]) {
            seq![]
        } else {
            seq![level_dir(comps, n - 1)]
        }
    }
}

/// The directories whose listings inference reads for the first `n` entries,
/// in order, repeats included.
pub open spec fn dirs_read(wl: Seq<Entry>, n: nat) -> Seq<Seq<char>>
    decreases n,
{
    if n == 0 {
        seq![]
    } else {
        dirs_read(wl, (n - 1) as nat) + if qualifies(wl[n - 1]) {
            let comps = components(wl[n - 1].path@);
            walk_dirs(comps, (comps.len() - 1) as nat)
        } else {
            seq![]
        }
    }
}

/// The directories to list before inference, each once, in the order in
/// which inference reads them.
pub fn directories_to_list(whitelist: &Vec<Entry>) -> (r: Vec<String>)
    ensures
        views(r@) == add_new(seq![], dirs_read(whitelist@, whitelist@.len())),
{
    let ghost wl = whitelist@;
    let mut seen: Vec<String> = Vec::new();
    let mut e: usize = 0;
    assert(views(seen@) =~= Seq::<Seq<char>>::empty());
    while e < whitelist.len()
        invariant
            wl == whitelist@,
            e <= wl.len(),
            views(seen@) == add_new(seq![], dirs_read(wl, e as nat)),
        decreases wl.len() - e,
    {
        let ghost before = dirs_read(wl, e as nat);
        let entry = &whitelist[e];
        if !entry.path.as_str().is_empty() && entry.access != Access::Closed && entry.access
            != Access::BoxOnly {
            let comps = path_components(&entry.path);
            proof {
                lemma_components_nonempty(entry.path@);
            }
            let ghost cv = views(comps@);
            let mut i: usize = 0;
            assert(before + seq![] =~= before);
            while i + 1 < comps.len()
                invariant
                    wl == whitelist@,
                    cv == views(comps@),
                    cv == components(wl[e as int].path@),
                    1 <= comps@.len(),
                    i + 1 <= comps@.len(),
                    views(seen@) == add_new(seq![], before + walk_dirs(cv, i as nat)),
                decreases comps.len() - i,
            {
                let ghost walked = before + walk_dirs(cv, i as nat);
                if !is_dot_marker(&comps[i]) {
                    let dir = render_prefix(&comps, i);
                    assert((walked + seq![dir@]).drop_last() =~= walked);
                    push_new(&mut seen, dir);
                    assert(before + walk_dirs(cv, (i + 1) as nat) =~= walked + seq![dir@]);
                } else {
                    assert(before + walk_dirs(cv, (i + 1) as nat) =~= walked);
                }
                i = i + 1;
            }
            assert(dirs_read(wl, (e + 1) as nat) =~= before + walk_dirs(cv, i as nat));
        } else {
            assert(dirs_read(wl, (e + 1) as nat) =~= before);
        }
        e = e + 1;
    }
    seen
}

} // verus!
