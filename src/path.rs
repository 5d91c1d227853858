//! Native path text: splitting into components, rendering components back
//! into text, ancestor tests and substring search.
use vstd::prelude::*;
use vstd::string::*;

verus! {

/// A path separator: the native backslash, or a forward slash.
pub open spec fn is_separator(c: char) -> bool {
    c == '\\' || c == '/'
}

/// The text of each string of a sequence.
pub open spec fn views(v: Seq<String>) -> Seq<Seq<char>> {
    v.map_values(|s: String| s@)
}

/// Scans `s` from the left: the components finished so far, and the pending
/// segment after the last separator.
pub open spec fn scan(s: Seq<char>) -> (Seq<Seq<char>>, Seq<char>)
    decreases s.len(),
{
    if s.len() == 0 {
        (seq![], seq![])
    } else {
        let prev = scan(s.drop_last());
        if is_separator(s.last()) {
            if prev.0.len() == 0 || prev.1.len() > 0 {
                (prev.0.push(prev.1), seq![])
            } else {
                (prev.0, seq![])
            }
        } else {
            (prev.0, prev.1.push(s.last()))
        }
    }
}

/// The components of a path without a network share: its root (the text
/// before the first separator, such as a drive `C:`, possibly empty), then
/// every non-empty segment.
pub open spec fn plain_components(s: Seq<char>) -> Seq<Seq<char>> {
    let sc = scan(s);
    if sc.0.len() == 0 || sc.1.len() > 0 {
        sc.0.push(sc.1)
    } else {
        sc.0
    }
}

/// The position of the first separator at or after `p`, or the length of `s`.
pub open spec fn next_separator(s: Seq<char>, p: int) -> int
    decreases s.len() - p,
{
    if p >= s.len() {
        s.len() as int
    } else if is_separator(s[p]) {
        p
    } else {
        next_separator(s, p + 1)
    }
}

/// A network path: two separators, then a server name.
pub open spec fn is_unc(s: Seq<char>) -> bool {
    s.len() > 2 && is_separator(s[0]) && is_separator(s[1]) && !is_separator(s[2])
}

/// Where the root `\\server\share` of a network path ends.
pub open spec fn unc_root_end(s: Seq<char>) -> int {
    let a = next_separator(s, 2);
    if a >= s.len() {
        s.len() as int
    } else {
        next_separator(s, a + 1)
    }
}

/// The components of a path: its root, then every non-empty segment. The
/// root of a network path is `\\server\share`; that of another path is the
/// text before its first separator, such as a drive `C:`, possibly empty.
pub open spec fn components(s: Seq<char>) -> Seq<Seq<char>> {
    if is_unc(s) {
        let e = unc_root_end(s);
        seq![s.subrange(0, e)] + plain_components(s.subrange(e, s.len() as int)).drop_first()
    } else {
        plain_components(s)
    }
}

/// Segments joined by single backslashes.
pub open spec fn join(parts: Seq<Seq<char>>) -> Seq<char>
    decreases parts.len(),
{
    if parts.len() == 0 {
        seq![]
    } else if parts.len() == 1 {
        parts[0]
    } else {
        join(parts.drop_last()) + seq!['\\'] + parts.last()
    }
}

/// The text of a path given by its components: the root is a directory
/// (`C:` renders as `C:\`), the segments follow it, separated by backslashes.
pub open spec fn render(comps: Seq<Seq<char>>) -> Seq<char>
    recommends
        comps.len() >= 1,
{
    comps[0] + seq!['\\'] + join(comps.drop_first())
}

/// `a` names `b` itself or a directory that contains `b`, component by component.
pub open spec fn is_ancestor_or_self(a: Seq<Seq<char>>, b: Seq<Seq<char>>) -> bool {
    a.len() <= b.len() && b.subrange(0, a.len() as int) == a
}

/// `t` occurs in `s` as a contiguous run of characters.
pub open spec fn has_substring(s: Seq<char>, t: Seq<char>) -> bool {
    exists|i: int| 0 <= i && i + t.len() <= s.len() && #[trigger] s.subrange(i, i + t.len()) == t
}

/// The text of a pushed string follows the texts of the others.
pub proof fn lemma_views_push(v: Seq<String>, x: String)
    ensures
        views(v.push(x)) == views(v).push(x@),
{
    assert(views(v.push(x)) =~= views(v).push(x@));
}

/// A path always has at least its root component.
pub proof fn lemma_components_nonempty(s: Seq<char>)
    ensures
        components(s).len() >= 1,
{
}

/// Appending one component to a rendered path.
pub proof fn lemma_render_push(cs: Seq<Seq<char>>, c: Seq<char>)
    requires
        cs.len() >= 1,
    ensures
        render(cs.push(c)) == if cs.len() == 1 {
            render(cs) + c
        } else {
            render(cs) + seq!['\\'] + c
        },
{
    let rest = cs.drop_first();
    assert(cs.push(c).drop_first() =~= rest.push(c));
    assert(rest.push(c).drop_last() =~= rest);
    if cs.len() == 1 {
        assert(render(cs.push(c)) =~= render(cs) + c);
    } else {
        assert(join(rest.push(c)) == join(rest) + seq!['\\'] + c);
        assert(render(cs.push(c)) =~= render(cs) + seq!['\\'] + c);
    }
}

/// Splits a path without a network share into its components.
fn plain_path_components(s: &str) -> (r: Vec<String>)
    ensures
        views(r@) == plain_components(s@),
        r@.len() >= 1,
{
    let n = s.unicode_len();
    let mut done: Vec<String> = Vec::new();
    let mut start: usize = 0;
    let mut i: usize = 0;
    while i < n
        invariant
            n == s@.len(),
            start <= i <= n,
            scan(s@.subrange(0, i as int)).0 == views(done@),
            scan(s@.subrange(0, i as int)).1 == s@.subrange(start as int, i as int),
        decreases n - i,
    {
        let c = s.get_char(i);
        assert(s@.subrange(0, i + 1).drop_last() =~= s@.subrange(0, i as int));
        if c == '\\' || c == '/' {
            if done.len() == 0 || start < i {
                let seg = String::from_str(s.substring_char(start, i));
                proof {
                    lemma_views_push(done@, seg);
                }
                done.push(seg);
            }
            start = i + 1;
            assert(s@.subrange(start as int, i + 1) =~= Seq::<char>::empty());
        } else {
            assert(s@.subrange(start as int, i + 1) =~= s@.subrange(start as int, i as int).push(c));
        }
        i = i + 1;
    }
    assert(s@.subrange(0, n as int) =~= s@);
    if done.len() == 0 || start < n {
        let seg = String::from_str(s.substring_char(start, n));
        proof {
            lemma_views_push(done@, seg);
        }
        done.push(seg);
    }
    assert(views(done@).len() == done@.len());
    done
}

/// The position of the first separator at or after `p`, or the length.
fn find_separator(s: &str, p: usize) -> (r: usize)
    requires
        p <= s@.len(),
    ensures
        r == next_separator(s@, p as int),
        p <= r <= s@.len(),
{
    let n = s.unicode_len();
    let mut q = p;
    while q < n
        invariant
            n == s@.len(),
            p <= q <= n,
            next_separator(s@, p as int) == next_separator(s@, q as int),
        decreases n - q,
    {
        let c = s.get_char(q);
        if c == '\\' || c == '/' {
            return q;
        }
        q = q + 1;
    }
    q
}

/// Splits a path into its components.
pub fn path_components(s: &String) -> (r: Vec<String>)
    ensures
        views(r@) == components(s@),
{
    let t = s.as_str();
    let n = t.unicode_len();
    if n > 2 {
        let c0 = t.get_char(0);
        let c1 = t.get_char(1);
        let c2 = t.get_char(2);
        if (c0 == '\\' || c0 == '/') && (c1 == '\\' || c1 == '/') && !(c2 == '\\' || c2 == '/') {
            let a = find_separator(t, 2);
            let e = if a >= n {
                n
            } else {
                find_separator(t, a + 1)
            };
            let root = String::from_str(t.substring_char(0, e));
            let rest = plain_path_components(t.substring_char(e, n));
            let ghost rv = views(rest@);
            let mut out: Vec<String> = Vec::new();
            proof {
                lemma_views_push(out@, root);
            }
            out.push(root);
            let mut k: usize = 1;
            assert(views(out@) =~= seq![root@] + rv.subrange(1, 1));
            while k < rest.len()
                invariant
                    rv == views(rest@),
                    1 <= k <= rest@.len(),
                    views(out@) == seq![root@] + rv.subrange(1, k as int),
                decreases rest.len() - k,
            {
                let x = rest[k].clone();
                proof {
                    lemma_views_push(out@, x);
                }
                out.push(x);
                assert(views(out@) =~= seq![root@] + rv.subrange(1, k + 1));
                k = k + 1;
            }
            assert(rv.subrange(1, rest@.len() as int) =~= rv.drop_first());
            return out;
        }
    }
    plain_path_components(t)
}

/// Renders the first `i + 1` components as a directory path.
pub fn render_prefix(comps: &Vec<String>, i: usize) -> (r: String)
    requires
        i < comps.len(),
    ensures
        r@ == render(views(comps@).subrange(0, i + 1)),
{
    let ghost cv = views(comps@);
    proof {
        reveal_strlit("\\");
    }
    let mut r = comps[0].clone();
    r.append("\\");
    let mut k: usize = 1;
    while k <= i
        invariant
            1 <= k <= i + 1,
            i < comps.len(),
            cv == views(comps@),
            r@ == cv[0] + seq!['\\'] + join(cv.subrange(1, k as int)),
        decreases i + 1 - k,
    {
        proof {
            reveal_strlit("\\");
        }
        if k > 1 {
            r.append("\\");
        }
        r.append(comps[k].as_str());
        let ghost parts = cv.subrange(1, k + 1);
        assert(parts.drop_last() =~= cv.subrange(1, k as int));
        assert(parts.last() == cv[k as int]);
        assert(r@ =~= cv[0] + seq!['\\'] + join(parts));
        k = k + 1;
    }
    assert(cv.subrange(0, i + 1).drop_first() =~= cv.subrange(1, i + 1));
    r
}

/// The path of the entry `child` inside the directory given by the first
/// `i + 1` components.
pub fn child_path(comps: &Vec<String>, i: usize, child: &String) -> (r: String)
    requires
        i < comps.len(),
    ensures
        r@ == render(views(comps@).subrange(0, i + 1).push(child@)),
{
    proof {
        reveal_strlit("\\");
        lemma_render_push(views(comps@).subrange(0, i + 1), child@);
    }
    let mut r = render_prefix(comps, i);
    if i > 0 {
        r.append("\\");
    }
    r.append(child.as_str());
    r
}

/// Whether `a` names `b` or one of its ancestors, component by component.
pub fn starts_with_components(b: &Vec<String>, a: &Vec<String>) -> (r: bool)
    ensures
        r == is_ancestor_or_self(views(a@), views(b@)),
{
    if a.len() > b.len() {
        return false;
    }
    let mut k: usize = 0;
    while k < a.len()
        invariant
            a.len() <= b.len(),
            k <= a.len(),
            forall|j: int| 0 <= j < k ==> views(b@)[j] == views(a@)[j],
        decreases a.len() - k,
    {
        if b[k] != a[k] {
            assert(views(b@).subrange(0, a.len() as int)[k as int] != views(a@)[k as int]);
            return false;
        }
        k = k + 1;
    }
    assert(views(b@).subrange(0, a.len() as int) =~= views(a@));
    true
}

/// Whether `t` occurs in `s`.
pub fn contains_text(s: &str, t: &str) -> (r: bool)
    ensures
        r == has_substring(s@, t@),
{
    let n = s.unicode_len();
    let m = t.unicode_len();
    if m > n {
        return false;
    }
    if m == 0 {
        assert(s@.subrange(0, 0 + t@.len() as int) =~= t@);
        return true;
    }
    let mut i: usize = 0;
    while i < n - m + 1
        invariant
            n == s@.len(),
            m == t@.len(),
            1 <= m <= n,
            i <= n - m + 1,
            forall|p: int| 0 <= p < i ==> #[trigger] s@.subrange(p, p + m) != t@,
        decreases n - m + 1 - i,
    {
        let mut j: usize = 0;
        let mut same = true;
        while j < m
            invariant
                n == s@.len(),
                m == t@.len(),
                i + m <= n,
                j <= m,
                same ==> forall|q: int| 0 <= q < j ==> s@[i + q] == t@[q],
                !same ==> s@.subrange(i as int, i + m) != t@,
            decreases m - j,
        {
            if same && s.get_char(i + j) != t.get_char(j) {
                same = false;
                assert(s@.subrange(i as int, i + m)[j as int] != t@[j as int]);
            }
            j = j + 1;
        }
        if same {
            assert(s@.subrange(i as int, i + m) =~= t@);
            return true;
        }
        i = i + 1;
    }
    assert forall|p: int| 0 <= p && p + t@.len() <= s@.len() implies #[trigger] s@.subrange(
        p,
        p + t@.len(),
    ) != t@ by {
        assert(p < i);
    }
    false
}

} // verus!
