//! The working set that an editor maintains: the whitelist, the tier given to
//! new rows, and whether inference runs.
use vstd::prelude::*;
use vstd::string::*;
use crate::access::{Access, Entry};
use crate::blacklist::DirListing;
use crate::path::views;
use crate::rules::{generate_rules, generated_text, rule_entries, rules_text};

verus! {

/// The prefix that marks an extended-length path.
pub open spec fn verbatim_prefix() -> Seq<char> {
    seq!['\\', '\\', '?', '\\']
}

/// `s` with every extended-length prefix removed, scanning from the left.
pub open spec fn strip_verbatim(s: Seq<char>) -> Seq<char>
    decreases s.len(),
{
    if s.len() == 0 {
        seq![]
    } else if s.len() >= 4 && s.subrange(0, 4) == verbatim_prefix() {
        strip_verbatim(s.subrange(4, s.len() as int))
    } else {
        seq![s[0]] + strip_verbatim(s.drop_first())
    }
}

/// The entries whose index is not marked, in order.
pub open spec fn unmarked(entries: Seq<Entry>, marked: Seq<usize>) -> Seq<Entry>
    decreases entries.len(),
{
    if entries.len() == 0 {
        seq![]
    } else {
        unmarked(entries.drop_last(), marked) + if marked.contains(
            (entries.len() - 1) as usize,
        ) {
            seq![]
        } else {
            seq![entries.last()]
        }
    }
}

/// Removes every extended-length prefix from a path.
pub fn strip_extended_prefix(s: &String) -> (r: String)
    ensures
        r@ == strip_verbatim(s@),
{
    let n = s.as_str().unicode_len();
    let mut out = String::new();
    let mut i: usize = 0;
    assert(s@.subrange(0, n as int) =~= s@);
    while i < n
        invariant
            n == s@.len(),
            i <= n,
            strip_verbatim(s@) == out@ + strip_verbatim(s@.subrange(i as int, n as int)),
        decreases n - i,
    {
        let ghost rest = s@.subrange(i as int, n as int);
        if n - i >= 4 && s.as_str().get_char(i) == '\\' && s.as_str().get_char(i + 1) == '\\'
            && s.as_str().get_char(i + 2) == '?' && s.as_str().get_char(i + 3) == '\\' {
            assert(rest.subrange(0, 4) =~= verbatim_prefix());
            assert(rest.subrange(4, rest.len() as int) =~= s@.subrange(i + 4, n as int));
            i = i + 4;
        } else {
            assert(!(rest.len() >= 4 && rest.subrange(0, 4) == verbatim_prefix())) by {
                if rest.len() >= 4 && rest.subrange(0, 4) == verbatim_prefix() {
                    assert(rest.subrange(0, 4)[0] == s@[i as int]);
                    assert(rest.subrange(0, 4)[1] == s@[i + 1]);
                    assert(rest.subrange(0, 4)[2] == s@[i + 2]);
                    assert(rest.subrange(0, 4)[3] == s@[i + 3]);
                }
            }
            let one = s.as_str().substring_char(i, i + 1);
            out.append(one);
            assert(rest.drop_first() =~= s@.subrange(i + 1, n as int));
            assert(one@ =~= seq![rest[0]]);
            assert(strip_verbatim(s@) =~= out@ + strip_verbatim(s@.subrange(i + 1, n as int)));
            i = i + 1;
        }
    }
    assert(out@ + strip_verbatim(s@.subrange(n as int, n as int)) =~= out@);
    out
}

/// The whitelist being edited, with the tier given to new rows and the
/// privacy flag that selects whether deny rules are inferred.
pub struct WorkingSet {
    pub entries: Vec<Entry>,
    pub default_access: Access,
    pub privacy_mode: bool,
}

impl WorkingSet {
    /// A new, empty working set: no rows, privacy mode on, new rows open.
    pub fn new() -> (r: WorkingSet)
        ensures
            r.entries@.len() == 0,
            r.privacy_mode,
            r.default_access == Access::Open,
    {
        WorkingSet { entries: Vec::new(), default_access: Access::Open, privacy_mode: true }
    }

    /// Appends a row with an empty path and the default tier.
    pub fn add_blank_entry(&mut self)
        ensures
            final(self).entries@.len() == old(self).entries@.len() + 1,
            final(self).entries@.subrange(0, old(self).entries@.len() as int)
                == old(self).entries@,
            final(self).entries@.last().path@.len() == 0,
            final(self).entries@.last().access == old(self).default_access,
            final(self).default_access == old(self).default_access,
            final(self).privacy_mode == old(self).privacy_mode,
    {
        let e = Entry { path: String::new(), access: self.default_access };
        self.entries.push(e);
        assert(self.entries@.subrange(0, old(self).entries@.len() as int) =~= old(self).entries@);
    }

    /// Removes the rows whose indices are marked, keeping the order of the others.
    pub fn remove_marked(&mut self, marked: &Vec<usize>)
        ensures
            final(self).entries@ == unmarked(old(self).entries@, marked@),
            final(self).default_access == old(self).default_access,
            final(self).privacy_mode == old(self).privacy_mode,
    {
        let ghost orig = self.entries@;
        let mut kept: Vec<Entry> = Vec::new();
        let mut k: usize = 0;
        assert(orig.subrange(0, 0) =~= Seq::<Entry>::empty());
        while k < self.entries.len()
            invariant
                orig == self.entries@,
                k <= orig.len(),
                kept@ == unmarked(orig.subrange(0, k as int), marked@),
            decreases orig.len() - k,
        {
            let ghost upto = orig.subrange(0, k + 1);
            assert(upto.drop_last() =~= orig.subrange(0, k as int));
            let mut hit = false;
            let mut m: usize = 0;
            while m < marked.len()
                invariant
                    m <= marked@.len(),
                    hit == exists|q: int| 0 <= q < m && marked@[q] == k,
                decreases marked.len() - m,
            {
                if marked[m] == k {
                    hit = true;
                }
                m = m + 1;
            }
            if !hit {
                let e = Entry { path: self.entries[k].path.clone(), access: self.entries[k].access };
                assert(e == orig[k as int]);
                kept.push(e);
                assert(kept@ =~= unmarked(orig.subrange(0, k as int), marked@) + seq![upto.last()]);
            } else {
                assert(marked@.contains(k));
                assert(kept@ =~= unmarked(orig.subrange(0, k as int), marked@) + seq![]);
            }
            k = k + 1;
        }
        assert(orig.subrange(0, orig.len() as int) =~= orig);
        self.entries = kept;
    }

    /// Appends one row per picked path, with its extended-length prefix
    /// removed and the default tier.
    pub fn add_picked(&mut self, paths: &Vec<String>)
        ensures
            final(self).entries@.len() == old(self).entries@.len() + paths@.len(),
            final(self).entries@.subrange(0, old(self).entries@.len() as int)
                == old(self).entries@,
            forall|k: int|
                0 <= k < paths@.len() ==> (#[trigger] final(self).entries@[old(self).entries@.len() + k]).path@
                    == strip_verbatim(paths@[k]@)
                    && final(self).entries@[old(self).entries@.len() + k].access
                    == old(self).default_access,
            final(self).default_access == old(self).default_access,
            final(self).privacy_mode == old(self).privacy_mode,
    {
        let ghost start = self.entries@;
        let mut k: usize = 0;
        while k < paths.len()
            invariant
                k <= paths@.len(),
                self.entries@.len() == start.len() + k,
                self.entries@.subrange(0, start.len() as int) == start,
                forall|q: int|
                    0 <= q < k ==> (#[trigger] self.entries@[start.len() + q]).path@
                        == strip_verbatim(paths@[q]@) && self.entries@[start.len() + q].access
                        == old(self).default_access,
                self.default_access == old(self).default_access,
                self.privacy_mode == old(self).privacy_mode,
            decreases paths.len() - k,
        {
            let p = strip_extended_prefix(&paths[k]);
            let e = Entry { path: p, access: self.default_access };
            let ghost before = self.entries@;
            self.entries.push(e);
            assert(self.entries@.subrange(0, start.len() as int) =~= before.subrange(
                0,
                start.len() as int,
            ));
            assert(self.entries@[start.len() + k] == e);
            k = k + 1;
        }
    }

    /// Whether the row at `index` gets its own tier selector: its path is not
    /// empty and no earlier row has the same path.
    pub fn shows_access_selector(&self, index: usize) -> (r: bool)
        requires
            index < self.entries@.len(),
        ensures
            r == (self.entries@[index as int].path@.len() > 0 && forall|j: int|
                0 <= j < index ==> (#[trigger] self.entries@[j]).path@
                    != self.entries@[index as int].path@),
    {
        if self.entries[index].path.as_str().is_empty() {
            return false;
        }
        let mut j: usize = 0;
        while j < index
            invariant
                index < self.entries@.len(),
                j <= index,
                forall|q: int| 0 <= q < j ==> (#[trigger] self.entries@[q]).path@
                    != self.entries@[index as int].path@,
            decreases index - j,
        {
            if self.entries[j].path == self.entries[index].path {
                return false;
            }
            j = j + 1;
        }
        true
    }

    /// The entries that the rule file of this working set lists, given the
    /// directory listings; rendering them gives the text of `generate`.
    pub fn rule_entries(&self, listings: &Vec<DirListing>) -> (r: Vec<Entry>)
        ensures
            r@.subrange(0, self.entries@.len() as int) == self.entries@,
            forall|dirs: Seq<Seq<char>>|
                #[trigger] rules_text(r@, dirs) == generated_text(
                    self.entries@,
                    self.privacy_mode,
                    listings@,
                    dirs,
                ),
    {
        rule_entries(&self.entries, self.privacy_mode, listings)
    }

    /// The rule file of this working set; `listings` and `directories` are
    /// what the filesystem showed when generation was asked for.
    pub fn generate(&self, listings: &Vec<DirListing>, directories: &Vec<String>) -> (r: String)
        ensures
            r@ == generated_text(self.entries@, self.privacy_mode, listings@, views(directories@)),
    {
        generate_rules(&self.entries, self.privacy_mode, listings, directories)
    }
}

} // verus!
