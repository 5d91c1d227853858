//! The text of the rule file: a header line, then one `KEY=path` line per
//! entry with a non-empty path, with `\*` after the path of a directory.
use vstd::prelude::*;
use vstd::string::*;
use crate::access::{ini_key, Access, Entry};
use crate::blacklist::{blacklist_paths, generate_blacklist, DirListing};
use crate::blacklist::contains_path;
use crate::path::views;

verus! {

/// The comment line that opens every rule file.
pub open spec fn header_text() -> Seq<char> {
    "# Generated by jameender/sandboxie-whitelist"@
}

/// The directory wildcard after `p` when `p` is a directory.
pub open spec fn dir_suffix(p: Seq<char>, dirs: Seq<Seq<char>>) -> Seq<char> {
    if dirs.contains(p) {
        "\\*"@
    } else {
        seq![]
    }
}

/// One rule line, without its line break.
pub open spec fn rule_line(key: Seq<char>, p: Seq<char>, dirs: Seq<Seq<char>>) -> Seq<char> {
    key + "="@ + p + dir_suffix(p, dirs)
}

/// The rule lines of `entries`, in order, skipping empty paths.
pub open spec fn rule_lines(entries: Seq<Entry>, dirs: Seq<Seq<char>>) -> Seq<Seq<char>>
    decreases entries.len(),
{
    if entries.len() == 0 {
        seq![]
    } else {
        let e = entries.last();
        rule_lines(entries.drop_last(), dirs) + if e.path@.len() > 0 {
            seq![rule_line(ini_key(e.access), e.path@, dirs)]
        } else {
            seq![]
        }
    }
}

/// The `BoxOnly` rule lines of `paths`, in order, skipping empty paths.
pub open spec fn deny_lines(paths: Seq<Seq<char>>, dirs: Seq<Seq<char>>) -> Seq<Seq<char>>
    decreases paths.len(),
{
    if paths.len() == 0 {
        seq![]
    } else {
        let p = paths.last();
        deny_lines(paths.drop_last(), dirs) + if p.len() > 0 {
            seq![rule_line(ini_key(Access::BoxOnly), p, dirs)]
        } else {
            seq![]
        }
    }
}

/// Lines, each preceded by a line break.
pub open spec fn body(lines: Seq<Seq<char>>) -> Seq<char>
    decreases lines.len(),
{
    if lines.len() == 0 {
        seq![]
    } else {
        body(lines.drop_last()) + "\n"@ + lines.last()
    }
}

/// Lines joined by single line breaks.
pub open spec fn joined(lines: Seq<Seq<char>>) -> Seq<char>
    decreases lines.len(),
{
    if lines.len() == 0 {
        seq![]
    } else if lines.len() == 1 {
        lines[0]
    } else {
        joined(lines.drop_last()) + "\n"@ + lines.last()
    }
}

/// The number of entries with a non-empty path.
pub open spec fn count_nonempty(entries: Seq<Entry>) -> nat
    decreases entries.len(),
{
    if entries.len() == 0 {
        0
    } else {
        count_nonempty(entries.drop_last()) + if entries.last().path@.len() > 0 {
            1nat
        } else {
            0nat
        }
    }
}

/// The text of the rule file for `entries`; `dirs` are the paths that are
/// directories.
pub open spec fn rules_text(entries: Seq<Entry>, dirs: Seq<Seq<char>>) -> Seq<char> {
    header_text() + "\n"@ + joined(rule_lines(entries, dirs))
}

/// The text generated from a whitelist: its own rules, then, in privacy mode,
/// the inferred deny rules.
pub open spec fn generated_text(
    wl: Seq<Entry>,
    privacy_mode: bool,
    ls: Seq<DirListing>,
    dirs: Seq<Seq<char>>,
) -> Seq<char> {
    header_text() + "\n"@ + joined(
        rule_lines(wl, dirs) + if privacy_mode {
            deny_lines(blacklist_paths(wl, ls), dirs)
        } else {
            seq![]
        },
    )
}

/// Lines given in two parts make the two bodies one after the other.
pub proof fn lemma_body_concat(a: Seq<Seq<char>>, b: Seq<Seq<char>>)
    ensures
        body(a + b) == body(a) + body(b),
    decreases b.len(),
{
    if b.len() == 0 {
        assert(a + b =~= a);
        assert(body(a) + body(b) =~= body(a));
    } else {
        assert((a + b).drop_last() =~= a + b.drop_last());
        lemma_body_concat(a, b.drop_last());
        assert(body(a + b) =~= body(a) + body(b));
    }
}

/// At least one line: a line break before each is a line break, then the
/// lines joined.
pub proof fn lemma_body_joined(lines: Seq<Seq<char>>)
    requires
        lines.len() > 0,
    ensures
        body(lines) == "\n"@ + joined(lines),
    decreases lines.len(),
{
    if lines.len() == 1 {
        assert(lines.drop_last() =~= Seq::<Seq<char>>::empty());
        assert(body(lines.drop_last()) == Seq::<char>::empty());
        assert(lines.last() == lines[0]);
        assert(body(lines) =~= "\n"@ + joined(lines));
    } else {
        lemma_body_joined(lines.drop_last());
        assert(body(lines) =~= "\n"@ + joined(lines));
    }
}

/// Appends the rule line of `e`, if its path is not empty, after a line break.
fn append_rule(out: &mut String, e: &Entry, directories: &Vec<String>)
    ensures
        final(out)@ == old(out)@ + if e.path@.len() > 0 {
            "\n"@ + rule_line(ini_key(e.access), e.path@, views(directories@))
        } else {
            seq![]
        },
{
    if e.path.as_str().is_empty() {
        assert(out@ =~= old(out)@ + seq![]);
        return;
    }
    let key = e.access.to_ini_string();
    out.append("\n");
    out.append(key.as_str());
    out.append("=");
    out.append(e.path.as_str());
    let is_dir = contains_path(directories, &e.path);
    if is_dir {
        out.append("\\*");
    }
    assert(out@ =~= old(out)@ + ("\n"@ + rule_line(ini_key(e.access), e.path@, views(directories@))));
}

/// Appends the rule lines of `entries`.
fn append_rules(out: &mut String, entries: &Vec<Entry>, directories: &Vec<String>) -> (any: bool)
    ensures
        final(out)@ == old(out)@ + body(rule_lines(entries@, views(directories@))),
        any == (rule_lines(entries@, views(directories@)).len() > 0),
{
    let mut any = false;
    let ghost d = views(directories@);
    let mut k: usize = 0;
    assert(entries@.subrange(0, 0) =~= Seq::<Entry>::empty());
    assert(out@ =~= old(out)@ + body(rule_lines(entries@.subrange(0, 0), d)));
    while k < entries.len()
        invariant
            d == views(directories@),
            k <= entries@.len(),
            out@ == old(out)@ + body(rule_lines(entries@.subrange(0, k as int), d)),
            any == (rule_lines(entries@.subrange(0, k as int), d).len() > 0),
        decreases entries.len() - k,
    {
        let ghost prev = rule_lines(entries@.subrange(0, k as int), d);
        let ghost upto = entries@.subrange(0, k + 1);
        assert(upto.drop_last() =~= entries@.subrange(0, k as int));
        assert(upto.last() == entries@[k as int]);
        append_rule(out, &entries[k], directories);
        if entries[k].path.as_str().is_empty() {
            assert(prev + seq![] =~= prev);
        } else {
            let ghost line = rule_line(ini_key(entries@[k as int].access), entries@[k as int].path@, d);
            assert((prev + seq![line]).drop_last() =~= prev);
            assert(out@ =~= old(out)@ + body(prev + seq![line]));
            any = true;
        }
        k = k + 1;
    }
    assert(entries@.subrange(0, entries@.len() as int) =~= entries@);
    any
}

/// Renders entries as the rule file: the header line, then one rule line per
/// entry with a non-empty path. `directories` are the paths that were
/// directories when the rules were generated.
pub fn serialize_rules(entries: &Vec<Entry>, directories: &Vec<String>) -> (r: String)
    ensures
        r@ == rules_text(entries@, views(directories@)),
{
    let ghost d = views(directories@);
    let mut out = String::from_str("# Generated by jameender/sandboxie-whitelist");
    let any = append_rules(&mut out, entries, directories);
    if any {
        proof {
            lemma_body_joined(rule_lines(entries@, d));
        }
    } else {
        out.append("\n");
    }
    assert(out@ =~= rules_text(entries@, d));
    out
}

/// The deny rules given by `generate_blacklist` render as the `BoxOnly` lines
/// of their paths.
proof fn lemma_deny_rule_lines(bl: Seq<Entry>, paths: Seq<Seq<char>>, dirs: Seq<Seq<char>>)
    requires
        bl.len() == paths.len(),
        forall|k: int|
            0 <= k < bl.len() ==> (#[trigger] bl[k]).path@ == paths[k] && bl[k].access
                == Access::BoxOnly,
    ensures
        rule_lines(bl, dirs) == deny_lines(paths, dirs),
    decreases bl.len(),
{
    if bl.len() > 0 {
        let b2 = bl.drop_last();
        let p2 = paths.drop_last();
        assert forall|k: int| 0 <= k < b2.len() implies (#[trigger] b2[k]).path@ == p2[k]
            && b2[k].access == Access::BoxOnly by {
            assert(b2[k] == bl[k]);
        }
        lemma_deny_rule_lines(b2, p2, dirs);
        assert(bl.last() == bl[bl.len() - 1]);
    }
}

/// Generates the rule file for a whitelist: the whitelist's own rules, then,
/// in privacy mode, the deny rules inferred from `listings`. Without privacy
/// mode no inference takes place.
pub fn generate_rules(
    whitelist: &Vec<Entry>,
    privacy_mode: bool,
    listings: &Vec<DirListing>,
    directories: &Vec<String>,
) -> (r: String)
    ensures
        r@ == generated_text(whitelist@, privacy_mode, listings@, views(directories@)),
{
    let ghost d = views(directories@);
    let ghost lines = rule_lines(whitelist@, d) + if privacy_mode {
        deny_lines(blacklist_paths(whitelist@, listings@), d)
    } else {
        seq![]
    };
    let mut out = String::from_str("# Generated by jameender/sandboxie-whitelist");
    let mut any = append_rules(&mut out, whitelist, directories);
    if privacy_mode {
        let blacklist = generate_blacklist(whitelist, listings);
        let more = append_rules(&mut out, &blacklist, directories);
        any = any || more;
        proof {
            lemma_deny_rule_lines(blacklist@, blacklist_paths(whitelist@, listings@), d);
            lemma_body_concat(rule_lines(whitelist@, d), rule_lines(blacklist@, d));
        }
        assert(out@ =~= header_text() + body(lines));
    } else {
        assert(rule_lines(whitelist@, d) + seq![] =~= rule_lines(whitelist@, d));
    }
    if any {
        proof {
            lemma_body_joined(lines);
        }
    } else {
        out.append("\n");
    }
    assert(out@ =~= generated_text(whitelist@, privacy_mode, listings@, d));
    out
}


/// The rule lines of two lists are those of the first, then those of the second.
pub proof fn lemma_rule_lines_concat(a: Seq<Entry>, b: Seq<Entry>, dirs: Seq<Seq<char>>)
    ensures
        rule_lines(a + b, dirs) == rule_lines(a, dirs) + rule_lines(b, dirs),
    decreases b.len(),
{
    if b.len() == 0 {
        assert(a + b =~= a);
        assert(rule_lines(a, dirs) + rule_lines(b, dirs) =~= rule_lines(a, dirs));
    } else {
        assert((a + b).drop_last() =~= a + b.drop_last());
        assert((a + b).last() == b.last());
        lemma_rule_lines_concat(a, b.drop_last(), dirs);
        assert(rule_lines(a + b, dirs) =~= rule_lines(a, dirs) + rule_lines(b, dirs));
    }
}

/// The entries that the rule file lists: the whitelist, then, in privacy
/// mode, the inferred deny rules. Rendering them with `serialize_rules` gives
/// the text of `generate_rules`, whichever paths are directories.
pub fn rule_entries(whitelist: &Vec<Entry>, privacy_mode: bool, listings: &Vec<DirListing>) -> (r:
    Vec<Entry>)
    ensures
        r@.len() == whitelist@.len() + if privacy_mode {
            blacklist_paths(whitelist@, listings@).len()
        } else {
            0
        },
        r@.subrange(0, whitelist@.len() as int) == whitelist@,
        forall|k: int|
            0 <= k < r@.len() - whitelist@.len() ==> (#[trigger] r@[whitelist@.len() + k]).path@
                == blacklist_paths(whitelist@, listings@)[k] && r@[whitelist@.len()
                + k].access == Access::BoxOnly,
        forall|dirs: Seq<Seq<char>>|
            #[trigger] rules_text(r@, dirs) == generated_text(
                whitelist@,
                privacy_mode,
                listings@,
                dirs,
            ),
{
    let mut out: Vec<Entry> = Vec::new();
    let mut k: usize = 0;
    while k < whitelist.len()
        invariant
            k <= whitelist@.len(),
            out@ == whitelist@.subrange(0, k as int),
        decreases whitelist.len() - k,
    {
        let e = Entry { path: whitelist[k].path.clone(), access: whitelist[k].access };
        out.push(e);
        assert(out@ =~= whitelist@.subrange(0, k + 1));
        k = k + 1;
    }
    assert(whitelist@.subrange(0, whitelist@.len() as int) =~= whitelist@);
    if privacy_mode {
        let blacklist = generate_blacklist(whitelist, listings);
        let mut m: usize = 0;
        while m < blacklist.len()
            invariant
                m <= blacklist@.len(),
                out@ == whitelist@ + blacklist@.subrange(0, m as int),
            decreases blacklist.len() - m,
        {
            let e = Entry { path: blacklist[m].path.clone(), access: blacklist[m].access };
            out.push(e);
            assert(out@ =~= whitelist@ + blacklist@.subrange(0, m + 1));
            m = m + 1;
        }
        assert(blacklist@.subrange(0, blacklist@.len() as int) =~= blacklist@);
        assert(out@.subrange(0, whitelist@.len() as int) =~= whitelist@);
        assert forall|dirs: Seq<Seq<char>>|
            #[trigger] rules_text(out@, dirs) == generated_text(
                whitelist@,
                privacy_mode,
                listings@,
                dirs,
            ) by {
            lemma_rule_lines_concat(whitelist@, blacklist@, dirs);
            lemma_deny_rule_lines(blacklist@, blacklist_paths(whitelist@, listings@), dirs);
        }
    } else {
        assert forall|dirs: Seq<Seq<char>>|
            #[trigger] rules_text(out@, dirs) == generated_text(
                whitelist@,
                privacy_mode,
                listings@,
                dirs,
            ) by {
            assert(rule_lines(whitelist@, dirs) + seq![] =~= rule_lines(whitelist@, dirs));
        }
    }
    out
}

} // verus!
