//! Exclusion rules: hide packages from the output lists.
//!
//! A rule that contains a `/` is a *path rule*: after stripping one trailing
//! `/`, it matches a package whose root-relative directory equals the rule, or
//! extends it across a `/` boundary (`tools/` hides `tools/x` but not
//! `tools-other/x`). A rule without a `/` is a *name rule* and matches the
//! package name exactly. Exclusion only filters output lists; the dependency
//! traversal never consults it.

use vstd::prelude::*;
use crate::strings::str_eq;

verus! {

/// Whether `rule` is matched against a package's directory (it holds a `/`)
/// rather than against its name.
pub open spec fn is_path_rule(rule: Seq<char>) -> bool {
    rule.contains('/')
}

/// A path rule with one trailing `/` removed.
pub open spec fn rule_prefix(rule: Seq<char>) -> Seq<char> {
    if rule.len() > 0 && rule.last() == '/' {
        rule.drop_last()
    } else {
        rule
    }
}

/// Whether a path rule matches the directory `dir`: equal to the stripped
/// rule, or extending it with `/` and more.
pub open spec fn path_rule_matches(rule: Seq<char>, dir: Seq<char>) -> bool {
    let p = rule_prefix(rule);
    dir == p || (dir.len() > p.len() && dir.subrange(0, p.len() as int) == p && dir[p.len() as int]
        == '/')
}

/// Whether one exclusion rule hides the package with this name and directory.
pub open spec fn rule_excludes(rule: Seq<char>, name: Seq<char>, dir: Seq<char>) -> bool {
    if is_path_rule(rule) {
        path_rule_matches(rule, dir)
    } else {
        rule == name
    }
}

/// Whether any rule in `rules` hides the package with this name and directory.
pub open spec fn spec_excluded(name: Seq<char>, dir: Seq<char>, rules: Seq<String>) -> bool {
    exists|r: int| 0 <= r < rules.len() && rule_excludes(rules[r]@, name, dir)
}

fn rule_matches(rule: &str, pkg_name: &str, pkg_rel_dir: &str) -> (r: bool)
    ensures
        r == rule_excludes(rule@, pkg_name@, pkg_rel_dir@),
{
    if !crate::strings::contains_char(rule, '/') {
        return str_eq(rule, pkg_name);
    }
    let rlen = rule.unicode_len();
    let plen = if rlen > 0 && rule.get_char(rlen - 1) == '/' {
        rlen - 1
    } else {
        rlen
    };
    let ghost p = rule_prefix(rule@);
    proof {
        if rlen > 0 && rule@.last() == '/' {
            assert(p =~= rule@.subrange(0, plen as int));
        } else {
            assert(p =~= rule@.subrange(0, plen as int));
        }
        assert(p.len() == plen);
    }
    let dlen = pkg_rel_dir.unicode_len();
    if dlen < plen {
        return false;
    }
    let mut i: usize = 0;
    while i < plen
        invariant
            i <= plen,
            plen <= rlen,
            plen <= dlen,
            rlen == rule@.len(),
            dlen == pkg_rel_dir@.len(),
            is_path_rule(rule@),
            p == rule_prefix(rule@),
            p == rule@.subrange(0, plen as int),
            p.len() == plen,
            forall|t: int| 0 <= t < i ==> pkg_rel_dir@[t] == p[t],
        decreases plen - i,
    {
        let cd = pkg_rel_dir.get_char(i);
        let cr = rule.get_char(i);
        proof {
            assert(p[i as int] == rule@[i as int]);
        }
        if cd != cr {
            proof {
                assert(pkg_rel_dir@[i as int] != p[i as int]);
                if pkg_rel_dir@ == p {
                    assert(pkg_rel_dir@[i as int] == p[i as int]);
                }
                if pkg_rel_dir@.subrange(0, plen as int) == p {
                    assert(pkg_rel_dir@.subrange(0, plen as int)[i as int] == p[i as int]);
                }
            }
            return false;
        }
        i += 1;
    }
    if dlen == plen {
        proof {
            assert(pkg_rel_dir@ =~= p);
        }
        return true;
    }
    let boundary = pkg_rel_dir.get_char(plen);
    proof {
        assert(pkg_rel_dir@.subrange(0, plen as int) =~= p);
        assert(pkg_rel_dir@.len() > p.len());
    }
    boundary == '/'
}

/// Whether the package with this name and root-relative directory is hidden by
/// one of the exclusion rules.
pub fn is_excluded(pkg_name: &str, pkg_rel_dir: &str, excluded: &Vec<String>) -> (r: bool)
    ensures
        r == spec_excluded(pkg_name@, pkg_rel_dir@, excluded@),
{
    let mut e: usize = 0;
    while e < excluded.len()
        invariant
            e <= excluded@.len(),
            forall|t: int| 0 <= t < e ==> !rule_excludes(excluded@[t]@, pkg_name@, pkg_rel_dir@),
        decreases excluded@.len() - e,
    {
        if rule_matches(excluded[e].as_str(), pkg_name, pkg_rel_dir) {
            return true;
        }
        e += 1;
    }
    false
}

} // verus!
