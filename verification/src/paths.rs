//! File paths as sequences of `/`-separated components.
//!
//! A changed file belongs to a package when the package's root-relative
//! directory, read as a sequence of path components, is a prefix of the file
//! path's components. Matching whole components (never raw characters) keeps a
//! file under `lib-core/` from being attributed to a package in
//! `lib-core-ext/`. Empty components (leading, trailing or doubled
//! separators) are dropped, so `a//b/` has the same components as `a/b`.

use vstd::prelude::*;
use crate::strings::str_eq;

verus! {

/// The non-empty `/`-separated components of `s`, in order.
pub open spec fn path_components(s: Seq<char>) -> Seq<Seq<char>>
    decreases s.len(),
{
    if s.len() == 0 {
        seq![]
    } else if s[0] == '/' {
        path_components(s.drop_first())
    } else if s.len() == 1 || s[1] == '/' {
        seq![seq![s[0]]] + path_components(s.drop_first())
    } else {
        let rest = path_components(s.drop_first());
        seq![seq![s[0]] + rest[0]] + rest.drop_first()
    }
}

/// Whether a file at `path` lies in the directory `dir` (or is `dir` itself):
/// the components of `dir` are a leading run of the components of `path`.
pub open spec fn component_prefix(dir: Seq<char>, path: Seq<char>) -> bool {
    path_components(dir).is_prefix_of(path_components(path))
}

/// Splitting off the first component: if `s` opens with `k` non-separator
/// characters followed by a separator (or the end), its components are that
/// run followed by the components of the remainder.
proof fn lemma_components_split(s: Seq<char>, k: int)
    requires
        0 < k <= s.len(),
        forall|t: int| 0 <= t < k ==> s[t] != '/',
        k == s.len() || s[k] == '/',
    ensures
        path_components(s) == seq![s.subrange(0, k)] + path_components(s.skip(k)),
    decreases k,
{
    let d = s.drop_first();
    if k == 1 {
        assert(s.subrange(0, 1) =~= seq![s[0]]);
        assert(s.skip(1) =~= d);
        if s.len() == 1 {
            assert(path_components(s) =~= seq![seq![s[0]]] + path_components(d));
        }
    } else {
        assert(d[0] == s[1]);
        assert(s[1] != '/');
        assert forall|t: int| 0 <= t < k - 1 implies d[t] != '/' by {
            assert(d[t] == s[t + 1]);
        }
        assert(k - 1 == d.len() || d[k - 1] == '/');
        lemma_components_split(d, k - 1);
        let rest = path_components(d);
        assert(rest == seq![d.subrange(0, k - 1)] + path_components(d.skip(k - 1)));
        assert(rest[0] == d.subrange(0, k - 1));
        assert(seq![s[0]] + rest[0] =~= s.subrange(0, k));
        assert(rest.drop_first() =~= path_components(d.skip(k - 1)));
        assert(d.skip(k - 1) =~= s.skip(k));
        assert(path_components(s) == seq![seq![s[0]] + rest[0]] + rest.drop_first());
        assert(seq![seq![s[0]] + rest[0]] + rest.drop_first() =~= seq![s.subrange(0, k)]
            + path_components(s.skip(k)));
    }
}

/// The components of `s`, as owned strings.
pub fn split_components(s: &str) -> (r: Vec<String>)
    ensures
        r.deep_view() == path_components(s@),
    decreases s@.len(),
{
    let n = s.unicode_len();
    if n == 0 {
        let r: Vec<String> = Vec::new();
        proof {
            assert(r.deep_view() =~= path_components(s@));
        }
        return r;
    }
    if s.get_char(0) == '/' {
        let rest = s.substring_char(1, n);
        proof {
            assert(rest@ =~= s@.drop_first());
        }
        let r = split_components(rest);
        return r;
    }
    let mut k: usize = 1;
    while k < n && s.get_char(k) != '/'
        invariant
            1 <= k <= n,
            n == s@.len(),
            forall|t: int| 0 <= t < k ==> s@[t] != '/',
        decreases n - k,
    {
        k += 1;
    }
    let first = s.substring_char(0, k).to_owned();
    let tail = s.substring_char(k, n);
    proof {
        assert(first@ == s@.subrange(0, k as int));
        assert(tail@ =~= s@.skip(k as int));
        lemma_components_split(s@, k as int);
    }
    let mut rest = split_components(tail);
    let mut r: Vec<String> = Vec::new();
    r.push(first);
    r.append(&mut rest);
    proof {
        assert(r.deep_view() =~= path_components(s@));
    }
    r
}

/// Whether the file at `path` lies in the package directory `dir`.
pub fn path_in_dir(path: &str, dir: &str) -> (r: bool)
    ensures
        r == component_prefix(dir@, path@),
{
    let dc = split_components(dir);
    let pc = split_components(path);
    let ghost dv = path_components(dir@);
    let ghost pv = path_components(path@);
    if dc.len() > pc.len() {
        return false;
    }
    let mut i: usize = 0;
    while i < dc.len()
        invariant
            i <= dc.len(),
            dc.len() <= pc.len(),
            dv == path_components(dir@),
            pv == path_components(path@),
            dc.deep_view() == dv,
            pc.deep_view() == pv,
            forall|t: int| 0 <= t < i ==> dv[t] == pv[t],
        decreases dc.len() - i,
    {
        let same = str_eq(dc[i].as_str(), pc[i].as_str());
        proof {
            assert(dv[i as int] == dc@[i as int]@);
            assert(pv[i as int] == pc@[i as int]@);
        }
        if !same {
            proof {
                assert(dv[i as int] != pv[i as int]);
                if dv.is_prefix_of(pv) {
                    assert(dv[i as int] == pv.subrange(0, dv.len() as int)[i as int]);
                    assert(false);
                }
            }
            return false;
        }
        i += 1;
    }
    proof {
        assert(dv =~= pv.subrange(0, dv.len() as int));
    }
    true
}

} // verus!
