//! Laws of the affected-set computation, stated and proved over the same spec
//! functions that [`crate::affected::compute_affected`]'s contract uses.

use vstd::prelude::*;
use crate::affected::affected_result_spec;
use crate::affected::direct_idx;
use crate::affected::direct_set;
use crate::affected::in_affected_list;
use crate::affected::pkg_excluded;
use crate::exclude::is_path_rule;
use crate::exclude::rule_excludes;
use crate::exclude::rule_prefix;
use crate::graph::DependencyGraph;
use crate::graph::valid_path;
use crate::names::names_contain;
use crate::names::strictly_sorted_names;
use crate::paths::component_prefix;
use crate::paths::path_components;
use crate::strings::lemma_lex_lt_asymmetric;
use crate::strings::lemma_lex_lt_irreflexive;
use crate::triggers::TriggerPatternError;
use crate::triggers::first_invalid_trigger;
use crate::triggers::glob_match;
use crate::triggers::normalized_trigger;
use crate::triggers::spec_force_all;
use crate::AffectedResult;

verus! {

/// A strictly sorted name list holds no name twice: the sort order of the
/// output lists is what rules duplicates out.
pub proof fn lemma_sorted_names_no_duplicates(s: Seq<String>)
    requires
        strictly_sorted_names(s),
    ensures
        forall|i: int, j: int| 0 <= i < j < s.len() ==> s[i]@ != s[j]@,
{
    assert forall|i: int, j: int| 0 <= i < j < s.len() implies s[i]@ != s[j]@ by {
        lemma_lex_lt_irreflexive(s[i]@);
    }
}

/// Two entries spell the same names in the same order.
pub open spec fn same_names(s1: Seq<String>, s2: Seq<String>) -> bool {
    s1.len() == s2.len() && forall|i: int| 0 <= i < s1.len() ==> s1[i]@ == s2[i]@
}

/// A strictly sorted name list is determined by which names it holds.
pub proof fn lemma_strictly_sorted_same_names(s1: Seq<String>, s2: Seq<String>)
    requires
        strictly_sorted_names(s1),
        strictly_sorted_names(s2),
        forall|x: Seq<char>| names_contain(s1, x) <==> names_contain(s2, x),
    ensures
        same_names(s1, s2),
    decreases s1.len(),
{
    if s1.len() == 0 {
        if s2.len() > 0 {
            assert(names_contain(s2, s2[0]@));
            assert(names_contain(s1, s2[0]@));
            let i = choose|i: int| 0 <= i < s1.len() && s1[i]@ == s2[0]@;
            assert(false);
        }
    } else if s2.len() == 0 {
        assert(names_contain(s1, s1[0]@));
        assert(names_contain(s2, s1[0]@));
        let i = choose|i: int| 0 <= i < s2.len() && s2[i]@ == s1[0]@;
        assert(false);
    } else {
        assert(names_contain(s1, s1[0]@));
        assert(names_contain(s2, s1[0]@));
        let i2 = choose|i: int| 0 <= i < s2.len() && s2[i]@ == s1[0]@;
        assert(names_contain(s2, s2[0]@));
        assert(names_contain(s1, s2[0]@));
        let i1 = choose|i: int| 0 <= i < s1.len() && s1[i]@ == s2[0]@;
        if i1 > 0 && i2 > 0 {
            assert(crate::strings::lex_lt(s1[0]@, s1[i1]@));
            assert(crate::strings::lex_lt(s2[0]@, s2[i2]@));
            lemma_lex_lt_asymmetric(s1[0]@, s2[0]@);
            assert(false);
        }
        assert(s1[0]@ == s2[0]@);
        let t1 = s1.drop_first();
        let t2 = s2.drop_first();
        assert forall|i: int, j: int| 0 <= i < j < t1.len() implies crate::strings::lex_lt(
            t1[i]@,
            t1[j]@,
        ) by {
            assert(t1[i] == s1[i + 1] && t1[j] == s1[j + 1]);
        }
        assert forall|i: int, j: int| 0 <= i < j < t2.len() implies crate::strings::lex_lt(
            t2[i]@,
            t2[j]@,
        ) by {
            assert(t2[i] == s2[i + 1] && t2[j] == s2[j + 1]);
        }
        assert forall|x: Seq<char>| names_contain(t1, x) <==> names_contain(t2, x) by {
            if names_contain(t1, x) {
                let i = choose|i: int| 0 <= i < t1.len() && t1[i]@ == x;
                assert(s1[i + 1]@ == x);
                assert(names_contain(s1, x));
                if x == s1[0]@ {
                    assert(crate::strings::lex_lt(s1[0]@, s1[i + 1]@));
                    lemma_lex_lt_irreflexive(x);
                    assert(false);
                }
                assert(names_contain(s2, x));
                let j = choose|j: int| 0 <= j < s2.len() && s2[j]@ == x;
                assert(j != 0);
                assert(t2[j - 1]@ == x);
                assert(names_contain(t2, x));
            }
            if names_contain(t2, x) {
                let i = choose|i: int| 0 <= i < t2.len() && t2[i]@ == x;
                assert(s2[i + 1]@ == x);
                assert(names_contain(s2, x));
                if x == s2[0]@ {
                    assert(crate::strings::lex_lt(s2[0]@, s2[i + 1]@));
                    lemma_lex_lt_irreflexive(x);
                    assert(false);
                }
                assert(names_contain(s1, x));
                let j = choose|j: int| 0 <= j < s1.len() && s1[j]@ == x;
                assert(j != 0);
                assert(t1[j - 1]@ == x);
                assert(names_contain(t1, x));
            }
        }
        lemma_strictly_sorted_same_names(t1, t2);
        assert forall|i: int| 0 <= i < s1.len() implies s1[i]@ == s2[i]@ by {
            if i > 0 {
                assert(t1[i - 1] == s1[i] && t2[i - 1] == s2[i]);
            }
        }
    }
}

/// The computation is deterministic: two results that both meet the contract
/// for the same graph, changed files, triggers and exclusion rules agree on
/// everything observable — success or failure, the force-all flag, the three
/// name lists, and the reported pattern.
pub proof fn lemma_affected_result_deterministic(
    g: DependencyGraph,
    files: Seq<String>,
    triggers: Seq<String>,
    rules: Seq<String>,
    r1: Result<AffectedResult, TriggerPatternError>,
    r2: Result<AffectedResult, TriggerPatternError>,
)
    requires
        affected_result_spec(g, files, triggers, rules, r1),
        affected_result_spec(g, files, triggers, rules, r2),
    ensures
        r1 is Ok <==> r2 is Ok,
        r1 matches Ok(a1) ==> r2 matches Ok(a2) ==> {
            &&& a1.force_all == a2.force_all
            &&& same_names(a1.changed_crates@, a2.changed_crates@)
            &&& same_names(a1.affected_library_members@, a2.affected_library_members@)
            &&& same_names(a1.affected_binary_members@, a2.affected_binary_members@)
        },
        r1 matches Err(e1) ==> r2 matches Err(e2) ==> e1.pattern@ == e2.pattern@,
{
    if r1 is Ok && r2 is Err {
        let e = r2->Err_0;
        let i = choose|i: int|
            0 <= i < triggers.len() && !crate::triggers::glob_pattern_ok(
                normalized_trigger(triggers[i]@),
            ) && (forall|j: int|
                0 <= j < i ==> crate::triggers::glob_pattern_ok(normalized_trigger(triggers[j]@)))
                && e.pattern@ == normalized_trigger(triggers[i]@);
        assert(false);
    }
    if r1 is Err && r2 is Ok {
        let e = r1->Err_0;
        let i = choose|i: int|
            0 <= i < triggers.len() && !crate::triggers::glob_pattern_ok(
                normalized_trigger(triggers[i]@),
            ) && (forall|j: int|
                0 <= j < i ==> crate::triggers::glob_pattern_ok(normalized_trigger(triggers[j]@)))
                && e.pattern@ == normalized_trigger(triggers[i]@);
        assert(false);
    }
    if r1 is Ok && r2 is Ok {
        let a1 = r1->Ok_0;
        let a2 = r2->Ok_0;
        lemma_strictly_sorted_same_names(a1.changed_crates@, a2.changed_crates@);
        lemma_strictly_sorted_same_names(
            a1.affected_library_members@,
            a2.affected_library_members@,
        );
        lemma_strictly_sorted_same_names(a1.affected_binary_members@, a2.affected_binary_members@);
    }
    if r1 is Err && r2 is Err {
        let e1 = r1->Err_0;
        let e2 = r2->Err_0;
        let i1 = choose|i: int|
            0 <= i < triggers.len() && !crate::triggers::glob_pattern_ok(
                normalized_trigger(triggers[i]@),
            ) && (forall|j: int|
                0 <= j < i ==> crate::triggers::glob_pattern_ok(normalized_trigger(triggers[j]@)))
                && e1.pattern@ == normalized_trigger(triggers[i]@);
        let i2 = choose|i: int|
            0 <= i < triggers.len() && !crate::triggers::glob_pattern_ok(
                normalized_trigger(triggers[i]@),
            ) && (forall|j: int|
                0 <= j < i ==> crate::triggers::glob_pattern_ok(normalized_trigger(triggers[j]@)))
                && e2.pattern@ == normalized_trigger(triggers[i]@);
        assert(i1 == i2);
    }
}

/// Adding changed files never removes a name from `affectedLibraryMembers`:
/// both the direct set and the force-all decision only grow with the changed
/// set, and reachability only grows with its seed set.
pub proof fn lemma_affected_monotone(
    g: DependencyGraph,
    files1: Seq<String>,
    files2: Seq<String>,
    triggers: Seq<String>,
    rules: Seq<String>,
    x: Seq<char>,
)
    requires
        forall|k: int| 0 <= k < files1.len() ==> #[trigger] names_contain(files2, files1[k]@),
        in_affected_list(g, files1, spec_force_all(files1, triggers), rules, x),
    ensures
        in_affected_list(g, files2, spec_force_all(files2, triggers), rules, x),
{
    let fa1 = spec_force_all(files1, triggers);
    let fa2 = spec_force_all(files2, triggers);
    if fa1 {
        let (i, k): (int, int) = choose|i: int, k: int|
            0 <= i < triggers.len() && 0 <= k < files1.len() && glob_match(
                normalized_trigger(triggers[i]@),
                files1[k]@,
            );
        assert(names_contain(files2, files1[k]@));
        let m = choose|m: int| 0 <= m < files2.len() && files2[m]@ == files1[k]@;
        assert(glob_match(normalized_trigger(triggers[i]@), files2[m]@));
        assert(fa2);
    }
    let i = choose|i: int|
        0 <= i < g.packages@.len() && (fa1 || crate::affected::affected_idx(g, files1, i)) && !(
        #[trigger] pkg_excluded(g, i, rules)) && g.packages@[i].name@ == x;
    if fa2 {
        assert(in_affected_list(g, files2, fa2, rules, x));
    } else {
        assert(!fa1);
        assert(crate::affected::affected_idx(g, files1, i));
        let p = choose|p: Seq<int>|
            valid_path(g, p) && p.first() == i && direct_set(g, files1).contains(p.last());
        assert(direct_idx(g, files1, p.last()));
        let k = choose|k: int|
            0 <= k < files1.len() && component_prefix(
                g.packages@[p.last()].rel_dir@,
                #[trigger] files1[k]@,
            );
        assert(names_contain(files2, files1[k]@));
        let m = choose|m: int| 0 <= m < files2.len() && files2[m]@ == files1[k]@;
        assert(component_prefix(g.packages@[p.last()].rel_dir@, files2[m]@));
        assert(direct_idx(g, files2, p.last()));
        assert(direct_set(g, files2).contains(p.last()));
        assert(crate::affected::affected_idx(g, files2, i));
        assert(in_affected_list(g, files2, fa2, rules, x));
    }
}

/// Under force-all, `affectedLibraryMembers` holds exactly the names of the
/// non-excluded workspace members.
pub proof fn lemma_force_all_full_workspace(
    g: DependencyGraph,
    files: Seq<String>,
    rules: Seq<String>,
    x: Seq<char>,
)
    ensures
        in_affected_list(g, files, true, rules, x) <==> exists|i: int|
            0 <= i < g.packages@.len() && !(#[trigger] pkg_excluded(g, i, rules))
                && g.packages@[i].name@ == x,
{
}

/// Exclusion hides a package from the lists but never cuts reachability:
/// membership under any rule set is membership under no rules at all, minus
/// exactly the packages the rules hide.
pub proof fn lemma_exclusion_only_hides(
    g: DependencyGraph,
    files: Seq<String>,
    force_all: bool,
    rules: Seq<String>,
    x: Seq<char>,
)
    requires
        g.wf(),
    ensures
        in_affected_list(g, files, force_all, rules, x) <==> (in_affected_list(
            g,
            files,
            force_all,
            Seq::<String>::empty(),
            x,
        ) && !(exists|i: int|
            0 <= i < g.packages@.len() && g.packages@[i].name@ == x && #[trigger] pkg_excluded(
                g,
                i,
                rules,
            ))),
{
    let none = Seq::<String>::empty();
    if in_affected_list(g, files, force_all, rules, x) {
        let i = choose|i: int|
            0 <= i < g.packages@.len() && (force_all || crate::affected::affected_idx(
                g,
                files,
                i,
            )) && !(#[trigger] pkg_excluded(g, i, rules)) && g.packages@[i].name@ == x;
        assert(!pkg_excluded(g, i, none));
        assert(in_affected_list(g, files, force_all, none, x));
        if exists|j: int|
            0 <= j < g.packages@.len() && g.packages@[j].name@ == x && #[trigger] pkg_excluded(
                g,
                j,
                rules,
            ) {
            let j = choose|j: int|
                0 <= j < g.packages@.len() && g.packages@[j].name@ == x && #[trigger] pkg_excluded(
                    g,
                    j,
                    rules,
                );
            assert(j == i);
            assert(false);
        }
    }
    if in_affected_list(g, files, force_all, none, x) && !(exists|i: int|
        0 <= i < g.packages@.len() && g.packages@[i].name@ == x && #[trigger] pkg_excluded(
            g,
            i,
            rules,
        )) {
        let i = choose|i: int|
            0 <= i < g.packages@.len() && (force_all || crate::affected::affected_idx(
                g,
                files,
                i,
            )) && !(#[trigger] pkg_excluded(g, i, none)) && g.packages@[i].name@ == x;
        assert(!pkg_excluded(g, i, rules));
        assert(in_affected_list(g, files, force_all, rules, x));
    }
}

/// A path rule respects directory boundaries: a directory that merely extends
/// the rule's prefix as raw text, without a `/` right after it, is not
/// excluded — `lib-core/` never hides a package living in `lib-core-ext/`.
pub proof fn lemma_exclusion_respects_boundary(rule: Seq<char>, name: Seq<char>, dir: Seq<char>)
    requires
        is_path_rule(rule),
        dir.len() > rule_prefix(rule).len(),
        dir.subrange(0, rule_prefix(rule).len() as int) == rule_prefix(rule),
        dir[rule_prefix(rule).len() as int] != '/',
    ensures
        !rule_excludes(rule, name, dir),
{
    let p = rule_prefix(rule);
    if dir == p {
        assert(dir.len() == p.len());
    }
}

/// Change mapping respects directory boundaries too: a file can only belong
/// to a package whose first directory component it shares, so a file under
/// `lib-core/` is never attributed to a package rooted at `lib-core-ext/`.
pub proof fn lemma_match_respects_boundary(dir: Seq<char>, f: Seq<char>)
    requires
        component_prefix(dir, f),
        path_components(dir).len() > 0,
    ensures
        path_components(f).len() > 0,
        path_components(f)[0] == path_components(dir)[0],
{
    let dv = path_components(dir);
    let pv = path_components(f);
    assert(dv[0] == pv.subrange(0, dv.len() as int)[0]);
}

} // verus!
