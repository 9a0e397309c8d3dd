//! The affected-set computation.
//!
//! [`compute_affected`] maps changed file paths to the packages whose
//! directories contain them, decides the force-all override from the trigger
//! patterns, takes the reverse-dependency closure of the directly changed
//! packages (or the whole workspace under force-all), applies the exclusion
//! rules to each output list, and assembles the three sorted name lists of the
//! [`AffectedResult`].

use vstd::prelude::*;
use crate::AffectedResult;
use crate::exclude::is_excluded;
use crate::exclude::spec_excluded;
use crate::graph::DependencyGraph;
use crate::graph::has_binary_target;
use crate::graph::reaches;
use crate::graph::reverse_closure;
use crate::graph::seed_set;
use crate::graph::spec_has_binary;
use crate::names::names_contain;
use crate::names::push_sorted;
use crate::names::strictly_sorted_names;
use crate::paths::component_prefix;
use crate::paths::path_in_dir;
use crate::triggers::TriggerPatternError;
use crate::triggers::check_force_triggers;
use crate::triggers::first_invalid_trigger;
use crate::triggers::glob_pattern_ok;
use crate::triggers::normalized_trigger;
use crate::triggers::spec_force_all;

verus! {

/// Whether the package at index `i` is directly changed: some changed file
/// lies in its directory.
pub open spec fn direct_idx(g: DependencyGraph, files: Seq<String>, i: int) -> bool {
    &&& 0 <= i < g.packages@.len()
    &&& exists|k: int|
        0 <= k < files.len() && component_prefix(g.packages@[i].rel_dir@, #[trigger] files[k]@)
}

/// The set of directly changed package indices.
pub open spec fn direct_set(g: DependencyGraph, files: Seq<String>) -> Set<int> {
    Set::new(|i: int| direct_idx(g, files, i))
}

/// Whether the package at index `i` is affected: it is directly changed or
/// transitively depends on a directly changed package.
pub open spec fn affected_idx(g: DependencyGraph, files: Seq<String>, i: int) -> bool {
    reaches(g, direct_set(g, files), i)
}

/// Whether the exclusion rules hide the package at index `i`.
pub open spec fn pkg_excluded(g: DependencyGraph, i: int, rules: Seq<String>) -> bool {
    spec_excluded(g.packages@[i].name@, g.packages@[i].rel_dir@, rules)
}

/// Whether index `i` witnesses the name `x` in the list selected by `sel`,
/// after exclusion.
pub open spec fn selected_name_at(
    g: DependencyGraph,
    sel: Seq<bool>,
    rules: Seq<String>,
    i: int,
    x: Seq<char>,
) -> bool {
    &&& 0 <= i < g.packages@.len()
    &&& sel[i]
    &&& !pkg_excluded(g, i, rules)
    &&& g.packages@[i].name@ == x
}

/// Membership in `changedCrates`: the name of a directly changed,
/// non-excluded package.
pub open spec fn in_changed_list(
    g: DependencyGraph,
    files: Seq<String>,
    rules: Seq<String>,
    x: Seq<char>,
) -> bool {
    exists|i: int|
        #[trigger] direct_idx(g, files, i) && !pkg_excluded(g, i, rules) && g.packages@[i].name@
            == x
}

/// Membership in `affectedLibraryMembers`: the name of a non-excluded package
/// that is affected, or of any non-excluded package under force-all.
pub open spec fn in_affected_list(
    g: DependencyGraph,
    files: Seq<String>,
    force_all: bool,
    rules: Seq<String>,
    x: Seq<char>,
) -> bool {
    exists|i: int|
        0 <= i < g.packages@.len() && (force_all || affected_idx(g, files, i)) && !(
        #[trigger] pkg_excluded(g, i, rules)) && g.packages@[i].name@ == x
}

/// Membership in `affectedBinaryMembers`: as [`in_affected_list`], further
/// restricted to packages exposing a binary target.
pub open spec fn in_binary_list(
    g: DependencyGraph,
    files: Seq<String>,
    force_all: bool,
    rules: Seq<String>,
    x: Seq<char>,
) -> bool {
    exists|i: int|
        0 <= i < g.packages@.len() && (force_all || affected_idx(g, files, i)) && !(
        #[trigger] pkg_excluded(g, i, rules)) && spec_has_binary(g.packages@[i])
            && g.packages@[i].name@ == x
}

/// Everything [`compute_affected`] promises of its result: on success the
/// force-all flag equals the trigger decision and each output list holds
/// exactly the names its membership predicate describes, strictly sorted; on
/// failure the error names the first malformed trigger pattern. Success is
/// owed whenever the changed set is empty (no pattern is compiled then) or
/// every normalized pattern compiles.
pub open spec fn affected_result_spec(
    g: DependencyGraph,
    files: Seq<String>,
    triggers: Seq<String>,
    rules: Seq<String>,
    r: Result<AffectedResult, TriggerPatternError>,
) -> bool {
    match r {
        Ok(a) => {
            &&& files.len() == 0 || (forall|i: int|
                0 <= i < triggers.len() ==> glob_pattern_ok(normalized_trigger(triggers[i]@)))
            &&& a.force_all == spec_force_all(files, triggers)
            &&& strictly_sorted_names(a.changed_crates@)
            &&& strictly_sorted_names(a.affected_library_members@)
            &&& strictly_sorted_names(a.affected_binary_members@)
            &&& forall|x: Seq<char>|
                #[trigger] names_contain(a.changed_crates@, x) <==> in_changed_list(
                    g,
                    files,
                    rules,
                    x,
                )
            &&& forall|x: Seq<char>|
                #[trigger] names_contain(a.affected_library_members@, x) <==> in_affected_list(
                    g,
                    files,
                    a.force_all,
                    rules,
                    x,
                )
            &&& forall|x: Seq<char>|
                #[trigger] names_contain(a.affected_binary_members@, x) <==> in_binary_list(
                    g,
                    files,
                    a.force_all,
                    rules,
                    x,
                )
        },
        Err(e) => files.len() > 0 && first_invalid_trigger(triggers, e),
    }
}

/// One `true` per directly changed package.
fn direct_packages(g: &DependencyGraph, changed_files: &Vec<String>) -> (d: Vec<bool>)
    ensures
        d@.len() == g.packages@.len(),
        forall|i: int| 0 <= i < d@.len() ==> d@[i] == direct_idx(*g, changed_files@, i),
{
    let n = g.packages.len();
    let mut d: Vec<bool> = Vec::new();
    let mut i: usize = 0;
    while i < n
        invariant
            i <= n,
            n == g.packages@.len(),
            d@.len() == i,
            forall|t: int| 0 <= t < i ==> d@[t] == direct_idx(*g, changed_files@, t),
        decreases n - i,
    {
        let mut k: usize = 0;
        let mut found = false;
        while k < changed_files.len()
            invariant
                k <= changed_files@.len(),
                i < n,
                n == g.packages@.len(),
                found == exists|kk: int|
                    0 <= kk < k && component_prefix(
                        g.packages@[i as int].rel_dir@,
                        #[trigger] changed_files@[kk]@,
                    ),
            decreases changed_files@.len() - k,
        {
            if path_in_dir(changed_files[k].as_str(), g.packages[i].rel_dir.as_str()) {
                found = true;
            }
            k += 1;
        }
        d.push(found);
        i += 1;
    }
    d
}

/// A mask selecting every package.
fn full_mask(n: usize) -> (d: Vec<bool>)
    ensures
        d@.len() == n,
        forall|i: int| 0 <= i < n ==> d@[i],
{
    let mut d: Vec<bool> = Vec::new();
    let mut i: usize = 0;
    while i < n
        invariant
            i <= n,
            d@.len() == i,
            forall|t: int| 0 <= t < i ==> d@[t],
        decreases n - i,
    {
        d.push(true);
        i += 1;
    }
    d
}

/// Restricts a mask to the packages exposing a binary target.
fn binary_mask(g: &DependencyGraph, base: &Vec<bool>) -> (d: Vec<bool>)
    requires
        base@.len() == g.packages@.len(),
    ensures
        d@.len() == base@.len(),
        forall|i: int|
            0 <= i < d@.len() ==> d@[i] == (base@[i] && spec_has_binary(g.packages@[i])),
{
    let n = g.packages.len();
    let mut d: Vec<bool> = Vec::new();
    let mut i: usize = 0;
    while i < n
        invariant
            i <= n,
            n == g.packages@.len(),
            base@.len() == n,
            d@.len() == i,
            forall|t: int| 0 <= t < i ==> d@[t] == (base@[t] && spec_has_binary(g.packages@[t])),
        decreases n - i,
    {
        let b = base[i] && has_binary_target(&g.packages[i]);
        d.push(b);
        i += 1;
    }
    d
}

/// The names of the selected, non-excluded packages, strictly sorted.
fn collect_names(g: &DependencyGraph, selected: &Vec<bool>, excluded: &Vec<String>) -> (out: Vec<
    String,
>)
    requires
        selected@.len() == g.packages@.len(),
    ensures
        strictly_sorted_names(out@),
        forall|x: Seq<char>|
            #[trigger] names_contain(out@, x) <==> exists|i: int|
                selected_name_at(*g, selected@, excluded@, i, x),
{
    let n = g.packages.len();
    let mut out: Vec<String> = Vec::new();
    let mut i: usize = 0;
    while i < n
        invariant
            i <= n,
            n == g.packages@.len(),
            selected@.len() == n,
            strictly_sorted_names(out@),
            forall|x: Seq<char>|
                #[trigger] names_contain(out@, x) <==> exists|t: int|
                    t < i && #[trigger] selected_name_at(*g, selected@, excluded@, t, x),
        decreases n - i,
    {
        let take = selected[i] && !is_excluded(
            g.packages[i].name.as_str(),
            g.packages[i].rel_dir.as_str(),
            excluded,
        );
        if take {
            let nm = g.packages[i].name.clone();
            push_sorted(&mut out, nm);
            proof {
                assert forall|x: Seq<char>| #[trigger] names_contain(out@, x) implies exists|
                    t: int,
                | t < i + 1 && #[trigger] selected_name_at(*g, selected@, excluded@, t, x) by {
                    if x == g.packages@[i as int].name@ {
                        assert(selected_name_at(*g, selected@, excluded@, i as int, x));
                    }
                }
            }
        } else {
            proof {
                assert forall|x: Seq<char>|
                    (exists|t: int|
                        t < i + 1 && #[trigger] selected_name_at(
                            *g,
                            selected@,
                            excluded@,
                            t,
                            x,
                        )) implies #[trigger] names_contain(out@, x) by {
                    let t = choose|t: int|
                        t < i + 1 && selected_name_at(*g, selected@, excluded@, t, x);
                    assert(t < i);
                }
            }
        }
        i += 1;
    }
    out
}

/// Computes which workspace packages are affected by the changed files.
///
/// The changed and affected name lists come out strictly sorted; exclusion
/// rules hide packages from every list but never alter the graph traversal;
/// an empty changed set short-circuits to the empty, non-forced result; and a
/// malformed force-trigger pattern is reported as an error before any
/// matching. [`affected_result_spec`] states all of this precisely.
pub fn compute_affected(
    graph: &DependencyGraph,
    changed_files: &Vec<String>,
    force_triggers: &Vec<String>,
    excluded: &Vec<String>,
) -> (r: Result<AffectedResult, TriggerPatternError>)
    requires
        graph.wf(),
    ensures
        affected_result_spec(*graph, changed_files@, force_triggers@, excluded@, r),
{
    if changed_files.len() == 0 {
        let a = AffectedResult {
            force_all: false,
            changed_crates: Vec::new(),
            affected_library_members: Vec::new(),
            affected_binary_members: Vec::new(),
        };
        proof {
            assert(!spec_force_all(changed_files@, force_triggers@));
            assert forall|x: Seq<char>| !in_changed_list(
                *graph,
                changed_files@,
                excluded@,
                x,
            ) by {
                if in_changed_list(*graph, changed_files@, excluded@, x) {
                    let i = choose|i: int|
                        direct_idx(*graph, changed_files@, i) && !pkg_excluded(
                            *graph,
                            i,
                            excluded@,
                        ) && graph.packages@[i].name@ == x;
                    assert(false);
                }
            }
            assert forall|x: Seq<char>| !in_affected_list(
                *graph,
                changed_files@,
                false,
                excluded@,
                x,
            ) by {
                if in_affected_list(*graph, changed_files@, false, excluded@, x) {
                    let i = choose|i: int|
                        0 <= i < graph.packages@.len() && (false || affected_idx(
                            *graph,
                            changed_files@,
                            i,
                        )) && !pkg_excluded(*graph, i, excluded@) && graph.packages@[i].name@ == x;
                    let p = choose|p: Seq<int>|
                        crate::graph::valid_path(*graph, p) && p.first() == i && direct_set(
                            *graph,
                            changed_files@,
                        ).contains(p.last());
                    assert(direct_idx(*graph, changed_files@, p.last()));
                    assert(false);
                }
            }
            assert forall|x: Seq<char>| !in_binary_list(
                *graph,
                changed_files@,
                false,
                excluded@,
                x,
            ) by {
                if in_binary_list(*graph, changed_files@, false, excluded@, x) {
                    let i = choose|i: int|
                        0 <= i < graph.packages@.len() && (false || affected_idx(
                            *graph,
                            changed_files@,
                            i,
                        )) && !pkg_excluded(*graph, i, excluded@) && spec_has_binary(
                            graph.packages@[i],
                        ) && graph.packages@[i].name@ == x;
                    assert(in_affected_list(*graph, changed_files@, false, excluded@, x));
                }
            }
        }
        return Ok(a);
    }
    let force_all = match check_force_triggers(changed_files, force_triggers) {
        Ok(b) => b,
        Err(e) => {
            return Err(e);
        },
    };
    let direct = direct_packages(graph, changed_files);
    let n = graph.packages.len();
    let affected_mask = if force_all {
        full_mask(n)
    } else {
        reverse_closure(graph, &direct)
    };
    let bin_mask = binary_mask(graph, &affected_mask);
    let changed_crates = collect_names(graph, &direct, excluded);
    let affected_library_members = collect_names(graph, &affected_mask, excluded);
    let affected_binary_members = collect_names(graph, &bin_mask, excluded);
    proof {
        let g = *graph;
        let files = changed_files@;
        let rules = excluded@;
        if !force_all {
            assert(seed_set(direct@) =~= direct_set(g, files));
        }
        assert forall|i: int| 0 <= i < g.packages@.len() implies affected_mask@[i] == (force_all
            || affected_idx(g, files, i)) by {
            if !force_all {
                assert(affected_mask@[i] == reaches(g, seed_set(direct@), i));
            }
        }
        assert forall|x: Seq<char>| #[trigger] names_contain(changed_crates@, x)
            <==> in_changed_list(g, files, rules, x) by {
            if names_contain(changed_crates@, x) {
                let i = choose|i: int| selected_name_at(g, direct@, rules, i, x);
                assert(direct_idx(g, files, i));
                assert(in_changed_list(g, files, rules, x));
            }
            if in_changed_list(g, files, rules, x) {
                let i = choose|i: int|
                    direct_idx(g, files, i) && !pkg_excluded(g, i, rules) && g.packages@[i].name@
                        == x;
                assert(selected_name_at(g, direct@, rules, i, x));
            }
        }
        assert forall|x: Seq<char>| #[trigger] names_contain(affected_library_members@, x)
            <==> in_affected_list(g, files, force_all, rules, x) by {
            if names_contain(affected_library_members@, x) {
                let i = choose|i: int| selected_name_at(g, affected_mask@, rules, i, x);
                assert(0 <= i < g.packages@.len() && (force_all || affected_idx(g, files, i))
                    && !pkg_excluded(g, i, rules) && g.packages@[i].name@ == x);
                assert(in_affected_list(g, files, force_all, rules, x));
            }
            if in_affected_list(g, files, force_all, rules, x) {
                let i = choose|i: int|
                    0 <= i < g.packages@.len() && (force_all || affected_idx(g, files, i))
                        && !pkg_excluded(g, i, rules) && g.packages@[i].name@ == x;
                assert(selected_name_at(g, affected_mask@, rules, i, x));
            }
        }
        assert forall|x: Seq<char>| #[trigger] names_contain(affected_binary_members@, x)
            <==> in_binary_list(g, files, force_all, rules, x) by {
            if names_contain(affected_binary_members@, x) {
                let i = choose|i: int| selected_name_at(g, bin_mask@, rules, i, x);
                assert(0 <= i < g.packages@.len() && (force_all || affected_idx(g, files, i))
                    && !pkg_excluded(g, i, rules) && spec_has_binary(g.packages@[i])
                    && g.packages@[i].name@ == x);
                assert(in_binary_list(g, files, force_all, rules, x));
            }
            if in_binary_list(g, files, force_all, rules, x) {
                let i = choose|i: int|
                    0 <= i < g.packages@.len() && (force_all || affected_idx(g, files, i))
                        && !pkg_excluded(g, i, rules) && spec_has_binary(g.packages@[i])
                        && g.packages@[i].name@ == x;
                assert(selected_name_at(g, bin_mask@, rules, i, x));
            }
        }
    }
    Ok(
        AffectedResult {
            force_all,
            changed_crates,
            affected_library_members,
            affected_binary_members,
        },
    )
}

} // verus!
