//! Force triggers: glob patterns that, when matched by any changed file, mark
//! the entire workspace as affected.
//!
//! A trigger ending in `/` is first normalized by appending `**`, so that it
//! matches the directory and everything beneath it. Matching itself is done
//! by the `globset` crate; what a pattern accepts and whether it matches a
//! given path are named by the uninterpreted functions [`glob_pattern_ok`] and
//! [`glob_match`], and the two trusted wrappers below tie those names to the
//! crate's calls. A malformed pattern is reported as a
//! [`TriggerPatternError`] before any file is matched.

use vstd::prelude::*;

verus! {

/// Whether `globset` accepts this pattern text: `globset::Glob::new` parses it
/// and `globset::GlobSetBuilder::build` compiles it.
pub uninterp spec fn glob_pattern_ok(pattern: Seq<char>) -> bool;

/// Whether the glob written as `pattern` matches the file path `path`.
pub uninterp spec fn glob_match(pattern: Seq<char>, path: Seq<char>) -> bool;

/// Relies on `globset::Glob::new` and `globset::GlobSetBuilder::build`:
/// whether a pattern parses and compiles is a function of the pattern text
/// alone.
#[verifier::external_body]
fn glob_pattern_accepted(pattern: &str) -> (r: bool)
    ensures
        r == glob_pattern_ok(pattern@),
{
    match globset::Glob::new(pattern) {
        Ok(g) => globset::GlobSetBuilder::new().add(g).build().is_ok(),
        Err(_) => false,
    }
}

/// Relies on `globset::GlobSet::is_match`: whether a compiled glob matches a
/// path is a function of the pattern and the path text alone (the path is
/// taken literally, as a `/`-separated string).
#[verifier::external_body]
fn glob_pattern_matches(pattern: &str, path: &str) -> (r: bool)
    requires
        glob_pattern_ok(pattern@),
    ensures
        r == glob_match(pattern@, path@),
{
    let glob = globset::Glob::new(pattern).expect("pattern was checked");
    let matcher = globset::GlobSetBuilder::new().add(glob).build().expect("pattern was checked");
    matcher.is_match(path)
}

/// A force trigger after trailing-slash normalization: `infra/` becomes
/// `infra/**`, anything else is kept as written.
pub open spec fn normalized_trigger(t: Seq<char>) -> Seq<char> {
    if t.len() > 0 && t.last() == '/' {
        t + seq!['*', '*']
    } else {
        t
    }
}

/// Whether the force triggers fire: some changed file matches some normalized
/// trigger pattern. An empty trigger list never fires.
pub open spec fn spec_force_all(files: Seq<String>, triggers: Seq<String>) -> bool {
    exists|i: int, k: int|
        0 <= i < triggers.len() && 0 <= k < files.len() && glob_match(
            normalized_trigger(triggers[i]@),
            files[k]@,
        )
}

/// A malformed force-trigger pattern, reported before any matching is done.
/// `pattern` holds the offending pattern as it was handed to the glob
/// compiler, after trailing-slash normalization.
#[derive(Debug, Clone, PartialEq, Eq)]
pub struct TriggerPatternError {
    pub pattern: String,
}

/// Whether `e` reports the first trigger in `triggers` whose normalized form
/// the glob compiler rejects.
pub open spec fn first_invalid_trigger(triggers: Seq<String>, e: TriggerPatternError) -> bool {
    exists|i: int|
        0 <= i < triggers.len() && !glob_pattern_ok(normalized_trigger(triggers[i]@)) && (forall|
            j: int,
        | 0 <= j < i ==> glob_pattern_ok(normalized_trigger(triggers[j]@))) && e.pattern@
            == normalized_trigger(triggers[i]@)
}

fn normalize_trigger(t: &str) -> (r: String)
    ensures
        r@ == normalized_trigger(t@),
{
    let n = t.unicode_len();
    if n > 0 && t.get_char(n - 1) == '/' {
        let r = t.to_owned().concat("**");
        proof {
            reveal_strlit("**");
            assert(r@ =~= t@ + seq!['*', '*']);
        }
        r
    } else {
        t.to_owned()
    }
}

/// Decides whether the whole workspace is to be treated as affected: `Ok(true)`
/// iff some changed file matches some normalized trigger pattern. With an
/// empty trigger list no pattern is compiled and the answer is `Ok(false)`.
/// The first malformed pattern, if any, is reported as an error before any
/// file is matched.
pub fn check_force_triggers(changed_files: &Vec<String>, force_triggers: &Vec<String>) -> (r:
    Result<bool, TriggerPatternError>)
    ensures
        match r {
            Ok(b) => (forall|i: int|
                0 <= i < force_triggers@.len() ==> glob_pattern_ok(
                    normalized_trigger(force_triggers@[i]@),
                )) && b == spec_force_all(changed_files@, force_triggers@),
            Err(e) => first_invalid_trigger(force_triggers@, e),
        },
{
    if force_triggers.len() == 0 {
        return Ok(false);
    }
    let mut norm: Vec<String> = Vec::new();
    let mut t: usize = 0;
    while t < force_triggers.len()
        invariant
            t <= force_triggers@.len(),
            norm@.len() == t,
            forall|i: int| 0 <= i < t ==> norm@[i]@ == normalized_trigger(force_triggers@[i]@),
            forall|i: int| 0 <= i < t ==> glob_pattern_ok(normalized_trigger(force_triggers@[i]@)),
        decreases force_triggers@.len() - t,
    {
        let p = normalize_trigger(force_triggers[t].as_str());
        if !glob_pattern_accepted(p.as_str()) {
            return Err(TriggerPatternError { pattern: p });
        }
        norm.push(p);
        t += 1;
    }
    let mut k: usize = 0;
    while k < changed_files.len()
        invariant
            k <= changed_files@.len(),
            norm@.len() == force_triggers@.len(),
            forall|i: int|
                0 <= i < norm@.len() ==> norm@[i]@ == normalized_trigger(force_triggers@[i]@),
            forall|i: int|
                0 <= i < norm@.len() ==> glob_pattern_ok(normalized_trigger(force_triggers@[i]@)),
            forall|i: int, kk: int|
                0 <= i < norm@.len() && 0 <= kk < k ==> !glob_match(
                    normalized_trigger(force_triggers@[i]@),
                    changed_files@[kk]@,
                ),
        decreases changed_files@.len() - k,
    {
        let mut i: usize = 0;
        while i < norm.len()
            invariant
                i <= norm@.len(),
                k < changed_files@.len(),
                norm@.len() == force_triggers@.len(),
                forall|t2: int|
                    0 <= t2 < norm@.len() ==> norm@[t2]@ == normalized_trigger(
                        force_triggers@[t2]@,
                    ),
                forall|t2: int|
                    0 <= t2 < norm@.len() ==> glob_pattern_ok(
                        normalized_trigger(force_triggers@[t2]@),
                    ),
                forall|t2: int|
                    0 <= t2 < i ==> !glob_match(
                        normalized_trigger(force_triggers@[t2]@),
                        changed_files@[k as int]@,
                    ),
            decreases norm@.len() - i,
        {
            if glob_pattern_matches(norm[i].as_str(), changed_files[k].as_str()) {
                proof {
                    assert(glob_match(
                        normalized_trigger(force_triggers@[i as int]@),
                        changed_files@[k as int]@,
                    ));
                }
                return Ok(true);
            }
            i += 1;
        }
        k += 1;
    }
    Ok(false)
}

} // verus!
