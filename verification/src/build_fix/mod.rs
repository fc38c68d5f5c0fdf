//! Repairing a failed build.

use crate::error::Error;
use vstd::prelude::*;

pub mod error_patterns;
pub mod vcxproj_target_clean_first;

verus! {

/// Repairs what made a build fail.
pub trait CommandErrorFixer {
    /// Tries to repair what the output of the failed build shows.
    fn try_fix(&mut self, output: &str, ctx: &mut FixContext<'_>) -> (r: Result<
        FixActionResult,
        Error,
    >);
}

/// The build that failed.
pub struct FixContext<'a> {
    pub repo_path: &'a str,
    pub rel_binary_prefix: &'a str,
    pub build_config: &'a str,
    pub attempt: usize,
    pub max_attempts: usize,
}

/// What became of a repair.
#[derive(Clone, Copy, PartialEq, Eq, Structural)]
pub enum FixActionResult {
    /// It was made: build again.
    Applied,
    /// The failure is of another kind.
    NotHandled,
}

/// The failure is not repaired, and the next one may try.
pub open spec fn is_passed_on(outcome: Result<FixActionResult, Error>) -> bool {
    outcome == Ok::<FixActionResult, Error>(FixActionResult::NotHandled)
}

/// Lets one after the other try to repair what the output of the failed build shows, until one
/// has repaired it or fails. `outcomes` are the answers of those that tried, and `contexts` the
/// build before each of them and after the last.
pub fn try_fixers<F: CommandErrorFixer>(
    fixers: &mut Vec<F>,
    output: &str,
    ctx: &mut FixContext<'_>,
) -> (r: Result<FixActionResult, Error>)
    ensures
        final(fixers)@.len() == old(fixers)@.len(),
        exists|contexts: Seq<FixContext<'_>>, outcomes: Seq<Result<FixActionResult, Error>>|
            #![trigger contexts.len(), outcomes.len()]
            {
                &&& contexts.len() == outcomes.len() + 1
                &&& outcomes.len() <= old(fixers)@.len()
                &&& contexts[0] == *old(ctx)
                &&& contexts.last() == *final(ctx)
                &&& forall|i: int|
                    #![trigger outcomes[i]]
                    0 <= i < outcomes.len() ==> (is_passed_on(outcomes[i]) || i == outcomes.len()
                        - 1) && (exists|f: &mut F, c: &mut FixContext<'_>| #[trigger]
                        call_ensures(F::try_fix, (f, output, c), outcomes[i]) && *f == old(
                            fixers,
                        )@[i] && *final(f) == final(fixers)@[i] && *c == contexts[i] && *final(c)
                            == contexts[i + 1])
                &&& forall|i: int|
                    outcomes.len() <= i < old(fixers)@.len() ==> #[trigger] final(fixers)@[i]
                        == old(fixers)@[i]
                &&& if outcomes.len() > 0 && !is_passed_on(outcomes.last()) {
                    r == outcomes.last()
                } else {
                    is_passed_on(r) && outcomes.len() == old(fixers)@.len()
                }
            },
{
    let ghost before = fixers@;
    let ghost mut contexts: Seq<FixContext<'_>> = seq![*ctx];
    let ghost mut outcomes: Seq<Result<FixActionResult, Error>> = Seq::empty();
    let count = fixers.len();
    let mut i: usize = 0;
    while i < count
        invariant
            i <= count,
            before == old(fixers)@,
            count == before.len(),
            fixers@.len() == count,
            outcomes.len() == i,
            contexts.len() == i + 1,
            contexts[0] == *old(ctx),
            contexts.last() == *ctx,
            forall|k: int| 0 <= k < i ==> is_passed_on(#[trigger] outcomes[k]),
            forall|k: int|
                0 <= k < i && is_passed_on(#[trigger] outcomes[k]) ==> exists|
                    f: &mut F,
                    c: &mut FixContext<'_>,
                | #[trigger]
                    call_ensures(F::try_fix, (f, output, c), outcomes[k]) && *f == before[k]
                        && *final(f) == fixers@[k] && *c == contexts[k] && *final(c)
                        == contexts[k + 1],
            forall|k: int| i <= k < count ==> #[trigger] fixers@[k] == before[k],
        decreases count - i,
    {
        let ghost earlier = fixers@;
        let ghost context = *ctx;
        let ghost told = outcomes;
        let ghost seen = contexts;
        let outcome = fixers[i].try_fix(output, ctx);
        proof {
            contexts = seen.push(*ctx);
            outcomes = told.push(outcome);
            assert forall|k: int|
                #![trigger outcomes[k]]
                0 <= k < i + 1 implies (exists|f: &mut F, c: &mut FixContext<'_>| #[trigger]
                call_ensures(F::try_fix, (f, output, c), outcomes[k]) && *f == before[k]
                    && *final(f) == fixers@[k] && *c == contexts[k] && *final(c)
                    == contexts[k + 1]) by {
                if k < i {
                    assert(outcomes[k] == told[k]);
                    assert(exists|f: &mut F, c: &mut FixContext<'_>| #[trigger]
                        call_ensures(F::try_fix, (f, output, c), told[k]) && *f == before[k]
                            && *final(f) == earlier[k] && *c == seen[k] && *final(c)
                            == seen[k + 1]);
                    assert(contexts[k] == seen[k] && contexts[k + 1] == seen[k + 1]);
                    assert(fixers@[k] == earlier[k]);
                } else {
                    assert(k == i && outcomes[k] == outcome);
                    assert(contexts[k] == context && contexts[k + 1] == *ctx);
                    assert(exists|f: &mut F, c: &mut FixContext<'_>| #[trigger]
                        call_ensures(F::try_fix, (f, output, c), outcome) && *f == before[k]
                            && *final(f) == fixers@[k] && *c == context && *final(c) == *ctx);
                }
            }
            assert forall|k: int| 0 <= k < i implies is_passed_on(#[trigger] outcomes[k]) by {
                assert(outcomes[k] == told[k]);
            }
        }
        if !matches!(outcome, Ok(FixActionResult::NotHandled)) {
            assert(contexts.len() == i + 2 && outcomes.len() == i + 1);
            return outcome;
        }
        assert(is_passed_on(outcomes[i as int]));
        i += 1;
    }
    Ok(FixActionResult::NotHandled)
}

} // verus!
