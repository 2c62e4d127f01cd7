//! Handling of the target paths that a run is given.

use vstd::prelude::*;
use vstd::string::*;
use crate::outcome::Outcome;

verus! {

/// The double quote that may enclose a target path.
pub const QUOTE: char = '"';

/// `arg` without the pair of double quotes around it, or `arg` itself if
/// it is not enclosed in such a pair.
pub open spec fn unquoted(arg: Seq<char>) -> Seq<char> {
    if arg.len() >= 2 && arg.first() == QUOTE && arg.last() == QUOTE {
        arg.subrange(1, arg.len() - 1)
    } else {
        arg
    }
}

/// Takes the enclosing pair of double quotes off a target path, if there
/// is one. A lone quote character encloses nothing and is left as it is.
pub fn strip_quotes(arg: &str) -> (bare: &str)
    ensures
        bare@ == unquoted(arg@),
{
    let n: usize = arg.unicode_len();
    if n >= 2 && arg.get_char(0) == QUOTE && arg.get_char(n - 1) == QUOTE {
        arg.substring_char(1, n - 1)
    } else {
        arg
    }
}

/// How many targets were deleted and how many were not.
#[derive(Clone, Copy, Debug, PartialEq, Eq)]
pub struct Tally {
    pub successes: usize,
    pub errors: usize,
}

/// The outcomes among `outcomes` that are successes.
pub open spec fn successes_in<E>(outcomes: Seq<Outcome<E>>) -> Seq<Outcome<E>> {
    outcomes.filter(|o: Outcome<E>| o is Success)
}

impl Tally {
    /// Whether there is something to show for the run and nothing went
    /// wrong: at least one success and no error.
    pub open spec fn clean(self) -> bool {
        self.successes > 0 && self.errors == 0
    }

    /// Whether there is something to show for the run and nothing went
    /// wrong: at least one success and no error.
    pub fn is_clean(&self) -> (yes: bool)
        ensures
            yes == self.clean(),
    {
        self.successes > 0 && self.errors == 0
    }
}

/// Counts the outcomes of a run: every `Success` is a success, everything
/// else is an error.
pub fn tally<E>(outcomes: &Vec<Outcome<E>>) -> (tally: Tally)
    ensures
        tally.successes == successes_in(outcomes@).len(),
        tally.successes + tally.errors == outcomes@.len(),
{
    let mut successes: usize = 0;
    let mut errors: usize = 0;
    let mut at: usize = 0;
    while at < outcomes.len()
        invariant
            at <= outcomes.len(),
            successes == successes_in(outcomes@.take(at as int)).len(),
            successes + errors == at,
        decreases outcomes.len() - at,
    {
        proof {
            assert(outcomes@.take(at + 1) =~= outcomes@.take(at as int).push(outcomes@[at as int]));
            outcomes@.take(at as int).lemma_filter_push(
                outcomes@[at as int],
                |o: Outcome<E>| o is Success,
            );
        }
        if outcomes[at].is_success() {
            successes = successes + 1;
        } else {
            errors = errors + 1;
        }
        at = at + 1;
    }
    assert(outcomes@.take(at as int) =~= outcomes@);
    Tally { successes, errors }
}

} // verus!
