use vstd::prelude::*;

use crate::colour::Colour;
use crate::error::GameError;

verus! {

/// Exact matches among the first `n` positions of `guess`.
pub open spec fn exact_upto(secret: Seq<Colour>, guess: Seq<Colour>, n: int) -> nat
    decreases n,
{
    if n <= 0 {
        0
    } else {
        exact_upto(secret, guess, n - 1) + if secret[n - 1] == guess[n - 1] {
            1nat
        } else {
            0nat
        }
    }
}

/// Colour-only matches among the first `n` positions of `guess`: the colour
/// differs from the secret's there but occurs somewhere in the secret.
/// Repeated colours are not discounted.
pub open spec fn colour_only_upto(secret: Seq<Colour>, guess: Seq<Colour>, n: int) -> nat
    decreases n,
{
    if n <= 0 {
        0
    } else {
        colour_only_upto(secret, guess, n - 1) + if secret[n - 1] != guess[n - 1]
            && secret.contains(guess[n - 1]) {
            1nat
        } else {
            0nat
        }
    }
}

/// The outcome of scoring `guess` against `secret` in the given mode.
pub open spec fn evaluation(secret: Seq<Colour>, guess: Seq<Colour>, allow_duplicates: bool) -> Result<
    (nat, nat),
    GameError,
> {
    if !allow_duplicates && !guess.no_duplicates() {
        Err(GameError::DuplicateNotAllowed)
    } else {
        Ok(
            (
                exact_upto(secret, guess, guess.len() as int),
                colour_only_upto(secret, guess, guess.len() as int),
            ),
        )
    }
}

/// Whether `c` occurs in `v`.
pub fn contains_colour(v: &Vec<Colour>, c: Colour) -> (r: bool)
    ensures
        r == v@.contains(c),
{
    let mut i: usize = 0;
    while i < v.len()
        invariant
            i <= v.len(),
            forall|k: int| 0 <= k < i ==> v@[k] != c,
        decreases v.len() - i,
    {
        if v[i] == c {
            assert(v@[i as int] == c);
            return true;
        }
        i += 1;
    }
    false
}

/// Whether no colour occurs twice in `v`.
pub fn all_distinct(v: &Vec<Colour>) -> (r: bool)
    ensures
        r == v@.no_duplicates(),
{
    let mut i: usize = 0;
    while i < v.len()
        invariant
            i <= v.len(),
            forall|a: int, b: int| 0 <= a < i && 0 <= b < i && a != b ==> v@[a] != v@[b],
        decreases v.len() - i,
    {
        let mut j: usize = 0;
        while j < i
            invariant
                i < v.len(),
                j <= i,
                forall|a: int, b: int| 0 <= a < i && 0 <= b < i && a != b ==> v@[a] != v@[b],
                forall|b: int| 0 <= b < j ==> v@[b] != v@[i as int],
            decreases i - j,
        {
            if v[j] == v[i] {
                return false;
            }
            j += 1;
        }
        i += 1;
    }
    true
}

/// Scores `guess` against `secret`: for each position, an exact match if the
/// colours agree, else a colour-only match if the guessed colour occurs
/// anywhere in the secret. Fails when duplicates are disallowed and the guess
/// repeats a colour.
pub fn evaluate(secret: &Vec<Colour>, guess: &Vec<Colour>, allow_duplicates: bool) -> (r: Result<
    (usize, usize),
    GameError,
>)
    requires
        guess@.len() <= secret@.len(),
    ensures
        match r {
            Ok((e, c)) => evaluation(secret@, guess@, allow_duplicates) == Ok::<(nat, nat), GameError>((e as nat, c as nat)),
            Err(err) => evaluation(secret@, guess@, allow_duplicates) == Err::<(nat, nat), GameError>(err),
        },
{
    if !allow_duplicates && !all_distinct(guess) {
        return Err(GameError::DuplicateNotAllowed);
    }
    let mut exact: usize = 0;
    let mut colour_only: usize = 0;
    let mut i: usize = 0;
    while i < guess.len()
        invariant
            guess@.len() <= secret@.len(),
            i <= guess.len(),
            exact == exact_upto(secret@, guess@, i as int),
            colour_only == colour_only_upto(secret@, guess@, i as int),
            exact + colour_only <= i,
        decreases guess.len() - i,
    {
        if secret[i] == guess[i] {
            exact += 1;
        } else if contains_colour(secret, guess[i]) {
            colour_only += 1;
        }
        i += 1;
    }
    Ok((exact, colour_only))
}

/// Both counts together never exceed the number of positions looked at.
proof fn lemma_counts_bounded(secret: Seq<Colour>, guess: Seq<Colour>, n: int)
    ensures
        n >= 0 ==> exact_upto(secret, guess, n) + colour_only_upto(secret, guess, n) <= n,
    decreases n,
{
    if n > 0 {
        lemma_counts_bounded(secret, guess, n - 1);
    }
}

/// Every position of a guess that is the secret itself is an exact match.
proof fn lemma_self_counts(secret: Seq<Colour>, n: int)
    requires
        0 <= n <= secret.len(),
    ensures
        exact_upto(secret, secret, n) == n,
        colour_only_upto(secret, secret, n) == 0,
    decreases n,
{
    if n > 0 {
        lemma_self_counts(secret, n - 1);
    }
}

/// Scoring the secret against itself gives every position as an exact match
/// and no colour-only match, in either mode, for any secret that the mode
/// admits.
pub proof fn lemma_exact_match_scores_all(secret: Seq<Colour>, allow_duplicates: bool)
    requires
        allow_duplicates || secret.no_duplicates(),
    ensures
        evaluation(secret, secret, allow_duplicates) == Ok::<(nat, nat), GameError>((secret.len(), 0nat)),
{
    lemma_self_counts(secret, secret.len() as int);
}

/// With duplicates disallowed, a guess that repeats a colour is rejected and
/// never scored.
pub proof fn lemma_duplicate_rejected(secret: Seq<Colour>, guess: Seq<Colour>)
    requires
        !guess.no_duplicates(),
    ensures
        evaluation(secret, guess, false) == Err::<(nat, nat), GameError>(GameError::DuplicateNotAllowed),
{
}

/// An accepted guess never gets more exact plus colour-only matches than the
/// secret has positions.
pub proof fn lemma_score_bounded(secret: Seq<Colour>, guess: Seq<Colour>, allow_duplicates: bool)
    requires
        guess.len() <= secret.len(),
    ensures
        evaluation(secret, guess, allow_duplicates) matches Ok((e, c)) ==> e + c <= secret.len(),
{
    lemma_counts_bounded(secret, guess, guess.len() as int);
}

} // verus!
