use rand::Rng;
use vstd::prelude::*;

use crate::colour::{all_colours, lemma_palette_complete, lemma_palette_distinct, palette, Colour, NUM_COLOURS};

verus! {

/// Relies on rand's `thread_rng().gen::<usize>()`: a word drawn uniformly from
/// the thread-local generator. Nothing is promised about its value.
#[verifier::external_body]
fn random_word() -> usize {
    rand::thread_rng().gen::<usize>()
}

/// A secret fit for a game of `length` pegs in the given mode: the right
/// length, and no colour twice where duplicates are disallowed.
pub open spec fn valid_secret(s: Seq<Colour>, length: nat, allow_duplicates: bool) -> bool {
    &&& s.len() == length
    &&& forall|i: int| 0 <= i < s.len() ==> palette().contains(#[trigger] s[i])
    &&& allow_duplicates || s.no_duplicates()
}

/// The colours that `draws` pick from `pool` when each pick is removed
/// from what is left: draw `d` takes the colour at `d % len` of the rest.
pub open spec fn picks_without_replacement(pool: Seq<Colour>, draws: Seq<usize>) -> Seq<Colour>
    decreases draws.len(),
{
    if draws.len() == 0 || pool.len() == 0 {
        Seq::empty()
    } else {
        let k = (draws[0] as int) % (pool.len() as int);
        seq![pool[k]] + picks_without_replacement(pool.remove(k), draws.drop_first())
    }
}

/// The secret that the random words `draws` give: with duplicates allowed,
/// peg `i` is the palette's colour at `draws[i] % 6`; otherwise the pegs are
/// picked from the palette without replacement.
pub open spec fn secret_from_draws(draws: Seq<usize>, allow_duplicates: bool) -> Seq<Colour> {
    if allow_duplicates {
        Seq::new(draws.len(), |i: int| palette()[(draws[i] as int) % (NUM_COLOURS as int)])
    } else {
        picks_without_replacement(palette(), draws)
    }
}

/// Turns one random word per peg into a secret, as `secret_from_draws` says.
pub fn pegs_from_draws(draws: &Vec<usize>, allow_duplicates: bool) -> (r: Vec<Colour>)
    requires
        allow_duplicates || draws@.len() <= NUM_COLOURS,
    ensures
        r@ == secret_from_draws(draws@, allow_duplicates),
        valid_secret(r@, draws@.len(), allow_duplicates),
{
    let size = draws.len();
    let mut choice_pegs = all_colours();
    proof {
        lemma_palette_distinct();
    }
    let mut pegs: Vec<Colour> = Vec::new();
    let mut i: usize = 0;
    if allow_duplicates {
        while i < size
            invariant
                i <= size,
                pegs@.len() == i,
                size == draws@.len(),
                choice_pegs@ == palette(),
                forall|k: int| 0 <= k < pegs@.len() ==> palette().contains(#[trigger] pegs@[k]),
                forall|k: int|
                    0 <= k < pegs@.len() ==> #[trigger] pegs@[k] == palette()[(draws@[k] as int)
                        % (NUM_COLOURS as int)],
            decreases size - i,
        {
            let k = draws[i] % choice_pegs.len();
            let c = choice_pegs[k];
            pegs.push(c);
            proof {
                lemma_palette_complete(c);
            }
            i += 1;
        }
    } else {
        assert(draws@.subrange(0, size as int) =~= draws@);
        assert(pegs@ + picks_without_replacement(palette(), draws@) =~= picks_without_replacement(palette(), draws@));
        while i < size
            invariant
                i <= size <= NUM_COLOURS,
                size == draws@.len(),
                pegs@ + picks_without_replacement(choice_pegs@, draws@.subrange(i as int, size as int))
                    == picks_without_replacement(palette(), draws@),
                pegs@.len() == i,
                choice_pegs@.len() == NUM_COLOURS - i,
                pegs@.no_duplicates(),
                choice_pegs@.no_duplicates(),
                pegs@.disjoint(choice_pegs@),
                forall|k: int| 0 <= k < pegs@.len() ==> palette().contains(#[trigger] pegs@[k]),
            decreases size - i,
        {
            let ghost before = choice_pegs@;
            let ghost rest = draws@.subrange(i as int, size as int);
            assert(rest.drop_first() =~= draws@.subrange(i as int + 1, size as int));
            let k = draws[i] % choice_pegs.len();
            let c = choice_pegs.remove(k);
            proof {
                before.remove_ensures(k as int);
                lemma_palette_complete(c);
                assert forall|a: int, b: int|
                    0 <= a < choice_pegs@.len() && 0 <= b < choice_pegs@.len() && a != b implies
                    choice_pegs@[a] != choice_pegs@[b] by {
                    let a1 = if a < k { a } else { a + 1 };
                    let b1 = if b < k { b } else { b + 1 };
                    assert(choice_pegs@[a] == before[a1]);
                    assert(choice_pegs@[b] == before[b1]);
                }
            }
            let ghost old_pegs = pegs@;
            pegs.push(c);
            proof {
                let tail = picks_without_replacement(choice_pegs@, draws@.subrange(i as int + 1, size as int));
                assert(picks_without_replacement(before, rest) == seq![c] + tail);
                assert(pegs@ + tail =~= old_pegs + (seq![c] + tail));
                assert forall|a: int, b: int|
                    0 <= a < pegs@.len() && 0 <= b < choice_pegs@.len() implies
                    pegs@[a] != choice_pegs@[b] by {
                    let b1 = if b < k { b } else { b + 1 };
                    assert(choice_pegs@[b] == before[b1]);
                    if a < old_pegs.len() {
                        assert(pegs@[a] == old_pegs[a]);
                    }
                }
                assert forall|a: int, b: int|
                    0 <= a < pegs@.len() && 0 <= b < pegs@.len() && a != b implies
                    pegs@[a] != pegs@[b] by {
                    if a < old_pegs.len() && b < old_pegs.len() {
                        assert(pegs@[a] == old_pegs[a]);
                        assert(pegs@[b] == old_pegs[b]);
                    } else if a < old_pegs.len() {
                        assert(pegs@[a] == old_pegs[a]);
                        assert(before[k as int] == c);
                    } else {
                        assert(pegs@[b] == old_pegs[b]);
                        assert(before[k as int] == c);
                    }
                }
            }
            i += 1;
        }
    }
    if allow_duplicates {
        assert(pegs@ =~= secret_from_draws(draws@, allow_duplicates));
    } else {
        assert(draws@.subrange(size as int, size as int) =~= Seq::<usize>::empty());
        assert(pegs@ + Seq::<Colour>::empty() =~= pegs@);
    }
    pegs
}

/// Draws a fresh secret of `size` pegs from one random word per peg: with
/// duplicates allowed, each peg independently from the palette; otherwise
/// distinct pegs, drawn without replacement.
pub fn generate_new_pegs(size: usize, allow_duplicates: bool) -> (r: Vec<Colour>)
    requires
        allow_duplicates || size <= NUM_COLOURS,
    ensures
        valid_secret(r@, size as nat, allow_duplicates),
{
    let mut draws: Vec<usize> = Vec::new();
    let mut i: usize = 0;
    while i < size
        invariant
            i <= size,
            draws@.len() == i,
        decreases size - i,
    {
        draws.push(random_word());
        i += 1;
    }
    pegs_from_draws(&draws, allow_duplicates)
}

} // verus!
