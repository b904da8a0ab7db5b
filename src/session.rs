use vstd::arithmetic::div_mod::{lemma_fundamental_div_mod, lemma_fundamental_div_mod_converse};
use vstd::prelude::*;
use vstd::string::StrSliceExecFns;

use crate::colour::{ascii_lower, colour_of_char, to_ascii_lower, lemma_palette_complete, palette, Colour, NUM_COLOURS};
use crate::error::GameError;
use crate::generator::{generate_new_pegs, valid_secret};
use crate::scoring::{all_distinct, evaluate, evaluation};

verus! {

/// What one pushed colour led to.
#[derive(Clone, Copy, Debug, PartialEq, Eq, Structural)]
pub enum Turn {
    /// The guess in progress is not complete yet.
    Pending,
    /// A guess was completed and scored: exact matches, then colour-only matches.
    Scored(usize, usize),
    /// The guess was the secret: the game was won and a new one started.
    Won,
    /// The last try missed: the game was lost and a new one started.
    Lost,
}

/// A session as its contracts see it.
pub ghost struct Session {
    /// The secret of the game in progress.
    pub secret: Seq<Colour>,
    /// The scored guesses of the game in progress, in order.
    pub attempts: Seq<Seq<Colour>>,
    /// Every finished game: its secret, the tries it took, whether it was won.
    pub games: Seq<(Seq<Colour>, nat, bool)>,
    /// The colours of the guess in progress.
    pub buffer: Seq<Colour>,
    /// Pegs in a secret and in a guess.
    pub length: nat,
    /// Whether a secret and a guess may repeat a colour.
    pub allow_duplicates: bool,
    /// The most tries a game may take, if bounded.
    pub max_tries: Option<usize>,
}

/// Whether a miss now ends the game.
pub open spec fn tries_exhausted(s: Session) -> bool {
    s.max_tries matches Some(t) && t == s.attempts.len() + 1
}

/// `post` is `pre` after its game closed with the given outcome: the game is
/// recorded, and a fresh game with a new secret has begun.
pub open spec fn closes_game(pre: Session, post: Session, won: bool) -> bool {
    &&& post.games == pre.games.push((pre.secret, pre.attempts.len(), won))
    &&& post.attempts == Seq::<Seq<Colour>>::empty()
    &&& post.buffer == Seq::<Colour>::empty()
    &&& valid_secret(post.secret, pre.length, pre.allow_duplicates)
    &&& post.length == pre.length
    &&& post.allow_duplicates == pre.allow_duplicates
    &&& post.max_tries == pre.max_tries
}

/// What a complete guess does to a session: a win, else a loss when the tries
/// are used up, else a score, or a rejection that only empties the buffer.
pub open spec fn resolves(pre: Session, guess: Seq<Colour>, post: Session, out: Result<Turn, GameError>) -> bool {
    if guess == pre.secret {
        out == Ok::<Turn, GameError>(Turn::Won) && closes_game(pre, post, true)
    } else if tries_exhausted(pre) {
        out == Ok::<Turn, GameError>(Turn::Lost) && closes_game(pre, post, false)
    } else {
        match evaluation(pre.secret, guess, pre.allow_duplicates) {
            Ok((e, c)) => {
                &&& out == Ok::<Turn, GameError>(Turn::Scored(e as usize, c as usize))
                &&& post == Session { attempts: pre.attempts.push(guess), buffer: Seq::empty(), ..pre }
            },
            Err(err) => out == Err::<Turn, GameError>(err) && post == Session { buffer: Seq::empty(), ..pre },
        }
    }
}

/// What pushing colour `c` does to a session.
pub open spec fn push_step(pre: Session, c: Colour, post: Session, out: Result<Turn, GameError>) -> bool {
    let guess = pre.buffer.push(c);
    if guess.len() != pre.length {
        out == Ok::<Turn, GameError>(Turn::Pending) && post == Session { buffer: guess, ..pre }
    } else {
        resolves(pre, guess, post, out)
    }
}

/// `post` is reached from `pre` by pushing the colours `cs` in order, none of
/// them rejected.
pub open spec fn run(pre: Session, cs: Seq<Colour>, post: Session) -> bool
    decreases cs.len(),
{
    if cs.len() == 0 {
        post == pre
    } else {
        exists|mid: Session, t: Turn|
            #[trigger] push_step(mid, cs.last(), post, Ok::<Turn, GameError>(t)) && run(pre, cs.drop_last(), mid)
    }
}

/// Every character of `s` names a colour.
pub open spec fn parses(s: Seq<char>) -> bool {
    forall|i: int| 0 <= i < s.len() ==> (#[trigger] colour_of_char(s[i])) is Some
}

/// The colours that the characters of `s` name.
pub open spec fn colours_of(s: Seq<char>) -> Seq<Colour> {
    s.map_values(|ch: char| colour_of_char(ch).unwrap())
}

/// Pushing the characters of `text` from `pre` stopped at position `k` with
/// error `e`: the characters before `k` were pushed to reach `mid`, and then
/// the character at `k` named no colour or its colour was rejected, leaving
/// `post`. `ended` says whether a game ended on the way.
pub open spec fn stops_at(
    pre: Session,
    text: Seq<char>,
    k: int,
    mid: Session,
    post: Session,
    e: GameError,
    ended: bool,
) -> bool {
    &&& 0 <= k < text.len()
    &&& parses(text.take(k))
    &&& run(pre, colours_of(text.take(k)), mid)
    &&& ended == (mid.games.len() > pre.games.len())
    &&& match colour_of_char(text[k]) {
        None => e == GameError::InvalidColour(ascii_lower(text[k])) && post == mid,
        Some(c) => push_step(mid, c, post, Err(e)),
    }
}

/// Pushing the characters of `text` from `pre` stopped early with error `e`,
/// leaving `post`; `ended` says whether a game ended before that.
pub open spec fn stopped(pre: Session, text: Seq<char>, post: Session, e: GameError, ended: bool) -> bool {
    exists|k: int, mid: Session| #[trigger] stops_at(pre, text, k, mid, post, e, ended)
}

/// Completing a guess that is the secret wins the game: the game is recorded
/// once, as won after the tries used so far, and a new game opens with no
/// tries, an empty buffer and a fresh secret.
pub proof fn lemma_win_transition(pre: Session, c: Colour, post: Session, out: Result<Turn, GameError>)
    requires
        pre.secret.len() == pre.length,
        pre.buffer.push(c) == pre.secret,
        push_step(pre, c, post, out),
    ensures
        out == Ok::<Turn, GameError>(Turn::Won),
        post.games == pre.games.push((pre.secret, pre.attempts.len(), true)),
        post.attempts.len() == 0,
        post.buffer.len() == 0,
        valid_secret(post.secret, pre.length, pre.allow_duplicates),
{
}

/// The first `j` of a run of accepted misses are scored and only add tries.
proof fn lemma_misses_scored(
    states: Seq<Session>,
    guesses: Seq<Seq<Colour>>,
    outs: Seq<Result<Turn, GameError>>,
    t: usize,
    j: int,
)
    requires
        t >= 1,
        guesses.len() == t,
        outs.len() == t,
        states.len() == t + 1,
        states[0].max_tries == Some(t),
        states[0].attempts.len() == 0,
        forall|i: int|
            0 <= i < t ==> #[trigger] guesses[i] != states[0].secret && evaluation(
                states[0].secret,
                guesses[i],
                states[0].allow_duplicates,
            ) is Ok,
        forall|i: int| 0 <= i < t ==> #[trigger] resolves(states[i], guesses[i], states[i + 1], outs[i]),
        0 <= j < t,
    ensures
        states[j].secret == states[0].secret,
        states[j].attempts.len() == j,
        states[j].games == states[0].games,
        states[j].max_tries == states[0].max_tries,
        states[j].allow_duplicates == states[0].allow_duplicates,
        forall|i: int| 0 <= i < j ==> (#[trigger] outs[i]) matches Ok(Turn::Scored(_, _)),
    decreases j,
{
    if j > 0 {
        lemma_misses_scored(states, guesses, outs, t, j - 1);
        assert(resolves(states[j - 1], guesses[j - 1], states[j], outs[j - 1]));
        assert(guesses[j - 1] != states[0].secret);
    }
}

/// With a limit of `t` tries, `t` accepted misses in a row from a fresh game
/// score the first `t - 1` and lose on the last, which records the game as
/// lost after `t - 1` tries.
pub proof fn lemma_loss_by_exhaustion(
    states: Seq<Session>,
    guesses: Seq<Seq<Colour>>,
    outs: Seq<Result<Turn, GameError>>,
    t: usize,
)
    requires
        t >= 1,
        guesses.len() == t,
        outs.len() == t,
        states.len() == t + 1,
        states[0].max_tries == Some(t),
        states[0].attempts.len() == 0,
        forall|i: int|
            0 <= i < t ==> #[trigger] guesses[i] != states[0].secret && evaluation(
                states[0].secret,
                guesses[i],
                states[0].allow_duplicates,
            ) is Ok,
        forall|i: int| 0 <= i < t ==> #[trigger] resolves(states[i], guesses[i], states[i + 1], outs[i]),
    ensures
        forall|i: int| 0 <= i < t - 1 ==> (#[trigger] outs[i]) matches Ok(Turn::Scored(_, _)),
        outs[t - 1] == Ok::<Turn, GameError>(Turn::Lost),
        states[t as int].games == states[0].games.push((states[0].secret, (t - 1) as nat, false)),
{
    lemma_misses_scored(states, guesses, outs, t, t - 1);
    assert(resolves(states[t - 1], guesses[t - 1], states[t as int], outs[t - 1]));
    assert(guesses[t - 1] != states[0].secret);
}

/// Pushing colours settles one guess for every `length` colours, in order:
/// of all the colours in the buffer and pushed, the ones after the last full
/// guess are what the buffer holds at the end.
pub proof fn lemma_run_segments(pre: Session, cs: Seq<Colour>, post: Session)
    requires
        pre.length > 0,
        pre.buffer.len() < pre.length,
        run(pre, cs, post),
    ensures
        post.length == pre.length,
        ({
            let all = pre.buffer + cs;
            let total = all.len() as int;
            post.buffer == all.subrange(total - total % (pre.length as int), total)
        }),
    decreases cs.len(),
{
    let len = pre.length as int;
    let all = pre.buffer + cs;
    let total = all.len() as int;
    if cs.len() == 0 {
        lemma_fundamental_div_mod_converse(total, len, 0, total);
        assert(all =~= pre.buffer);
        assert(all.subrange(0, total) =~= pre.buffer);
    } else {
        let (mid, t) = choose|mid: Session, t: Turn|
            #[trigger] push_step(mid, cs.last(), post, Ok::<Turn, GameError>(t)) && run(pre, cs.drop_last(), mid);
        lemma_run_segments(pre, cs.drop_last(), mid);
        let before = pre.buffer + cs.drop_last();
        assert(before =~= all.drop_last());
        let q = (total - 1) / len;
        let r = (total - 1) % len;
        lemma_fundamental_div_mod(total - 1, len);
        assert(mid.buffer.len() == r);
        if r + 1 < len {
            lemma_fundamental_div_mod_converse(total, len, q, r + 1);
            assert(post.buffer =~= all.subrange(total - (r + 1), total));
        } else {
            assert(total == (q + 1) * len) by (nonlinear_arith)
                requires
                    total - 1 == len * q + r,
                    r + 1 == len,
            ;
            lemma_fundamental_div_mod_converse(total, len, q + 1, 0);
            assert(post.buffer =~= all.subrange(total, total));
        }
    }
}

/// One game engine: the secret, the guess being typed in, the tries of the
/// current game and the record of every finished game, with a hook for a
/// win and one for a loss.
pub struct State<W: Fn(), L: Fn()> {
    pegs: Vec<Colour>,
    previously_chosen: Vec<Vec<Colour>>,
    previous_games: Vec<(Vec<Colour>, usize, bool)>,
    size_pegs: usize,
    allow_duplicates: bool,
    buffered_input: Vec<Colour>,
    max_tries: Option<usize>,
    win: W,
    lose: L,
}

impl<W: Fn(), L: Fn()> View for State<W, L> {
    type V = Session;

    closed spec fn view(&self) -> Session {
        Session {
            secret: self.pegs@,
            attempts: self.previously_chosen@.map_values(|g: Vec<Colour>| g@),
            games: self.previous_games@.map_values(
                |g: (Vec<Colour>, usize, bool)| (g.0@, g.1 as nat, g.2),
            ),
            buffer: self.buffered_input@,
            length: self.size_pegs as nat,
            allow_duplicates: self.allow_duplicates,
            max_tries: self.max_tries,
        }
    }
}

/// Whether two peg sequences are the same.
fn same_pegs(a: &Vec<Colour>, b: &Vec<Colour>) -> (r: bool)
    ensures
        r == (a@ == b@),
{
    if a.len() != b.len() {
        return false;
    }
    let mut i: usize = 0;
    while i < a.len()
        invariant
            a@.len() == b@.len(),
            i <= a.len(),
            forall|k: int| 0 <= k < i ==> a@[k] == b@[k],
        decreases a.len() - i,
    {
        if a[i] != b[i] {
            return false;
        }
        i += 1;
    }
    assert(a@ =~= b@);
    true
}

impl<W: Fn(), L: Fn()> State<W, L> {
    /// The settings are usable: a secret can be drawn and the hooks called.
    pub closed spec fn configured(&self) -> bool {
        &&& self.size_pegs <= NUM_COLOURS
        &&& call_requires(self.win, ())
        &&& call_requires(self.lose, ())
    }

    /// Everything that holds between calls, the buffer aside.
    pub open spec fn consistent(&self) -> bool {
        &&& self.configured()
        &&& valid_secret(self@.secret, self@.length, self@.allow_duplicates)
        &&& forall|i: int| 0 <= i < self@.attempts.len() ==> (#[trigger] self@.attempts[i]).len() == self@.length
        &&& (self@.max_tries matches Some(t) ==> t == 0 || self@.attempts.len() < t)
    }

    /// The session's invariant: consistent, and the guess in progress is
    /// shorter than a full guess.
    pub open spec fn wf(&self) -> bool {
        &&& self.consistent()
        &&& (self@.length == 0 || self@.buffer.len() < self@.length)
    }

    /// Starts a session with games of `size` pegs and a freshly drawn
    /// secret; none when there are fewer colours than pegs.
    pub fn new(size: usize, allow_duplicates: bool, max_tries: Option<usize>, win: W, lose: L) -> (r: Option<Self>)
        requires
            call_requires(win, ()),
            call_requires(lose, ()),
        ensures
            r is None <==> size > NUM_COLOURS,
            r matches Some(s) ==> {
                &&& s.wf()
                &&& valid_secret(s@.secret, size as nat, allow_duplicates)
                &&& s@.attempts.len() == 0
                &&& s@.games.len() == 0
                &&& s@.buffer.len() == 0
                &&& s@.length == size
                &&& s@.allow_duplicates == allow_duplicates
                &&& s@.max_tries == max_tries
            },
    {
        if size > NUM_COLOURS {
            None
        } else {
            let pegs = generate_new_pegs(size, allow_duplicates);
            let s = State {
                pegs,
                previously_chosen: Vec::new(),
                previous_games: Vec::new(),
                size_pegs: size,
                allow_duplicates,
                buffered_input: Vec::new(),
                max_tries,
                win,
                lose,
            };
            assert(s@.attempts =~= Seq::<Seq<Colour>>::empty());
            assert(s@.games =~= Seq::<(Seq<Colour>, nat, bool)>::empty());
            Some(s)
        }
    }

    /// Starts a session whose first game has the given secret; none when the
    /// secret has more pegs than there are colours, or repeats a colour while
    /// duplicates are disallowed.
    pub fn with_pegs(pegs: Vec<Colour>, allow_duplicates: bool, max_tries: Option<usize>, win: W, lose: L) -> (r: Option<Self>)
        requires
            call_requires(win, ()),
            call_requires(lose, ()),
        ensures
            r is None <==> pegs@.len() > NUM_COLOURS || (!allow_duplicates && !pegs@.no_duplicates()),
            r matches Some(s) ==> {
                &&& s.wf()
                &&& s@.secret == pegs@
                &&& s@.attempts.len() == 0
                &&& s@.games.len() == 0
                &&& s@.buffer.len() == 0
                &&& s@.length == pegs@.len()
                &&& s@.allow_duplicates == allow_duplicates
                &&& s@.max_tries == max_tries
            },
    {
        if pegs.len() > NUM_COLOURS || (!allow_duplicates && !all_distinct(&pegs)) {
            return None;
        }
        let size = pegs.len();
        proof {
            assert forall|i: int| 0 <= i < pegs@.len() implies palette().contains(#[trigger] pegs@[i]) by {
                lemma_palette_complete(pegs@[i]);
            }
        }
        let s = State {
            pegs,
            previously_chosen: Vec::new(),
            previous_games: Vec::new(),
            size_pegs: size,
            allow_duplicates,
            buffered_input: Vec::new(),
            max_tries,
            win,
            lose,
        };
        assert(s@.attempts =~= Seq::<Seq<Colour>>::empty());
        assert(s@.games =~= Seq::<(Seq<Colour>, nat, bool)>::empty());
        Some(s)
    }

    /// Abandons the game in progress without recording it: the tries and the
    /// buffer are cleared and a new secret is drawn.
    pub fn reset(&mut self)
        requires
            old(self).configured(),
        ensures
            final(self).wf(),
            final(self)@ == (Session {
                secret: final(self)@.secret,
                attempts: Seq::empty(),
                buffer: Seq::empty(),
                ..old(self)@
            }),
            valid_secret(final(self)@.secret, old(self)@.length, old(self)@.allow_duplicates),
    {
        self.previously_chosen = Vec::new();
        self.buffered_input.clear();
        self.pegs = generate_new_pegs(self.size_pegs, self.allow_duplicates);
        assert(self@.attempts =~= Seq::<Seq<Colour>>::empty());
    }

    /// Scores a guess against the secret: the attempt at `idx` of the current
    /// game, or the guess in progress when `idx` is none.
    pub fn matching(&self, idx: Option<usize>) -> (r: Result<(usize, usize), GameError>)
        requires
            self.consistent(),
            self@.buffer.len() <= self@.length,
            idx matches Some(i) ==> i < self@.attempts.len(),
        ensures
            ({
                let guess = match idx {
                    Some(i) => self@.attempts[i as int],
                    None => self@.buffer,
                };
                match r {
                    Ok((e, c)) => evaluation(self@.secret, guess, self@.allow_duplicates) == Ok::<(nat, nat), GameError>((e as nat, c as nat)),
                    Err(err) => evaluation(self@.secret, guess, self@.allow_duplicates) == Err::<(nat, nat), GameError>(err),
                }
            }),
    {
        match idx {
            Some(i) => {
                assert(self.previously_chosen@[i as int]@.len() == self.size_pegs);
                evaluate(&self.pegs, &self.previously_chosen[i], self.allow_duplicates)
            },
            None => evaluate(&self.pegs, &self.buffered_input, self.allow_duplicates),
        }
    }

    /// Records the game in progress as finished and opens the next one.
    fn close_game(&mut self, won: bool)
        requires
            old(self).consistent(),
        ensures
            final(self).wf(),
            closes_game(old(self)@, final(self)@, won),
    {
        let ghost pre = self@;
        let tries = self.previously_chosen.len();
        let mut secret: Vec<Colour> = Vec::new();
        std::mem::swap(&mut secret, &mut self.pegs);
        self.previous_games.push((secret, tries, won));
        self.reset();
        assert(self@.games =~= pre.games.push((pre.secret, pre.attempts.len(), won)));
    }

    /// Settles a complete guess: a win, a loss when the tries run out, or a
    /// score.
    fn finish_try(&mut self) -> (r: Result<Turn, GameError>)
        requires
            old(self).consistent(),
            old(self)@.buffer.len() == old(self)@.length,
        ensures
            final(self).wf(),
            resolves(old(self)@, old(self)@.buffer, final(self)@, r),
    {
        let ghost pre = self@;
        if same_pegs(&self.buffered_input, &self.pegs) {
            (self.win)();
            self.close_game(true);
            Ok(Turn::Won)
        } else if match self.max_tries {
            Some(t) => t > 0 && self.previously_chosen.len() == t - 1,
            None => false,
        } {
            (self.lose)();
            self.close_game(false);
            Ok(Turn::Lost)
        } else {
            match self.matching(None) {
                Ok((exact, colour_only)) => {
                    let mut guess: Vec<Colour> = Vec::new();
                    std::mem::swap(&mut guess, &mut self.buffered_input);
                    self.previously_chosen.push(guess);
                    assert(self@.attempts =~= pre.attempts.push(pre.buffer));
                    assert forall|i: int| 0 <= i < self@.attempts.len() implies (#[trigger] self@.attempts[i]).len()
                        == self@.length by {
                        if i < pre.attempts.len() {
                            assert(self@.attempts[i] == pre.attempts[i]);
                        }
                    }
                    Ok(Turn::Scored(exact, colour_only))
                },
                Err(err) => {
                    self.buffered_input.clear();
                    assert(self@.attempts == pre.attempts);
                    Err(err)
                },
            }
        }
    }

    /// Adds one colour to the guess in progress; a guess that becomes complete
    /// is settled at once.
    pub fn input_buffer(&mut self, value: Colour) -> (r: Result<Turn, GameError>)
        requires
            old(self).wf(),
        ensures
            final(self).wf(),
            push_step(old(self)@, value, final(self)@, r),
    {
        let ghost pre = self@;
        self.buffered_input.push(value);
        assert(self@.attempts == pre.attempts);
        if self.buffered_input.len() == self.size_pegs {
            self.finish_try()
        } else {
            Ok(Turn::Pending)
        }
    }

    /// Pushes the colour named by each character of `text` in turn, so one
    /// text may complete several guesses, and several games. Says whether a
    /// game ended. On a character that names no colour, or a rejected guess,
    /// it stops and returns the error with whether a game had already ended.
    pub fn push_string_input(&mut self, text: &str) -> (r: Result<bool, (GameError, bool)>)
        requires
            old(self).wf(),
        ensures
            final(self).wf(),
            r matches Ok(ended) ==> {
                &&& parses(text@)
                &&& run(old(self)@, colours_of(text@), final(self)@)
                &&& ended == (final(self)@.games.len() > old(self)@.games.len())
            },
            r is Err ==> stopped(old(self)@, text@, final(self)@, r->Err_0.0, r->Err_0.1),
            final(self)@.length == old(self)@.length,
            final(self)@.allow_duplicates == old(self)@.allow_duplicates,
            final(self)@.max_tries == old(self)@.max_tries,
            old(self)@.games.is_prefix_of(final(self)@.games),
            !parses(text@) ==> r is Err,
            parses(text@) && old(self)@.allow_duplicates ==> r is Ok,
    {
        let ghost start = self@;
        let n = text.unicode_len();
        let mut ended = false;
        let mut i: usize = 0;
        assert(colours_of(text@.take(0)) =~= Seq::<Colour>::empty());
        while i < n
            invariant
                self.wf(),
                start == old(self)@,
                n == text@.len(),
                i <= n,
                parses(text@.take(i as int)),
                run(start, colours_of(text@.take(i as int)), self@),
                ended == (self@.games.len() > start.games.len()),
                start.games.is_prefix_of(self@.games),
                self@.length == start.length,
                self@.allow_duplicates == start.allow_duplicates,
                self@.max_tries == start.max_tries,
            decreases n - i,
        {
            let ch = text.get_char(i);
            let ghost mid = self@;
            match Colour::from_char(ch) {
                None => {
                    assert(!parses(text@));
                    let ghost k = i as int;
                    assert(colour_of_char(text@[k]) is None);
                    assert(stops_at(start, text@, k, mid, self@, GameError::InvalidColour(ascii_lower(ch)), ended));
                    assert(stopped(start, text@, self@, GameError::InvalidColour(ascii_lower(ch)), ended));
                    return Err((GameError::InvalidColour(to_ascii_lower(ch)), ended));
                },
                Some(c) => {
                    match self.input_buffer(c) {
                        Ok(t) => {
                            match t {
                                Turn::Won | Turn::Lost => ended = true,
                                _ => {},
                            }
                            proof {
                                let done = text@.take(i as int + 1);
                                assert(done.drop_last() =~= text@.take(i as int));
                                assert forall|j: int| 0 <= j < done.len() implies (#[trigger] colour_of_char(done[j])) is Some by {
                                    if j < i {
                                        assert(done[j] == text@.take(i as int)[j]);
                                    }
                                }
                                assert(colours_of(done).drop_last() =~= colours_of(text@.take(i as int)));
                                assert(colours_of(done).last() == c);
                                assert(push_step(mid, colours_of(done).last(), self@, Ok::<Turn, GameError>(t)));
                            }
                        },
                        Err(e) => {
                            let ghost k = i as int;
                            assert(colour_of_char(text@[k]) == Some(c));
                            assert(push_step(mid, c, self@, Err::<Turn, GameError>(e)));
                            assert(stops_at(start, text@, k, mid, self@, e, ended));
                            assert(stopped(start, text@, self@, e, ended));
                            return Err((e, ended));
                        },
                    }
                },
            }
            i += 1;
        }
        assert(text@.take(n as int) =~= text@);
        Ok(ended)
    }

    /// The secret of the game in progress.
    pub fn pegs(&self) -> (r: &Vec<Colour>)
        ensures
            r@ == self@.secret,
    {
        &self.pegs
    }

    /// The colours of the guess in progress.
    pub fn buffered_input(&self) -> (r: &Vec<Colour>)
        ensures
            r@ == self@.buffer,
    {
        &self.buffered_input
    }

    /// The scored guesses of the game in progress.
    pub fn previously_chosen(&self) -> (r: &Vec<Vec<Colour>>)
        ensures
            r@.map_values(|g: Vec<Colour>| g@) == self@.attempts,
    {
        &self.previously_chosen
    }

    /// Every finished game: its secret, the tries it took, whether it was won.
    pub fn previous_games(&self) -> (r: &Vec<(Vec<Colour>, usize, bool)>)
        ensures
            r@.map_values(|g: (Vec<Colour>, usize, bool)| (g.0@, g.1 as nat, g.2)) == self@.games,
    {
        &self.previous_games
    }
}

} // verus!
