use crate::color::{all_colors, Color, COLOR_COUNT};
use crate::mastermind::{
    lemma_well_placed_bounded, lemma_well_placed_self, lemma_well_placed_symmetric,
    not_well_placed, random_index, well_placed, MasterMind, MasterMindResponse,
};
use vstd::arithmetic::power::{lemma_pow_increases, pow};
use vstd::layout::size_of;
use vstd::prelude::*;

verus! {

/// `c` is a sequence of `len` colors, each one of `items`.
pub open spec fn is_code_over(c: Seq<Color>, items: Seq<Color>, len: nat) -> bool {
    &&& c.len() == len
    &&& forall|j: int| 0 <= j < c.len() ==> items.contains(#[trigger] c[j])
}

/// The codes that a list of vectors holds.
pub open spec fn codes_of(v: Seq<Vec<Color>>) -> Seq<Seq<Color>> {
    v.map_values(|c: Vec<Color>| c@)
}

/// The space once the code at `index` is taken out: the last code moves into
/// its place.
pub open spec fn without(space: Seq<Seq<Color>>, index: int) -> Seq<Seq<Color>> {
    space.update(index, space.last()).drop_last()
}

/// The codes of `space`, in order, that match `guess` in at least `good`
/// places.
pub open spec fn retained(space: Seq<Seq<Color>>, guess: Seq<Color>, good: nat) -> Seq<Seq<Color>> {
    space.filter(|c: Seq<Color>| well_placed(guess, c) >= good)
}

/// Relies on `itertools::Itertools::multi_cartesian_product` over `len` copies
/// of `items`, collected into a vector: each sequence of `len` elements drawn
/// from `items` comes out, and there are `items.len()` to the power `len` of
/// them. The bound on their total size keeps the vector's allocation from
/// overflowing.
#[verifier::external_body]
fn cartesian_power(items: Vec<Color>, len: usize) -> (r: Vec<Vec<Color>>)
    requires
        len >= 1,
        pow(items@.len() as int, len as nat) <= usize::MAX,
        pow(items@.len() as int, len as nat) * size_of::<Vec<Color>>() <= isize::MAX,
    ensures
        r@.len() == pow(items@.len() as int, len as nat),
        forall|i: int| 0 <= i < r@.len() ==> is_code_over(#[trigger] r@[i]@, items@, len as nat),
        forall|c: Seq<Color>|
            is_code_over(c, items@, len as nat) ==> exists|i: int|
                0 <= i < r@.len() && #[trigger] r@[i]@ == c,
{
    itertools::Itertools::collect_vec(
        itertools::Itertools::multi_cartesian_product(std::iter::repeat(items).take(len)),
    )
}

/// The number of codes of `len` colors, when it fits in a `usize`.
pub fn candidate_count(len: usize) -> (r: Option<usize>)
    ensures
        r == if pow(COLOR_COUNT as int, len as nat) <= usize::MAX {
            Some(pow(COLOR_COUNT as int, len as nat) as usize)
        } else {
            None::<usize>
        },
{
    let mut count: usize = 1;
    let mut i: usize = 0;
    proof {
        reveal(pow);
    }
    while i < len
        invariant
            i <= len,
            count == pow(COLOR_COUNT as int, i as nat),
        decreases len - i,
    {
        proof {
            reveal(pow);
            assert(pow(COLOR_COUNT as int, (i + 1) as nat) == COLOR_COUNT * pow(
                COLOR_COUNT as int,
                i as nat,
            ));
        }
        match count.checked_mul(COLOR_COUNT) {
            Some(c) => count = c,
            None => {
                proof {
                    lemma_pow_increases(COLOR_COUNT as nat, (i + 1) as nat, len as nat);
                }
                return None;
            },
        }
        i = i + 1;
    }
    Some(count)
}

/// The product behind the memory estimate of `count` codes of `len` colors:
/// the size of the outer list, `count`, the size of one code, the size of one
/// color, and `len`.
pub open spec fn memory_product(count: nat, len: nat) -> nat {
    size_of::<Vec<Vec<Color>>>() * count * size_of::<Vec<Color>>() * size_of::<Color>() * len
}

proof fn lemma_mul_at_least(x: int, y: int)
    requires
        x >= 0,
        y >= 1,
    ensures
        x * y >= x,
{
    assert(x * y >= x) by (nonlinear_arith)
        requires
            x >= 0,
            y >= 1,
    ;
}

/// Approximate memory, in bytes, that `count` codes of `len` colors take:
/// an eighth of `memory_product(count, len)`, when that product fits in a
/// `usize`.
pub fn memory_estimate(count: usize, len: usize) -> (r: Option<usize>)
    ensures
        r == if memory_product(count as nat, len as nat) <= usize::MAX {
            Some((memory_product(count as nat, len as nat) / 8) as usize)
        } else {
            None::<usize>
        },
{
    let outer = core::mem::size_of::<Vec<Vec<Color>>>();
    let code = core::mem::size_of::<Vec<Color>>();
    let color = core::mem::size_of::<Color>();
    let ghost product = memory_product(count as nat, len as nat);
    if outer == 0 || count == 0 || code == 0 || color == 0 || len == 0 {
        assert(product == 0) by (nonlinear_arith)
            requires
                product == outer * count * code * color * len,
                outer == 0 || count == 0 || code == 0 || color == 0 || len == 0,
        ;
        return Some(0);
    }
    let p1 = match outer.checked_mul(count) {
        Some(p) => p,
        None => {
            proof {
                lemma_mul_at_least(outer * count, code as int);
                lemma_mul_at_least(outer * count * code, color as int);
                lemma_mul_at_least(outer * count * code * color, len as int);
            }
            return None;
        },
    };
    let p2 = match p1.checked_mul(code) {
        Some(p) => p,
        None => {
            proof {
                lemma_mul_at_least(outer * count * code, color as int);
                lemma_mul_at_least(outer * count * code * color, len as int);
            }
            return None;
        },
    };
    let p3 = match p2.checked_mul(color) {
        Some(p) => p,
        None => {
            proof {
                lemma_mul_at_least(outer * count * code * color, len as int);
            }
            return None;
        },
    };
    match p3.checked_mul(len) {
        Some(p) => Some(p / 8),
        None => None,
    }
}

/// What one solver step led to.
pub enum SolverStep {
    /// The guess was the secret.
    Solved(MasterMindResponse),
    /// The guess was not the secret; the search goes on.
    Searching(MasterMindResponse),
    /// No candidate was left to try.
    Exhausted,
}

/// An automated player: the codes it still holds possible, and the best number
/// of well-placed pegs seen so far.
pub struct Solver {
    code_len: usize,
    candidates: Vec<Vec<Color>>,
    best_good: usize,
}

/// The feedback in `resp` is that of `guess` against `secret`.
pub open spec fn scored(resp: MasterMindResponse, secret: Seq<Color>, guess: Seq<Color>) -> bool {
    &&& resp.guess@ == guess
    &&& resp.good == well_placed(secret, guess)
    &&& resp.wrong == not_well_placed(secret, guess)
    &&& resp.valid == (resp.good == secret.len())
}

/// One step of the search that tries the candidate at `index`: from solver
/// `pre` and game `game_pre` to `post` and `game_post`, with result `r`.
pub open spec fn stepped(
    pre: Solver,
    post: Solver,
    game_pre: MasterMind,
    game_post: MasterMind,
    index: int,
    r: SolverStep,
) -> bool {
    if pre.space().len() == 0 {
        &&& r is Exhausted
        &&& post == pre
        &&& game_post == game_pre
    } else {
        let guess = pre.space()[index];
        let secret = game_pre.secret_code();
        let good = well_placed(secret, guess);
        let rest = without(pre.space(), index);
        &&& 0 <= index < pre.space().len()
        &&& game_post.secret_code() == secret
        &&& game_post.code_len() == game_pre.code_len()
        &&& game_post.try_count() == game_pre.try_count() + 1
        &&& post.code_len() == pre.code_len()
        &&& match r {
            SolverStep::Solved(resp) => scored(resp, secret, guess) && good == secret.len()
                && post.space() == rest && post.best() == pre.best(),
            SolverStep::Searching(resp) => scored(resp, secret, guess) && good < secret.len()
                && if good > pre.best() {
                post.best() == good && post.space() == retained(rest, guess, good)
            } else {
                post.best() == pre.best() && post.space() == rest
            },
            SolverStep::Exhausted => false,
        }
    }
}

/// Filtering after a guess never drops the secret: the secret matches the
/// guess in exactly as many places as the feedback reports, so it meets the
/// threshold that the filter keeps.
pub proof fn lemma_retained_keeps_secret(
    space: Seq<Seq<Color>>,
    guess: Seq<Color>,
    secret: Seq<Color>,
)
    requires
        space.contains(secret),
        guess.len() == secret.len(),
    ensures
        retained(space, guess, well_placed(secret, guess)).contains(secret),
{
    lemma_well_placed_symmetric(secret, guess);
    let j = choose|j: int| 0 <= j < space.len() && space[j] == secret;
    space.lemma_filter_contains(|c: Seq<Color>| well_placed(guess, c) >= well_placed(secret, guess), j);
}

/// Taking out a code other than the secret keeps the secret.
proof fn lemma_without_keeps(space: Seq<Seq<Color>>, index: int, secret: Seq<Color>)
    requires
        0 <= index < space.len(),
        space.contains(secret),
        space[index] != secret,
    ensures
        without(space, index).contains(secret),
{
    let j = choose|j: int| 0 <= j < space.len() && space[j] == secret;
    let rest = without(space, index);
    if j == space.len() - 1 {
        assert(rest[index] == secret);
    } else {
        assert(rest[j] == secret);
    }
}

impl Solver {
    /// The candidate codes, in the order held.
    pub closed spec fn space(&self) -> Seq<Seq<Color>> {
        codes_of(self.candidates@)
    }

    /// The length of the codes searched.
    pub closed spec fn code_len(&self) -> usize {
        self.code_len
    }

    /// The best number of well-placed pegs seen so far.
    pub closed spec fn best(&self) -> usize {
        self.best_good
    }

    /// Every candidate has the length searched.
    pub open spec fn wf(&self) -> bool {
        forall|i: int| 0 <= i < self.space().len() ==> (#[trigger] self.space()[i]).len() == self.code_len()
    }

    /// A solver that holds every code of `code_len` colors possible.
    pub fn new(code_len: usize) -> (r: Self)
        requires
            code_len >= 1,
            pow(COLOR_COUNT as int, code_len as nat) <= usize::MAX,
            pow(COLOR_COUNT as int, code_len as nat) * size_of::<Vec<Color>>() <= isize::MAX,
        ensures
            r.wf(),
            r.code_len() == code_len,
            r.best() == 0,
            r.space().len() == pow(COLOR_COUNT as int, code_len as nat),
            forall|c: Seq<Color>| c.len() == code_len ==> #[trigger] r.space().contains(c),
    {
        let items = all_colors();
        let candidates = cartesian_power(items, code_len);
        let r = Solver { code_len, candidates, best_good: 0 };
        assert forall|i: int| 0 <= i < r.space().len() implies (#[trigger] r.space()[i]).len() == code_len by {
            assert(is_code_over(candidates@[i]@, items@, code_len as nat));
        }
        assert forall|c: Seq<Color>| c.len() == code_len implies #[trigger] r.space().contains(c) by {
            assert(is_code_over(c, items@, code_len as nat));
            let i = choose|i: int| 0 <= i < candidates@.len() && #[trigger] candidates@[i]@ == c;
            assert(r.space()[i] == c);
        }
        r
    }

    /// How many candidates are left.
    pub fn remaining(&self) -> (r: usize)
        ensures
            r == self.space().len(),
    {
        self.candidates.len()
    }

    /// Tries the candidate at `index` against the game: the candidate is taken
    /// out of the space; if it is not the secret and beats the best feedback
    /// seen, only the candidates that match it in at least as many places stay.
    pub fn step_at(&mut self, game: &mut MasterMind, index: usize) -> (r: SolverStep)
        requires
            old(self).wf(),
            old(game).wf(),
            old(game).code_len() == old(self).code_len(),
            old(game).try_count() < u64::MAX,
            old(self).space().len() > 0 ==> index < old(self).space().len(),
        ensures
            final(self).wf(),
            final(game).wf(),
            stepped(*old(self), *final(self), *old(game), *final(game), index as int, r),
            old(self).space().len() > 0 ==> final(self).space().len() < old(self).space().len(),
            old(self).space().contains(old(game).secret_code()) && r is Searching
                ==> final(self).space().contains(old(game).secret_code()),
    {
        if self.candidates.len() == 0 {
            return SolverStep::Exhausted;
        }
        let ghost pre = *self;
        let ghost secret = game.secret_code();
        let guess = self.candidates.swap_remove(index);
        proof {
            assert(self.space() =~= without(pre.space(), index as int));
            assert(guess@ == pre.space()[index as int]);
            assert forall|i: int| 0 <= i < self.space().len() implies (#[trigger] self.space()[i]).len() == self.code_len() by {
                if i == index {
                    assert(self.space()[i] == pre.space().last());
                } else {
                    assert(self.space()[i] == pre.space()[i]);
                }
            }
        }
        let resp = game.guess(guess.as_slice());
        if resp.valid {
            return SolverStep::Solved(resp);
        }
        proof {
            lemma_well_placed_bounded(secret, guess@);
            if pre.space().contains(secret) {
                if secret == guess@ {
                    lemma_well_placed_self(secret);
                }
                lemma_without_keeps(pre.space(), index as int, secret);
            }
        }
        if resp.good > self.best_good {
            self.best_good = resp.good;
            self.keep_matching(&guess, resp.good);
            proof {
                if pre.space().contains(secret) {
                    lemma_retained_keeps_secret(without(pre.space(), index as int), guess@, secret);
                }
            }
        }
        SolverStep::Searching(resp)
    }

    /// Keeps, in order, the candidates that match `guess` in at least `good`
    /// places.
    fn keep_matching(&mut self, guess: &Vec<Color>, good: usize)
        requires
            old(self).wf(),
            guess@.len() == old(self).code_len(),
        ensures
            final(self).wf(),
            final(self).code_len() == old(self).code_len(),
            final(self).best() == old(self).best(),
            final(self).space() == retained(old(self).space(), guess@, good as nat),
    {
        let ghost space = self.space();
        let mut kept: Vec<Vec<Color>> = Vec::new();
        let mut i: usize = 0;
        while i < self.candidates.len()
            invariant
                i <= self.candidates@.len(),
                space == codes_of(self.candidates@),
                self.wf(),
                guess@.len() == self.code_len(),
                codes_of(kept@) == retained(space.subrange(0, i as int), guess@, good as nat),
            decreases self.candidates@.len() - i,
        {
            proof {
                reveal(Seq::filter);
                assert(space.subrange(0, i + 1).drop_last() =~= space.subrange(0, i as int));
                assert(space[i as int] == self.candidates@[i as int]@);
                assert(self.space()[i as int].len() == self.code_len());
            }
            let matched = MasterMind::number_of_well_placed_pawns(
                guess.as_slice(),
                self.candidates[i].as_slice(),
            );
            if matched >= good {
                let code = vstd::slice::slice_to_vec(self.candidates[i].as_slice());
                let ghost before = kept@;
                kept.push(code);
                proof {
                    assert(codes_of(kept@) =~= codes_of(before).push(code@));
                }
            }
            i = i + 1;
        }
        proof {
            assert(space.subrange(0, i as int) =~= space);
        }
        self.candidates = kept;
        proof {
            assert forall|j: int| 0 <= j < self.space().len() implies (#[trigger] self.space()[j]).len() == self.code_len() by {
                space.lemma_filter_pred(|c: Seq<Color>| well_placed(guess@, c) >= good as nat, j);
                let c = self.space()[j];
                assert(space.filter(|c: Seq<Color>| well_placed(guess@, c) >= good as nat).contains(c));
                space.lemma_filter_contains_rev(|c: Seq<Color>| well_placed(guess@, c) >= good as nat, c);
            }
        }
    }

    /// Draws a candidate at random and tries it, as `step_at` does.
    pub fn step(&mut self, game: &mut MasterMind) -> (r: SolverStep)
        requires
            old(self).wf(),
            old(game).wf(),
            old(game).code_len() == old(self).code_len(),
            old(game).try_count() < u64::MAX,
        ensures
            final(self).wf(),
            final(game).wf(),
            exists|index: int| stepped(*old(self), *final(self), *old(game), *final(game), index, r),
            r is Exhausted <==> old(self).space().len() == 0,
            old(self).space().len() > 0 ==> final(self).space().len() < old(self).space().len(),
            old(self).space().contains(old(game).secret_code()) && r is Searching
                ==> final(self).space().contains(old(game).secret_code()),
    {
        let n = self.candidates.len();
        let index: usize = if n == 0 {
            0
        } else {
            random_index(n)
        };
        self.step_at(game, index)
    }
}

} // verus!
