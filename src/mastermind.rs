use crate::color::{spec_letter_color, Color, COLOR_COUNT};
use vstd::prelude::*;

verus! {

/// Number of positions below `a.len()` where `a` and `b` hold the same color.
pub open spec fn well_placed(a: Seq<Color>, b: Seq<Color>) -> nat
    decreases a.len(),
{
    if a.len() == 0 {
        0
    } else {
        well_placed(a.drop_last(), b.drop_last()) + if a.last() == b[a.len() - 1] {
            1nat
        } else {
            0nat
        }
    }
}

/// Number of positions that are not well placed.
pub open spec fn not_well_placed(a: Seq<Color>, b: Seq<Color>) -> int {
    a.len() - well_placed(a, b)
}

/// Why a line of text is not a code.
#[derive(Debug, Clone, Copy, PartialEq, Eq, Structural)]
pub enum DecodeError {
    /// The line does not hold the expected number of letters (carried here).
    LengthMismatch(usize),
    /// The first letter that names no color.
    UnknownSymbol(char),
}

/// Decodes letters one by one: the colors in order, or the first letter that
/// names no color.
pub open spec fn decode_letters(letters: Seq<char>) -> Result<Seq<Color>, DecodeError>
    decreases letters.len(),
{
    if letters.len() == 0 {
        Ok(Seq::empty())
    } else {
        match decode_letters(letters.drop_last()) {
            Err(e) => Err(e),
            Ok(colors) => match spec_letter_color(letters.last()) {
                Some(c) => Ok(colors.push(c)),
                None => Err(DecodeError::UnknownSymbol(letters.last())),
            },
        }
    }
}

/// Decodes a code of `len` colors from its letters.
pub open spec fn decode(len: usize, letters: Seq<char>) -> Result<Seq<Color>, DecodeError> {
    if letters.len() != len {
        Err(DecodeError::LengthMismatch(len))
    } else {
        decode_letters(letters)
    }
}

/// What a trimmed line holds: the characters of the line without its leading
/// and trailing white space.
pub uninterp spec fn trimmed(s: Seq<char>) -> Seq<char>;

/// Relies on `str::trim` to drop leading and trailing white space; the
/// characters left are collected in order.
#[verifier::external_body]
fn trimmed_chars(s: &str) -> (r: Vec<char>)
    ensures
        r@ == trimmed(s@),
{
    s.trim().chars().collect()
}

/// Relies on `rand::Rng::gen_range` over the thread-local generator: a number
/// drawn from `0..len`.
#[verifier::external_body]
pub(crate) fn random_index(len: usize) -> (r: usize)
    requires
        len > 0,
    ensures
        r < len,
{
    rand::Rng::gen_range(&mut rand::thread_rng(), 0..len)
}

/// The outcome of one guess.
pub struct MasterMindResponse {
    pub guess: Vec<Color>,
    pub valid: bool,
    pub good: usize,
    pub wrong: usize,
}

/// A game: a hidden code and the number of guesses made so far.
pub struct MasterMind {
    secret_len: usize,
    secret: Vec<Color>,
    pub tries: u64,
}

proof fn lemma_decode_err_extends(letters: Seq<char>, k: int)
    requires
        0 <= k <= letters.len(),
        decode_letters(letters.subrange(0, k)) is Err,
    ensures
        decode_letters(letters) == decode_letters(letters.subrange(0, k)),
    decreases letters.len() - k,
{
    if k < letters.len() {
        let next = letters.subrange(0, k + 1);
        assert(next.drop_last() =~= letters.subrange(0, k));
        lemma_decode_err_extends(letters, k + 1);
    } else {
        assert(letters.subrange(0, k) =~= letters);
    }
}

/// A guess and a secret of the same length agree in at most that many places.
pub proof fn lemma_well_placed_bounded(secret: Seq<Color>, guess: Seq<Color>)
    requires
        secret.len() == guess.len(),
    ensures
        0 <= well_placed(secret, guess) <= secret.len(),
    decreases secret.len(),
{
    if secret.len() > 0 {
        lemma_well_placed_bounded(secret.drop_last(), guess.drop_last());
    }
}

/// Well-placed and not-well-placed pegs together make up the whole code.
pub proof fn lemma_good_plus_wrong(secret: Seq<Color>, guess: Seq<Color>)
    requires
        secret.len() == guess.len(),
    ensures
        well_placed(secret, guess) + not_well_placed(secret, guess) == secret.len(),
        0 <= not_well_placed(secret, guess),
{
    lemma_well_placed_bounded(secret, guess);
}

/// A code matches itself in every place.
pub proof fn lemma_well_placed_self(code: Seq<Color>)
    ensures
        well_placed(code, code) == code.len(),
    decreases code.len(),
{
    if code.len() > 0 {
        lemma_well_placed_self(code.drop_last());
    }
}

/// The number of well-placed pegs does not depend on which side is the secret.
pub proof fn lemma_well_placed_symmetric(a: Seq<Color>, b: Seq<Color>)
    requires
        a.len() == b.len(),
    ensures
        well_placed(a, b) == well_placed(b, a),
    decreases a.len(),
{
    if a.len() > 0 {
        lemma_well_placed_symmetric(a.drop_last(), b.drop_last());
    }
}

impl MasterMind {
    /// The hidden code.
    pub closed spec fn secret_code(&self) -> Seq<Color> {
        self.secret@
    }

    /// The length of the hidden code.
    pub closed spec fn code_len(&self) -> usize {
        self.secret_len
    }

    /// The number of guesses made so far.
    pub closed spec fn try_count(&self) -> nat {
        self.tries as nat
    }

    /// The hidden code has the length the game was made with.
    pub open spec fn wf(&self) -> bool {
        self.secret_code().len() == self.code_len()
    }

    /// A game around a random code of `secret_len` colors, each drawn on its
    /// own from the eight.
    pub fn new(secret_len: usize) -> (r: Self)
        ensures
            r.wf(),
            r.code_len() == secret_len,
            r.try_count() == 0,
    {
        let mut secret: Vec<Color> = Vec::new();
        let mut i: usize = 0;
        while i < secret_len
            invariant
                i <= secret_len,
                secret@.len() == i,
            decreases secret_len - i,
        {
            secret.push(Color::from_index(random_index(COLOR_COUNT)));
            i = i + 1;
        }
        MasterMind { secret_len, secret, tries: 0 }
    }

    /// A game around the given code.
    pub fn with_secret(secret: Vec<Color>) -> (r: Self)
        ensures
            r.wf(),
            r.secret_code() == secret@,
            r.code_len() == secret@.len(),
            r.try_count() == 0,
    {
        MasterMind { secret_len: secret.len(), secret, tries: 0 }
    }

    /// The length of the hidden code.
    pub fn secret_len(&self) -> (r: usize)
        ensures
            r == self.code_len(),
    {
        self.secret_len
    }

    /// Reads a guess from a line: surrounding white space is dropped, then
    /// each letter names one color, in either case.
    pub fn to_mastermind_colors(&self, input: &str) -> (r: Result<Vec<Color>, DecodeError>)
        ensures
            match r {
                Ok(v) => decode(self.code_len(), trimmed(input@)) == Ok::<_, DecodeError>(v@),
                Err(e) => decode(self.code_len(), trimmed(input@)) == Err::<Seq<Color>, _>(e),
            },
    {
        let letters = trimmed_chars(input);
        decode_colors(self.secret_len, &letters)
    }

    /// Scores a guess against the hidden code and counts the try.
    pub fn guess(&mut self, combination: &[Color]) -> (r: MasterMindResponse)
        requires
            old(self).wf(),
            combination@.len() == old(self).code_len(),
            old(self).try_count() < u64::MAX,
        ensures
            final(self).wf(),
            final(self).secret_code() == old(self).secret_code(),
            final(self).code_len() == old(self).code_len(),
            final(self).try_count() == old(self).try_count() + 1,
            r.guess@ == combination@,
            r.good == well_placed(old(self).secret_code(), combination@),
            r.wrong == not_well_placed(old(self).secret_code(), combination@),
            r.valid == (r.good == old(self).code_len()),
    {
        self.tries = self.tries + 1;
        let good = Self::number_of_well_placed_pawns(self.secret.as_slice(), combination);
        let wrong = Self::number_of_not_well_placed_pawns(self.secret.as_slice(), combination);
        MasterMindResponse {
            guess: vstd::slice::slice_to_vec(combination),
            valid: good == self.secret_len,
            good,
            wrong,
        }
    }

    /// Counts the positions where the guess holds the secret's color.
    pub fn number_of_well_placed_pawns(secret: &[Color], combination: &[Color]) -> (r: usize)
        requires
            secret@.len() == combination@.len(),
        ensures
            r == well_placed(secret@, combination@),
    {
        let mut count: usize = 0;
        let mut i: usize = 0;
        while i < secret.len()
            invariant
                i <= secret@.len(),
                secret@.len() == combination@.len(),
                count == well_placed(secret@.subrange(0, i as int), combination@.subrange(0, i as int)),
            decreases secret@.len() - i,
        {
            proof {
                lemma_well_placed_bounded(
                    secret@.subrange(0, i as int),
                    combination@.subrange(0, i as int),
                );
                let a = secret@.subrange(0, i + 1);
                let b = combination@.subrange(0, i + 1);
                assert(a.drop_last() =~= secret@.subrange(0, i as int));
                assert(b.drop_last() =~= combination@.subrange(0, i as int));
            }
            if secret[i] == combination[i] {
                count = count + 1;
            }
            i = i + 1;
        }
        assert(secret@.subrange(0, i as int) =~= secret@);
        assert(combination@.subrange(0, i as int) =~= combination@);
        count
    }

    /// Counts the positions where the guess does not hold the secret's color.
    pub fn number_of_not_well_placed_pawns(secret: &[Color], combination: &[Color]) -> (r: usize)
        requires
            secret@.len() == combination@.len(),
        ensures
            r == not_well_placed(secret@, combination@),
    {
        let good = MasterMind::number_of_well_placed_pawns(secret, combination);
        proof {
            lemma_well_placed_bounded(secret@, combination@);
        }
        secret.len() - good
    }
}

/// Decodes a code of `secret_len` colors from its letters: a length other than
/// `secret_len` is refused first, then the first letter that names no color.
pub fn decode_colors(secret_len: usize, letters: &[char]) -> (r: Result<Vec<Color>, DecodeError>)
    ensures
        match r {
            Ok(v) => decode(secret_len, letters@) == Ok::<_, DecodeError>(v@),
            Err(e) => decode(secret_len, letters@) == Err::<Seq<Color>, _>(e),
        },
{
    if letters.len() != secret_len {
        return Err(DecodeError::LengthMismatch(secret_len));
    }
    let mut colors: Vec<Color> = Vec::new();
    let mut i: usize = 0;
    while i < letters.len()
        invariant
            i <= letters@.len(),
            letters@.len() == secret_len,
            decode_letters(letters@.subrange(0, i as int)) == Ok::<_, DecodeError>(colors@),
        decreases letters@.len() - i,
    {
        proof {
            let prefix = letters@.subrange(0, i + 1);
            assert(prefix.drop_last() =~= letters@.subrange(0, i as int));
        }
        match Color::from_letter(letters[i]) {
            Some(c) => colors.push(c),
            None => {
                proof {
                    let prefix = letters@.subrange(0, i + 1);
                    assert(prefix.drop_last() =~= letters@.subrange(0, i as int));
                    assert(prefix.last() == letters@[i as int]);
                    assert(decode_letters(prefix) == Err::<Seq<Color>, _>(
                        DecodeError::UnknownSymbol(letters@[i as int]),
                    ));
                    lemma_decode_err_extends(letters@, i + 1);
                }
                return Err(DecodeError::UnknownSymbol(letters[i]));
            },
        }
        i = i + 1;
    }
    assert(letters@.subrange(0, i as int) =~= letters@);
    Ok(colors)
}

} // verus!
