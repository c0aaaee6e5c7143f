//! The feedback engine: what a guess earns against an answer, letter by
//! letter, stated by counting and computed with a pool of answer letters.

use vstd::prelude::*;

verus! {

/// The verdict on one letter of a guess.
#[derive(Debug, Copy, Clone, PartialEq, Eq, Structural)]
pub enum LetterType {
    /// The letter stands at this position in the answer.
    Correct,
    /// The letter occurs in the answer, elsewhere, and is not yet spoken for.
    Misplaced,
    /// No unclaimed instance of the letter is left in the answer.
    Absent,
}

/// How many of the first `n` answer positions hold the letter `c` without
/// being matched exactly by the guess.
pub open spec fn unmatched(guess: Seq<char>, answer: Seq<char>, c: char, n: int) -> nat
    decreases n,
{
    if n <= 0 {
        0
    } else {
        let rest = unmatched(guess, answer, c, n - 1);
        if answer[n - 1] == c && guess[n - 1] != c {
            rest + 1
        } else {
            rest
        }
    }
}

/// How many of the first `i` guess positions hold the letter `c` without
/// matching the answer exactly: the claims made on `c` before position `i`.
pub open spec fn claimed(guess: Seq<char>, answer: Seq<char>, c: char, i: int) -> nat
    decreases i,
{
    if i <= 0 {
        0
    } else {
        let rest = claimed(guess, answer, c, i - 1);
        if guess[i - 1] == c && answer[i - 1] != c {
            rest + 1
        } else {
            rest
        }
    }
}

/// The verdict on position `i` of the guess: an exact match is `Correct`; a
/// letter with an unmatched instance in the answer that earlier positions of
/// the guess have not used up is `Misplaced`; anything else is `Absent`.
pub open spec fn verdict(guess: Seq<char>, answer: Seq<char>, i: int) -> LetterType {
    if guess[i] == answer[i] {
        LetterType::Correct
    } else if claimed(guess, answer, guess[i], i) < unmatched(
        guess,
        answer,
        guess[i],
        answer.len() as int,
    ) {
        LetterType::Misplaced
    } else {
        LetterType::Absent
    }
}

/// The whole feedback of `guess` against `answer`.
pub open spec fn feedback(guess: Seq<char>, answer: Seq<char>) -> Seq<LetterType> {
    Seq::new(guess.len(), |i: int| verdict(guess, answer, i))
}

/// The answer letters still available once the exact matches are set aside.
pub open spec fn fresh_pool(guess: Seq<char>, answer: Seq<char>) -> Seq<Option<char>> {
    Seq::new(
        answer.len(),
        |k: int|
            if guess[k] == answer[k] {
                None
            } else {
                Some(answer[k])
            },
    )
}

/// How many of the first `n` pool slots hold the letter `c`.
pub open spec fn pool_count(pool: Seq<Option<char>>, c: char, n: int) -> nat
    decreases n,
{
    if n <= 0 {
        0
    } else {
        let rest = pool_count(pool, c, n - 1);
        if pool[n - 1] == Some(c) {
            rest + 1
        } else {
            rest
        }
    }
}

/// The pool as it stands when the positions before `i` have made their
/// claims: each letter has as many slots left as unmatched instances exceed
/// the claims made so far.
pub open spec fn pool_at(pool: Seq<Option<char>>, guess: Seq<char>, answer: Seq<char>, i: int) -> bool {
    &&& pool.len() == answer.len()
    &&& forall|c: char| #[trigger]
        pool_count(pool, c, pool.len() as int) + claimed(guess, answer, c, i) == unmatched(
            guess,
            answer,
            c,
            answer.len() as int,
        ) || (pool_count(pool, c, pool.len() as int) == 0 && claimed(guess, answer, c, i)
            >= unmatched(guess, answer, c, answer.len() as int))
}

proof fn lemma_fresh_pool_count(guess: Seq<char>, answer: Seq<char>, c: char, n: int)
    requires
        guess.len() == answer.len(),
        0 <= n <= answer.len(),
    ensures
        pool_count(fresh_pool(guess, answer), c, n) == unmatched(guess, answer, c, n),
    decreases n,
{
    if n > 0 {
        lemma_fresh_pool_count(guess, answer, c, n - 1);
    }
}

proof fn lemma_pool_has(pool: Seq<Option<char>>, c: char, n: int)
    requires
        0 <= n <= pool.len(),
    ensures
        pool_count(pool, c, n) > 0 <==> exists|k: int| 0 <= k < n && pool[k] == Some(c),
    decreases n,
{
    if n > 0 {
        lemma_pool_has(pool, c, n - 1);
        if pool[n - 1] == Some(c) {
            assert(0 <= n - 1 < n && pool[n - 1] == Some(c));
        }
    }
}

proof fn lemma_pool_take(pool: Seq<Option<char>>, k: int, c: char, n: int)
    requires
        0 <= k < pool.len(),
        0 <= n <= pool.len(),
    ensures
        pool_count(pool.update(k, None), c, n) == if k < n && pool[k] == Some(c) {
            pool_count(pool, c, n) - 1
        } else {
            pool_count(pool, c, n) as int
        },
    decreases n,
{
    if n > 0 {
        lemma_pool_take(pool, k, c, n - 1);
    }
}

/// Takes the first pool slot that holds `letter`, if there is one.
fn take_letter<const N: usize>(pool: &mut [Option<char>; N], letter: char) -> (found: bool)
    ensures
        found == (pool_count(old(pool)@, letter, N as int) > 0),
        forall|c: char|
            #![trigger pool_count(final(pool)@, c, N as int)]
            pool_count(final(pool)@, c, N as int) == if found && c == letter {
                pool_count(old(pool)@, c, N as int) - 1
            } else {
                pool_count(old(pool)@, c, N as int) as int
            },
{
    let mut k: usize = 0;
    while k < N
        invariant
            k <= N,
            *pool == *old(pool),
            forall|j: int| 0 <= j < k ==> pool@[j] != Some(letter),
        decreases N - k,
    {
        if pool[k] == Some(letter) {
            proof {
                lemma_pool_has(pool@, letter, N as int);
                assert forall|c: char|
                    #![trigger pool_count(pool@.update(k as int, None), c, N as int)]
                    pool_count(pool@.update(k as int, None), c, N as int) == if c == letter {
                        pool_count(pool@, c, N as int) - 1
                    } else {
                        pool_count(pool@, c, N as int) as int
                    } by {
                    lemma_pool_take(pool@, k as int, c, N as int);
                }
            }
            pool[k] = None;
            return true;
        }
        k += 1;
    }
    proof {
        lemma_pool_has(pool@, letter, N as int);
    }
    false
}

proof fn lemma_pool_start(guess: Seq<char>, answer: Seq<char>)
    requires
        guess.len() == answer.len(),
    ensures
        pool_at(fresh_pool(guess, answer), guess, answer, 0),
{
    assert forall|c: char| #[trigger]
        pool_count(fresh_pool(guess, answer), c, answer.len() as int) == unmatched(
            guess,
            answer,
            c,
            answer.len() as int,
        ) by {
        lemma_fresh_pool_count(guess, answer, c, answer.len() as int);
    }
}

/// Computes the feedback of `guess` against `answer` in two passes: exact
/// matches first, which keep their answer letters out of the pool; then, in
/// position order, every other letter takes the first pool slot that holds
/// it, or is absent.
pub fn from_guess<const N: usize>(guess: &[char; N], answer: &[char; N]) -> (pattern: [LetterType;
    N])
    ensures
        pattern@ == feedback(guess@, answer@),
{
    let mut pattern = [LetterType::Absent;N];
    let mut pool: [Option<char>; N] = [None;N];
    let mut i: usize = 0;
    while i < N
        invariant
            i <= N,
            forall|j: int| 0 <= j < i ==> pool@[j] == fresh_pool(guess@, answer@)[j],
            forall|j: int| 0 <= j < i && guess@[j] == answer@[j] ==> pattern@[j] == LetterType::Correct,
        decreases N - i,
    {
        if guess[i] == answer[i] {
            pattern[i] = LetterType::Correct;
            pool[i] = None;
        } else {
            pool[i] = Some(answer[i]);
        }
        i += 1;
    }
    proof {
        assert(pool@ =~= fresh_pool(guess@, answer@));
        lemma_pool_start(guess@, answer@);
    }
    i = 0;
    while i < N
        invariant
            i <= N,
            pool_at(pool@, guess@, answer@, i as int),
            forall|j: int| 0 <= j < i ==> pattern@[j] == verdict(guess@, answer@, j),
            forall|j: int| i <= j < N && guess@[j] == answer@[j] ==> pattern@[j] == LetterType::Correct,
        decreases N - i,
    {
        if guess[i] != answer[i] {
            let ghost before = pool@;
            let found = take_letter(&mut pool, guess[i]);
            pattern[i] = if found {
                LetterType::Misplaced
            } else {
                LetterType::Absent
            };
            proof {
                lemma_pool_step(before, pool@, guess@, answer@, i as int, found);
            }
        } else {
            proof {
                lemma_pool_skip(pool@, guess@, answer@, i as int);
            }
        }
        i += 1;
    }
    assert(pattern@ =~= feedback(guess@, answer@));
    pattern
}

proof fn lemma_pool_skip(pool: Seq<Option<char>>, guess: Seq<char>, answer: Seq<char>, i: int)
    requires
        0 <= i < guess.len(),
        guess.len() == answer.len(),
        guess[i] == answer[i],
        pool_at(pool, guess, answer, i),
    ensures
        pool_at(pool, guess, answer, i + 1),
{
    assert forall|c: char|
        claimed(guess, answer, c, i + 1) == claimed(guess, answer, c, i) by {}
    assert forall|c: char| #[trigger]
        pool_count(pool, c, pool.len() as int) + claimed(guess, answer, c, i + 1) == unmatched(
            guess,
            answer,
            c,
            answer.len() as int,
        ) || (pool_count(pool, c, pool.len() as int) == 0 && claimed(guess, answer, c, i + 1)
            >= unmatched(guess, answer, c, answer.len() as int)) by {
        assert(claimed(guess, answer, c, i + 1) == claimed(guess, answer, c, i));
    }
}

proof fn lemma_pool_step(
    before: Seq<Option<char>>,
    after: Seq<Option<char>>,
    guess: Seq<char>,
    answer: Seq<char>,
    i: int,
    found: bool,
)
    requires
        0 <= i < guess.len(),
        guess.len() == answer.len(),
        before.len() == answer.len(),
        after.len() == answer.len(),
        guess[i] != answer[i],
        pool_at(before, guess, answer, i),
        found == (pool_count(before, guess[i], answer.len() as int) > 0),
        forall|c: char|
            #![trigger pool_count(after, c, answer.len() as int)]
            pool_count(after, c, answer.len() as int) == if found && c == guess[i] {
                pool_count(before, c, answer.len() as int) - 1
            } else {
                pool_count(before, c, answer.len() as int) as int
            },
    ensures
        pool_at(after, guess, answer, i + 1),
        found == (verdict(guess, answer, i) == LetterType::Misplaced),
        !found == (verdict(guess, answer, i) == LetterType::Absent),
{
    let n = answer.len() as int;
    assert(pool_count(before, guess[i], n) + claimed(guess, answer, guess[i], i) == unmatched(
        guess,
        answer,
        guess[i],
        n,
    ) || (pool_count(before, guess[i], n) == 0 && claimed(guess, answer, guess[i], i) >= unmatched(
        guess,
        answer,
        guess[i],
        n,
    )));
    assert forall|c: char| #[trigger]
        pool_count(after, c, n) + claimed(guess, answer, c, i + 1) == unmatched(
            guess,
            answer,
            c,
            n,
        ) || (pool_count(after, c, n) == 0 && claimed(guess, answer, c, i + 1) >= unmatched(
            guess,
            answer,
            c,
            n,
        )) by {
        assert(pool_count(before, c, n) + claimed(guess, answer, c, i) == unmatched(
            guess,
            answer,
            c,
            n,
        ) || (pool_count(before, c, n) == 0 && claimed(guess, answer, c, i) >= unmatched(
            guess,
            answer,
            c,
            n,
        )));
        assert(claimed(guess, answer, c, i + 1) == claimed(guess, answer, c, i) + if c
            == guess[i] {
            1int
        } else {
            0int
        });
    }
}

/// Whether `candidate`, as the answer, would have earned `guess` exactly
/// `pattern`. The first pass compares the exact matches with the `Correct`
/// marks and fills the pool; the second walks the other positions in order,
/// taking a pool slot for each `Misplaced` mark and finding none for each
/// `Absent` mark. It gives up at the first disagreement.
pub fn matches<const N: usize>(
    candidate: &[char; N],
    pattern: &[LetterType; N],
    guess: &[char; N],
) -> (agrees: bool)
    ensures
        agrees == (feedback(guess@, candidate@) == pattern@),
{
    let mut pool: [Option<char>; N] = [None;N];
    let mut i: usize = 0;
    while i < N
        invariant
            i <= N,
            forall|j: int| 0 <= j < i ==> pool@[j] == fresh_pool(guess@, candidate@)[j],
            forall|j: int|
                0 <= j < i ==> (guess@[j] == candidate@[j]) == (pattern@[j] == LetterType::Correct),
        decreases N - i,
    {
        let exact = guess[i] == candidate[i];
        let marked = is_correct(pattern[i]);
        if exact != marked {
            assert(feedback(guess@, candidate@)[i as int] != pattern@[i as int]);
            return false;
        }
        pool[i] = if exact {
            None
        } else {
            Some(candidate[i])
        };
        i += 1;
    }
    proof {
        assert(pool@ =~= fresh_pool(guess@, candidate@));
        lemma_pool_start(guess@, candidate@);
    }
    i = 0;
    while i < N
        invariant
            i <= N,
            pool_at(pool@, guess@, candidate@, i as int),
            forall|j: int| 0 <= j < i ==> pattern@[j] == verdict(guess@, candidate@, j),
            forall|j: int|
                0 <= j < N ==> (guess@[j] == candidate@[j]) == (pattern@[j] == LetterType::Correct),
        decreases N - i,
    {
        if guess[i] != candidate[i] {
            let ghost before = pool@;
            let found = take_letter(&mut pool, guess[i]);
            proof {
                lemma_pool_step(before, pool@, guess@, candidate@, i as int, found);
            }
            let wanted = is_misplaced(pattern[i]);
            if found != wanted {
                assert(feedback(guess@, candidate@)[i as int] != pattern@[i as int]);
                return false;
            }
        } else {
            proof {
                lemma_pool_skip(pool@, guess@, candidate@, i as int);
            }
        }
        i += 1;
    }
    assert(pattern@ =~= feedback(guess@, candidate@));
    true
}

fn is_correct(verdict: LetterType) -> (yes: bool)
    ensures
        yes == (verdict == LetterType::Correct),
{
    match verdict {
        LetterType::Correct => true,
        _ => false,
    }
}

fn is_misplaced(verdict: LetterType) -> (yes: bool)
    ensures
        yes == (verdict == LetterType::Misplaced),
{
    match verdict {
        LetterType::Misplaced => true,
        _ => false,
    }
}

/// What `matches` decides: the candidate, taken as the answer, earns the
/// guess exactly this pattern.
pub open spec fn consistent(candidate: Seq<char>, pattern: Seq<LetterType>, guess: Seq<char>) -> bool {
    feedback(guess, candidate) == pattern
}

/// An answer always matches the feedback that it gave itself.
pub proof fn lemma_answer_matches_own_feedback(guess: Seq<char>, answer: Seq<char>)
    requires
        guess.len() == answer.len(),
    ensures
        consistent(answer, feedback(guess, answer), guess),
{
}

/// A word guessed against itself is correct in every position.
pub proof fn lemma_feedback_on_itself(word: Seq<char>)
    ensures
        feedback(word, word) == Seq::new(word.len(), |i: int| LetterType::Correct),
{
    assert(feedback(word, word) =~= Seq::new(word.len(), |i: int| LetterType::Correct));
}

/// Feedback has one verdict per letter, and marks a position `Correct`
/// exactly where guess and answer agree.
pub proof fn lemma_feedback_shape(guess: Seq<char>, answer: Seq<char>)
    ensures
        feedback(guess, answer).len() == guess.len(),
        forall|i: int|
            0 <= i < guess.len() ==> (#[trigger] feedback(guess, answer)[i] == LetterType::Correct
                <==> guess[i] == answer[i]),
{
}

/// How many of the first `n` positions of the guess hold the letter `c` and
/// are marked misplaced.
pub open spec fn misplaced(guess: Seq<char>, answer: Seq<char>, c: char, n: int) -> nat
    decreases n,
{
    if n <= 0 {
        0
    } else {
        let rest = misplaced(guess, answer, c, n - 1);
        if guess[n - 1] == c && verdict(guess, answer, n - 1) == LetterType::Misplaced {
            rest + 1
        } else {
            rest
        }
    }
}

/// A letter is marked misplaced as often as the guess claims it, but no
/// more often than the answer has unmatched instances of it: a repeated
/// letter is never counted twice for one instance.
pub proof fn lemma_misplaced_count(guess: Seq<char>, answer: Seq<char>, c: char, n: int)
    requires
        guess.len() == answer.len(),
        0 <= n <= guess.len(),
    ensures
        misplaced(guess, answer, c, n) == if claimed(guess, answer, c, n) <= unmatched(
            guess,
            answer,
            c,
            answer.len() as int,
        ) {
            claimed(guess, answer, c, n)
        } else {
            unmatched(guess, answer, c, answer.len() as int)
        },
    decreases n,
{
    if n > 0 {
        lemma_misplaced_count(guess, answer, c, n - 1);
    }
}

/// The base-3 digit of a verdict.
pub open spec fn digit(verdict: LetterType) -> nat {
    match verdict {
        LetterType::Correct => 0,
        LetterType::Misplaced => 1,
        LetterType::Absent => 2,
    }
}

/// The base-3 number whose digits are the verdicts from position `i` on,
/// the verdict at `i` weighing least.
pub open spec fn code_from(pattern: Seq<LetterType>, i: int) -> nat
    decreases pattern.len() - i,
{
    if i < 0 || i >= pattern.len() {
        0
    } else {
        digit(pattern[i]) + 3 * code_from(pattern, i + 1)
    }
}

/// The compact code of a pattern: position `i` weighs `3^i`.
pub open spec fn code(pattern: Seq<LetterType>) -> nat {
    code_from(pattern, 0)
}

/// `3^k`.
pub open spec fn pow3(k: nat) -> nat
    decreases k,
{
    if k == 0 {
        1
    } else {
        3 * pow3((k - 1) as nat)
    }
}

proof fn lemma_code_bound(pattern: Seq<LetterType>, i: int)
    requires
        0 <= i <= pattern.len(),
    ensures
        code_from(pattern, i) < pow3((pattern.len() - i) as nat),
    decreases pattern.len() - i,
{
    if i < pattern.len() {
        lemma_code_bound(pattern, i + 1);
    }
}

proof fn lemma_code_from_injective(p: Seq<LetterType>, q: Seq<LetterType>, i: int)
    requires
        p.len() == q.len(),
        0 <= i <= p.len(),
        code_from(p, i) == code_from(q, i),
    ensures
        forall|j: int| i <= j < p.len() ==> p[j] == q[j],
    decreases p.len() - i,
{
    if i < p.len() {
        assert(digit(p[i]) == digit(q[i]) && code_from(p, i + 1) == code_from(q, i + 1));
        lemma_code_from_injective(p, q, i + 1);
    }
}

/// Two patterns of one length have the same code only if they are the same
/// pattern: comparing codes is comparing patterns.
pub proof fn lemma_code_injective(p: Seq<LetterType>, q: Seq<LetterType>)
    requires
        p.len() == q.len(),
    ensures
        (code(p) == code(q)) == (p == q),
{
    if code(p) == code(q) {
        lemma_code_from_injective(p, q, 0);
        assert(p =~= q);
    }
}

/// The compact code of a pattern as one byte. Five base-3 digits are the
/// most that a byte holds.
pub fn encode<const N: usize>(pattern: &[LetterType; N]) -> (byte: u8)
    requires
        N <= 5,
    ensures
        byte == code(pattern@),
{
    let mut acc: u8 = 0;
    let mut i: usize = N;
    while i > 0
        invariant
            i <= N <= 5,
            acc == code_from(pattern@, i as int),
            acc < pow3((N - i) as nat),
        decreases i,
    {
        proof {
            reveal_with_fuel(pow3, 6);
            lemma_code_bound(pattern@, i as int - 1);
        }
        i -= 1;
        let d: u8 = match pattern[i] {
            LetterType::Correct => 0,
            LetterType::Misplaced => 1,
            LetterType::Absent => 2,
        };
        acc = d + 3 * acc;
    }
    acc
}

} // verus!
