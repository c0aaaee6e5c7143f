//! The word lists of a game: all valid guesses and the candidate answers,
//! each in ascending order and free of repeats.

use crate::guesser_family::letters_of;
use crate::guesser_family::ranking::known;
use crate::words_family::words_1::Word1;
use crate::IteratorIntoArrayError;
use vstd::prelude::*;

verus! {

/// The order of words of one length: by the first letter in which they
/// differ.
pub open spec fn comes_before(a: Seq<char>, b: Seq<char>) -> bool {
    exists|i: int| differ_at(a, b, i)
}

/// The words agree before position `i`, and there `a` has the lesser letter.
pub open spec fn differ_at(a: Seq<char>, b: Seq<char>, i: int) -> bool {
    &&& 0 <= i < a.len()
    &&& i < b.len()
    &&& forall|j: int| 0 <= j < i ==> a[j] == b[j]
    &&& a[i] < b[i]
}

/// Each word of the list comes before all that follow it.
pub open spec fn in_order<const N: usize>(words: Seq<Word1<N>>) -> bool {
    forall|i: int, j: int| 0 <= i < j < words.len() ==> comes_before(words[i]@, words[j]@)
}

/// A word that comes before a second, which comes before a third, comes
/// before the third.
pub proof fn lemma_before_is_transitive(a: Seq<char>, b: Seq<char>, c: Seq<char>)
    requires
        comes_before(a, b),
        comes_before(b, c),
    ensures
        comes_before(a, c),
{
    let i = choose|i: int| differ_at(a, b, i);
    let k = choose|k: int| differ_at(b, c, k);
    if i <= k {
        assert(differ_at(a, c, i));
    } else {
        assert(differ_at(a, c, k));
    }
}

/// No word comes before itself.
pub proof fn lemma_before_is_strict(a: Seq<char>, b: Seq<char>)
    requires
        comes_before(a, b),
    ensures
        a != b,
{
    let i = choose|i: int| differ_at(a, b, i);
    assert(a[i] != b[i]);
}

/// A list in order holds no word twice.
pub proof fn lemma_in_order_has_no_repeats<const N: usize>(words: Seq<Word1<N>>)
    requires
        in_order(words),
    ensures
        forall|i: int, j: int| 0 <= i < j < words.len() ==> words[i]@ != words[j]@,
{
    assert forall|i: int, j: int| 0 <= i < j < words.len() implies words[i]@ != words[j]@ by {
        lemma_before_is_strict(words[i]@, words[j]@);
    }
}

/// On which side of a word another lies.
#[derive(Debug, Clone, Copy, PartialEq, Eq, Structural)]
pub enum Side {
    Before,
    Same,
    After,
}

/// Compares two words letter by letter.
pub fn side_of<const N: usize>(a: &Word1<N>, b: &Word1<N>) -> (side: Side)
    ensures
        match side {
            Side::Before => comes_before(a@, b@),
            Side::Same => a@ == b@,
            Side::After => comes_before(b@, a@),
        },
{
    let mut i: usize = 0;
    while i < N
        invariant
            i <= N,
            forall|j: int| 0 <= j < i ==> a@[j] == b@[j],
        decreases N - i,
    {
        let x = a.data[i];
        let y = b.data[i];
        if x < y {
            assert(differ_at(a@, b@, i as int));
            return Side::Before;
        }
        if y < x {
            assert(differ_at(b@, a@, i as int));
            return Side::After;
        }
        i += 1;
    }
    assert(a@ =~= b@);
    Side::Same
}

/// The list `after` holds the words of `before` and those of `more`, and no
/// others.
pub open spec fn joined(after: Seq<Seq<char>>, before: Seq<Seq<char>>, more: Seq<Seq<char>>) -> bool {
    forall|w: Seq<char>| #[trigger] known(after, w) <==> known(before, w) || known(more, w)
}

/// Puts a word in its place in an ordered list, unless the list holds it.
pub fn put<const N: usize>(sorted: &mut Vec<Word1<N>>, word: Word1<N>)
    requires
        in_order(old(sorted)@),
    ensures
        in_order(final(sorted)@),
        joined(letters_of(final(sorted)@), letters_of(old(sorted)@), seq![word@]),
{
    let mut at: usize = 0;
    let mut stop = false;
    while at < sorted.len() && !stop
        invariant
            at <= sorted@.len(),
            *sorted == *old(sorted),
            in_order(sorted@),
            forall|i: int| 0 <= i < at ==> comes_before(sorted@[i]@, word@),
            stop ==> at < sorted@.len() && comes_before(word@, sorted@[at as int]@),
        decreases sorted@.len() - at + if stop { 0int } else { 1int },
    {
        match side_of(&sorted[at], &word) {
            Side::Before => {
                at += 1;
            },
            Side::Same => {
                proof {
                    assert(letters_of(sorted@)[at as int] == word@);
                    assert forall|w: Seq<char>| #[trigger]
                        known(letters_of(sorted@), w) <==> known(letters_of(sorted@), w) || known(
                            seq![word@],
                            w,
                        ) by {
                        if known(seq![word@], w) {
                            let k = choose|k: int|
                                0 <= k < seq![word@].len() && #[trigger] seq![word@][k] == w;
                            assert(w == word@);
                        }
                    }
                }
                return ;
            },
            Side::After => {
                stop = true;
            },
        }
    }
    let ghost before = sorted@;
    sorted.insert(at, word);
    proof {
        assert forall|i: int, j: int| 0 <= i < j < sorted@.len() implies comes_before(
            sorted@[i]@,
            sorted@[j]@,
        ) by {
            if j == at {
                assert(sorted@[i] == before[i]);
            } else if i == at {
                assert(sorted@[j] == before[j - 1]);
                if j - 1 > at {
                    lemma_before_is_transitive(word@, before[at as int]@, before[j - 1]@);
                }
            } else if i < at && j < at {
            } else if i < at {
                assert(sorted@[j] == before[j - 1]);
            } else {
                assert(sorted@[i] == before[i - 1]);
                assert(sorted@[j] == before[j - 1]);
            }
        }
        assert forall|w: Seq<char>| #[trigger]
            known(letters_of(sorted@), w) <==> known(letters_of(before), w) || known(
                seq![word@],
                w,
            ) by {
            if known(seq![word@], w) {
                let k = choose|k: int|
                    0 <= k < seq![word@].len() && #[trigger] seq![word@][k] == w;
                assert(w == word@);
            }
            if w == word@ {
                assert(seq![word@][0] == w);
            }
            if known(letters_of(sorted@), w) {
                let k = choose|k: int|
                    0 <= k < letters_of(sorted@).len() && #[trigger] letters_of(sorted@)[k] == w;
                if k < at {
                    assert(letters_of(before)[k] == w);
                } else if k > at {
                    assert(letters_of(before)[k - 1] == w);
                }
            }
            if known(letters_of(before), w) {
                let k = choose|k: int|
                    0 <= k < letters_of(before).len() && #[trigger] letters_of(before)[k] == w;
                if k < at {
                    assert(letters_of(sorted@)[k] == w);
                } else {
                    assert(letters_of(sorted@)[k + 1] == w);
                }
            }
            if w == word@ {
                assert(letters_of(sorted@)[at as int] == w);
            }
        }
    }
}

/// Puts each word of a list in its place in an ordered list.
pub fn gather<const N: usize>(sorted: &mut Vec<Word1<N>>, words: &[Word1<N>])
    requires
        in_order(old(sorted)@),
    ensures
        in_order(final(sorted)@),
        joined(letters_of(final(sorted)@), letters_of(old(sorted)@), letters_of(words@)),
{
    let mut k: usize = 0;
    while k < words.len()
        invariant
            k <= words@.len(),
            in_order(sorted@),
            joined(
                letters_of(sorted@),
                letters_of(old(sorted)@),
                letters_of(words@.take(k as int)),
            ),
        decreases words@.len() - k,
    {
        let ghost before = sorted@;
        put(sorted, words[k]);
        proof {
            let taken = letters_of(words@.take(k as int));
            let more = letters_of(words@.take(k as int + 1));
            let one = seq![words@[k as int]@];
            assert forall|w: Seq<char>|
                known(more, w) <==> known(taken, w) || known(one, w) by {
                if known(one, w) {
                    let i = choose|i: int| 0 <= i < one.len() && #[trigger] one[i] == w;
                    assert(w == words@[k as int]@);
                }
                if w == words@[k as int]@ {
                    assert(one[0] == w);
                }
                if known(more, w) {
                    let i = choose|i: int| 0 <= i < more.len() && #[trigger] more[i] == w;
                    if i < k {
                        assert(taken[i] == w);
                    }
                }
                if known(taken, w) {
                    let i = choose|i: int| 0 <= i < taken.len() && #[trigger] taken[i] == w;
                    assert(more[i] == w);
                }
                if w == words@[k as int]@ {
                    assert(more[k as int] == w);
                }
            }
        }
        k += 1;
    }
    assert(words@.take(words@.len() as int) =~= words@);
}

/// A list with nothing to start from holds what is put into it.
pub proof fn lemma_joined_from_nothing(after: Seq<Seq<char>>, more: Seq<Seq<char>>)
    requires
        joined(after, Seq::<Seq<char>>::empty(), more),
    ensures
        forall|w: Seq<char>| #[trigger] known(after, w) <==> known(more, w),
{
    assert forall|w: Seq<char>| #[trigger] known(after, w) <==> known(more, w) by {
        assert(!known(Seq::<Seq<char>>::empty(), w));
    }
}

/// The word lists as texts, before any word is read.
pub struct StringDictionary {
    pub valid: Vec<String>,
    pub answers: Vec<String>,
}

/// The words of each text of a list, or the failure of the first text that
/// is no word of `N` letters.
pub fn read_words<const N: usize>(texts: &Vec<String>) -> (words: Result<
    Vec<Word1<N>>,
    IteratorIntoArrayError,
>)
    ensures
        words is Ok <==> forall|k: int|
            0 <= k < texts@.len() ==> crate::words_family::words_1::word_of_text(
                (#[trigger] texts@[k])@,
                N as nat,
            ) is Some,
        words is Ok ==> words->Ok_0@.len() == texts@.len() && forall|k: int|
            0 <= k < texts@.len() ==> (#[trigger] words->Ok_0@[k])@ == texts@[k]@,
{
    let mut words: Vec<Word1<N>> = Vec::new();
    let mut k: usize = 0;
    while k < texts.len()
        invariant
            k <= texts@.len(),
            words@.len() == k,
            forall|i: int|
                0 <= i < k ==> crate::words_family::words_1::word_of_text(
                    (#[trigger] texts@[i])@,
                    N as nat,
                ) is Some,
            forall|i: int| 0 <= i < k ==> (#[trigger] words@[i])@ == texts@[i]@,
        decreases texts@.len() - k,
    {
        match Word1::<N>::parse(texts[k].as_str()) {
            Ok(word) => {
                words.push(word);
            },
            Err(e) => {
                return Err(e);
            },
        }
        k += 1;
    }
    Ok(words)
}

/// The word lists of a game.
#[derive(Debug)]
pub struct Dictionary<const N: usize> {
    pub valid: Vec<Word1<N>>,
    pub answers: Vec<Word1<N>>,
}

impl<const N: usize> Dictionary<N> {
    /// Both lists are in order, which leaves no repeats, and every answer is
    /// a valid guess.
    pub open spec fn wf(&self) -> bool {
        &&& in_order(self.valid@)
        &&& in_order(self.answers@)
        &&& forall|w: Seq<char>|
            known(letters_of(self.answers@), w) ==> known(letters_of(self.valid@), w)
    }

    /// The same words as a well-formed dictionary: the answers in order and
    /// without repeats; the valid guesses likewise, with every answer
    /// among them.
    pub fn normalized(self) -> (tidy: Self)
        ensures
            tidy.wf(),
            forall|w: Seq<char>| #[trigger]
                known(letters_of(tidy.answers@), w) <==> known(letters_of(self.answers@), w),
            joined(
                letters_of(tidy.valid@),
                letters_of(self.valid@),
                letters_of(self.answers@),
            ),
    {
        let mut answers: Vec<Word1<N>> = Vec::new();
        gather(&mut answers, self.answers.as_slice());
        let mut valid: Vec<Word1<N>> = Vec::new();
        gather(&mut valid, self.valid.as_slice());
        let ghost first = valid@;
        gather(&mut valid, answers.as_slice());
        proof {
            assert(letters_of(Seq::<Word1<N>>::empty()) =~= Seq::<Seq<char>>::empty());
            lemma_joined_from_nothing(letters_of(answers@), letters_of(self.answers@));
            lemma_joined_from_nothing(letters_of(first), letters_of(self.valid@));
            assert forall|w: Seq<char>| #[trigger]
                known(letters_of(valid@), w) <==> known(letters_of(self.valid@), w) || known(
                    letters_of(self.answers@),
                    w,
                ) by {
                assert(known(letters_of(valid@), w) <==> known(letters_of(first), w) || known(
                    letters_of(answers@),
                    w,
                ));
                assert(known(letters_of(first), w) <==> known(letters_of(self.valid@), w));
                assert(known(letters_of(answers@), w) <==> known(letters_of(self.answers@), w));
            }
        }
        Dictionary { valid, answers }
    }

    /// Reads both word lists and puts them in order.
    pub fn from_strings(texts: &StringDictionary) -> (dictionary: Result<
        Self,
        IteratorIntoArrayError,
    >)
        ensures
            dictionary is Ok ==> dictionary->Ok_0.wf(),
            dictionary is Ok <==> all_words(strings_of(texts.valid@), N as nat) && all_words(
                strings_of(texts.answers@),
                N as nat,
            ),
            dictionary is Ok ==> forall|w: Seq<char>| #[trigger]
                known(letters_of(dictionary->Ok_0.answers@), w) <==> known(
                    strings_of(texts.answers@),
                    w,
                ),
            dictionary is Ok ==> joined(
                letters_of(dictionary->Ok_0.valid@),
                strings_of(texts.valid@),
                strings_of(texts.answers@),
            ),
    {
        match read_words::<N>(&texts.valid) {
            Err(e) => {
                proof {
                    let k = choose|k: int|
                        0 <= k < texts.valid@.len() && !(
                        crate::words_family::words_1::word_of_text(
                            (#[trigger] texts.valid@[k])@,
                            N as nat,
                        ) is Some);
                    assert(strings_of(texts.valid@)[k] == texts.valid@[k]@);
                }
                Err(e)
            },
            Ok(valid) => match read_words::<N>(&texts.answers) {
                Err(e) => {
                    proof {
                        let k = choose|k: int|
                            0 <= k < texts.answers@.len() && !(
                            crate::words_family::words_1::word_of_text(
                                (#[trigger] texts.answers@[k])@,
                                N as nat,
                            ) is Some);
                        assert(strings_of(texts.answers@)[k] == texts.answers@[k]@);
                    }
                    Err(e)
                },
                Ok(answers) => {
                    proof {
                        assert(letters_of(valid@) =~= strings_of(texts.valid@));
                        assert(letters_of(answers@) =~= strings_of(texts.answers@));
                    }
                    Ok(Dictionary { valid, answers }.normalized())
                },
            },
        }
    }
}

/// Every text of the list is a word of `n` letters.
pub open spec fn all_words(texts: Seq<Seq<char>>, n: nat) -> bool {
    forall|k: int|
        0 <= k < texts.len() ==> crate::words_family::words_1::word_of_text(
            #[trigger] texts[k],
            n,
        ) is Some
}

/// The characters of each text of a list.
pub open spec fn strings_of(texts: Seq<String>) -> Seq<Seq<char>> {
    texts.map_values(|t: String| t@)
}

} // verus!
