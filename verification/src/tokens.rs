//! Whitespace-delimited tokens of a line.

use vstd::prelude::*;
use crate::chars::CharClass;
use crate::scan::{all_in, lemma_run_len, lemma_run_len_is, run_len, scan};

verus! {

/// The whitespace-delimited tokens of `s`, in order: the maximal runs of characters
/// that are not whitespace.
pub open spec fn tokens(s: Seq<char>) -> Seq<Seq<char>>
    decreases s.len(),
    via tokens_decreases
{
    let word = s.skip(run_len(s, CharClass::Space) as int);
    let n = run_len(word, CharClass::Word) as int;
    if n == 0 {
        Seq::empty()
    } else {
        seq![word.take(n)] + tokens(word.skip(n))
    }
}

#[via_fn]
proof fn tokens_decreases(s: Seq<char>) {
    lemma_run_len(s, CharClass::Space);
    lemma_run_len(s.skip(run_len(s, CharClass::Space) as int), CharClass::Word);
}

/// A token: not empty, and free of whitespace.
pub open spec fn is_word(w: Seq<char>) -> bool {
    w.len() > 0 && all_in(w, CharClass::Word)
}

/// What may stand between two tokens: whitespace only, possibly none.
pub open spec fn is_blank(b: Seq<char>) -> bool {
    all_in(b, CharClass::Space)
}

/// Every token is a word.
pub proof fn lemma_tokens_are_words(s: Seq<char>)
    ensures
        forall|i: int| 0 <= i < tokens(s).len() ==> is_word(#[trigger] tokens(s)[i]),
    decreases s.len(),
{
    lemma_run_len(s, CharClass::Space);
    let word = s.skip(run_len(s, CharClass::Space) as int);
    lemma_run_len(word, CharClass::Word);
    let n = run_len(word, CharClass::Word) as int;
    if n != 0 {
        let rest = word.skip(n);
        lemma_tokens_are_words(rest);
        assert forall|i: int| 0 <= i < tokens(s).len() implies is_word(
            #[trigger] tokens(s)[i],
        ) by {
            if i == 0 {
                assert(tokens(s)[0] == word.take(n));
            } else {
                assert(tokens(s)[i] == tokens(rest)[i - 1]);
            }
        }
    }
}

/// Whitespace in front of a text adds no token.
pub proof fn lemma_tokens_after_blank(blank: Seq<char>, rest: Seq<char>)
    requires
        is_blank(blank),
    ensures
        tokens(blank + rest) == tokens(rest),
{
    let s = blank + rest;
    let k = run_len(rest, CharClass::Space) as int;
    lemma_run_len(rest, CharClass::Space);
    assert forall|i: int| 0 <= i < blank.len() + k implies CharClass::Space.contains(
        #[trigger] s.take(blank.len() + k)[i],
    ) by {
        if i < blank.len() {
            assert(s[i] == blank[i]);
        } else {
            assert(s[i] == rest.take(k)[i - blank.len()]);
        }
    }
    lemma_run_len_is(s, CharClass::Space, blank.len() + k);
    assert(s.skip(blank.len() + k) =~= rest.skip(k));
}

/// A word in front of a text that does not go on with it is the first token.
pub proof fn lemma_tokens_after_word(word: Seq<char>, rest: Seq<char>)
    requires
        is_word(word),
        rest.len() > 0 ==> CharClass::Space.contains(rest[0]),
    ensures
        tokens(word + rest) == seq![word] + tokens(rest),
{
    let s = word + rest;
    assert(s[0] == word[0]);
    lemma_run_len_is(s, CharClass::Space, 0);
    assert(s.skip(0) =~= s);
    assert(s.take(word.len() as int) =~= word);
    lemma_run_len_is(s, CharClass::Word, word.len() as int);
    assert(s.skip(word.len() as int) =~= rest);
}

/// The text made of `words` with `gaps` around them: the first gap, then each word
/// followed by the next gap.
pub open spec fn spaced(words: Seq<Seq<char>>, gaps: Seq<Seq<char>>) -> Seq<char>
    recommends
        gaps.len() == words.len() + 1,
    decreases words.len(),
{
    if words.len() == 0 {
        gaps[0]
    } else {
        gaps[0] + words[0] + spaced(words.drop_first(), gaps.drop_first())
    }
}

/// Whether `gaps` keep `words` apart: one gap before each word and one after the
/// last, all of them whitespace, and none empty but the first and the last.
pub open spec fn well_spaced(words: Seq<Seq<char>>, gaps: Seq<Seq<char>>) -> bool {
    &&& gaps.len() == words.len() + 1
    &&& forall|i: int| 0 <= i < words.len() ==> is_word(#[trigger] words[i])
    &&& forall|i: int| 0 <= i < gaps.len() ==> is_blank(#[trigger] gaps[i])
    &&& forall|i: int| 0 < i < words.len() ==> (#[trigger] gaps[i]).len() > 0
}

/// The tokens of words that whitespace keeps apart are these words.
pub proof fn lemma_tokens_of_spaced(words: Seq<Seq<char>>, gaps: Seq<Seq<char>>)
    requires
        well_spaced(words, gaps),
    ensures
        tokens(spaced(words, gaps)) == words,
    decreases words.len(),
{
    if words.len() == 0 {
        lemma_tokens_after_blank(gaps[0], Seq::empty());
        assert(gaps[0] + Seq::<char>::empty() =~= gaps[0]);
        lemma_run_len_is(Seq::<char>::empty(), CharClass::Space, 0);
        assert(tokens(Seq::<char>::empty()) =~= words);
    } else {
        let later_words = words.drop_first();
        let later_gaps = gaps.drop_first();
        let rest = spaced(later_words, later_gaps);
        assert(well_spaced(later_words, later_gaps)) by {
            assert forall|i: int| 0 <= i < later_words.len() implies is_word(
                #[trigger] later_words[i],
            ) by {
                assert(later_words[i] == words[i + 1]);
            }
            assert forall|i: int| 0 <= i < later_gaps.len() implies is_blank(
                #[trigger] later_gaps[i],
            ) by {
                assert(later_gaps[i] == gaps[i + 1]);
            }
            assert forall|i: int| 0 < i < later_words.len() implies (#[trigger] later_gaps[i]).len()
                > 0 by {
                assert(later_gaps[i] == gaps[i + 1]);
            }
        }
        lemma_tokens_of_spaced(later_words, later_gaps);
        assert(rest.len() > 0 ==> CharClass::Space.contains(rest[0])) by {
            assert(later_gaps[0] == gaps[1]);
            if later_words.len() > 0 {
                assert(rest[0] == gaps[1][0]);
            } else if rest.len() > 0 {
                assert(rest[0] == gaps[1][0]);
            }
        }
        lemma_tokens_after_word(words[0], rest);
        lemma_tokens_after_blank(gaps[0], words[0] + rest);
        assert(gaps[0] + (words[0] + rest) =~= spaced(words, gaps));
        assert(seq![words[0]] + later_words =~= words);
    }
}

/// The first token of `chars[from..to]` as a pair of bounds, if there is one.
pub fn next_token(chars: &Vec<char>, from: usize, to: usize) -> (found: Option<(usize, usize)>)
    requires
        from <= to <= chars.len(),
    ensures
        match found {
            Some((start, end)) => {
                &&& from <= start < end <= to
                &&& tokens(chars@.subrange(from as int, to as int)) == seq![
                    chars@.subrange(start as int, end as int),
                ] + tokens(chars@.subrange(end as int, to as int))
            },
            None => tokens(chars@.subrange(from as int, to as int)) == Seq::<Seq<char>>::empty(),
        },
{
    let start = scan(chars, from, to, CharClass::Space);
    let end = scan(chars, start, to, CharClass::Word);
    proof {
        let s = chars@.subrange(from as int, to as int);
        let word = s.skip(start - from);
        assert(word =~= chars@.subrange(start as int, to as int));
        assert(word.take(end - start) =~= chars@.subrange(start as int, end as int));
        assert(word.skip(end - start) =~= chars@.subrange(end as int, to as int));
    }
    if start == end {
        None
    } else {
        Some((start, end))
    }
}

} // verus!
