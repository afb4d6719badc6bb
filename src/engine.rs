//! The correction engine: exact match, else the best known word within two edits.
use crate::edits::{create_variations, variations, words_of};
use crate::model::FrequencyModel;
use crate::rank::{is_first, lemma_lex_total, rank_first, ranks_before, WordFreq};
use vstd::prelude::*;

verus! {

/// Whether `s` is generated from `w` by one edit, or by one edit applied to a
/// string generated from `w` by one edit.
pub open spec fn within_two(w: Seq<char>, s: Seq<char>) -> bool {
    exists|i: int|
        0 <= i < variations(w).len() && (#[trigger] variations(w)[i] == s || variations(
            variations(w)[i],
        ).contains(s))
}

/// Whether some key of `m` is within two edits of `w`.
pub open spec fn has_neighbour(m: Map<Seq<char>, usize>, w: Seq<char>) -> bool {
    exists|s: Seq<char>| #[trigger] m.contains_key(s) && within_two(w, s)
}

/// Whether `b` is the best suggestion for `w` in `m`: a key within two edits of
/// `w` that no other such key ranks ahead of.
pub open spec fn is_best(m: Map<Seq<char>, usize>, w: Seq<char>, b: Seq<char>) -> bool {
    &&& m.contains_key(b)
    &&& within_two(w, b)
    &&& forall|s: Seq<char>|
        #[trigger] m.contains_key(s) && within_two(w, s) ==> !ranks_before(
            s,
            m[s] as nat,
            b,
            m[b] as nat,
        )
}

/// The result of checking one word against a model.
#[derive(Debug)]
pub enum Outcome {
    /// The word is a key of the model.
    Valid(String),
    /// The word is unknown; this is the best known word within two edits.
    Suggestion(String),
    /// The word is unknown and no known word is within two edits.
    NoSuggestion,
}

/// Whether `o` is the correct outcome for query `w` against model `m`.
pub open spec fn is_correction(m: Map<Seq<char>, usize>, w: Seq<char>, o: Outcome) -> bool {
    if m.contains_key(w) {
        o matches Outcome::Valid(v) && v@ == w
    } else if has_neighbour(m, w) {
        o matches Outcome::Suggestion(b) && is_best(m, w, b@)
    } else {
        o is NoSuggestion
    }
}

/// Whether two outcomes are the same variant carrying the same characters.
pub open spec fn same_outcome(a: Outcome, b: Outcome) -> bool {
    match (a, b) {
        (Outcome::Valid(x), Outcome::Valid(y)) => x@ == y@,
        (Outcome::Suggestion(x), Outcome::Suggestion(y)) => x@ == y@,
        (Outcome::NoSuggestion, Outcome::NoSuggestion) => true,
        _ => false,
    }
}

/// Whether `s` is reached from one of the first `i` one-edit strings of `w`,
/// that string itself or one edit further.
spec fn seen(w: Seq<char>, i: int, s: Seq<char>) -> bool {
    exists|j: int|
        0 <= j < i && (#[trigger] variations(w)[j] == s || variations(variations(w)[j]).contains(s))
}

/// Whether some candidate of `c` holds the word `s`.
spec fn covered(c: Seq<WordFreq>, s: Seq<char>) -> bool {
    exists|t: int| 0 <= t < c.len() && (#[trigger] c[t]).word@ == s
}

/// Every candidate of `c` is a key of `m` within two edits of `w`, with its count.
spec fn sound(m: Map<Seq<char>, usize>, w: Seq<char>, c: Seq<WordFreq>) -> bool {
    forall|t: int|
        0 <= t < c.len() ==> {
            &&& m.contains_key((#[trigger] c[t]).word@)
            &&& c[t].freq == m[c[t].word@]
            &&& within_two(w, c[t].word@)
        }
}

/// Correction is a function of the query and the model: any two outcomes that
/// are correct for the same query and model are the same outcome. In particular
/// there is at most one best suggestion, so checking a word twice gives the same
/// answer twice.
pub proof fn lemma_correction_unique(m: Map<Seq<char>, usize>, w: Seq<char>, a: Outcome, b: Outcome)
    requires
        is_correction(m, w, a),
        is_correction(m, w, b),
    ensures
        same_outcome(a, b),
{
    if !m.contains_key(w) && has_neighbour(m, w) {
        if let (Outcome::Suggestion(x), Outcome::Suggestion(y)) = (a, b) {
            assert(!ranks_before(x@, m[x@] as nat, y@, m[y@] as nat));
            assert(!ranks_before(y@, m[y@] as nat, x@, m[x@] as nat));
            lemma_lex_total(x@, y@);
        }
    }
}

/// Checks `word_to_check` against `corpus`: `Valid` when it is a key, else the
/// best key within two edits as a `Suggestion`, else `NoSuggestion`.
pub fn correct(word_to_check: &str, corpus: &FrequencyModel) -> (r: Outcome)
    ensures
        is_correction(corpus@, word_to_check@, r),
{
    let ghost m = corpus@;
    let ghost w = word_to_check@;
    if corpus.contains(word_to_check) {
        return Outcome::Valid(String::from_str(word_to_check));
    }
    let one_edit_vec = create_variations(word_to_check);
    let ghost ones = variations(w);
    let mut wordfreq_vec: Vec<WordFreq> = Vec::new();
    let mut i: usize = 0;
    while i < one_edit_vec.len()
        invariant
            m == corpus@,
            w == word_to_check@,
            ones == variations(w),
            words_of(one_edit_vec@) == ones,
            i <= one_edit_vec@.len(),
            sound(m, w, wordfreq_vec@),
            forall|s: Seq<char>|
                #[trigger] m.contains_key(s) && seen(w, i as int, s) ==> covered(
                    wordfreq_vec@,
                    s,
                ),
        decreases one_edit_vec@.len() - i,
    {
        let edited_word = &one_edit_vec[i];
        let ghost d = edited_word@;
        assert(d == ones[i as int]);
        let ghost start = wordfreq_vec@;
        match corpus.frequency(edited_word.as_str()) {
            Some(f) => {
                wordfreq_vec.push(WordFreq { word: edited_word.clone(), freq: f });
                assert(wordfreq_vec@[start.len() as int].word@ == d);
            },
            None => {},
        }
        assert(within_two(w, d));
        assert forall|s: Seq<char>|
            #[trigger] m.contains_key(s) && (seen(w, i as int, s) || s == d) implies covered(
            wordfreq_vec@,
            s,
        ) by {
            if seen(w, i as int, s) {
                let t = choose|t: int| 0 <= t < start.len() && (#[trigger] start[t]).word@ == s;
                assert(wordfreq_vec@[t] == start[t]);
            } else {
                assert(wordfreq_vec@[start.len() as int].word@ == s);
            }
        }
        let two_edit_vec = create_variations(edited_word.as_str());
        let mut k: usize = 0;
        while k < two_edit_vec.len()
            invariant
                m == corpus@,
                w == word_to_check@,
                ones == variations(w),
                i < ones.len(),
                d == ones[i as int],
                words_of(two_edit_vec@) == variations(d),
                k <= two_edit_vec@.len(),
                sound(m, w, wordfreq_vec@),
                forall|s: Seq<char>|
                    #[trigger] m.contains_key(s) && (seen(w, i as int, s) || s == d
                        || words_of(two_edit_vec@).take(k as int).contains(s)) ==> covered(
                        wordfreq_vec@,
                        s,
                    ),
            decreases two_edit_vec@.len() - k,
        {
            let edited_word2 = &two_edit_vec[k];
            let ghost e = edited_word2@;
            let ghost twos = words_of(two_edit_vec@);
            assert(e == twos[k as int]);
            let ghost mid = wordfreq_vec@;
            match corpus.frequency(edited_word2.as_str()) {
                Some(f) => {
                    assert(variations(d).contains(e));
                    assert(within_two(w, e));
                    wordfreq_vec.push(WordFreq { word: edited_word2.clone(), freq: f });
                    assert(wordfreq_vec@[mid.len() as int].word@ == e);
                },
                None => {},
            }
            assert forall|s: Seq<char>|
                #[trigger] m.contains_key(s) && (seen(w, i as int, s) || s == d || twos.take(
                    k + 1,
                ).contains(s)) implies covered(wordfreq_vec@, s) by {
                if seen(w, i as int, s) || s == d || twos.take(k as int).contains(s) {
                    let t = choose|t: int| 0 <= t < mid.len() && (#[trigger] mid[t]).word@ == s;
                    assert(wordfreq_vec@[t] == mid[t]);
                } else {
                    let q = choose|q: int| 0 <= q < k + 1 && #[trigger] twos.take(k + 1)[q] == s;
                    if q < k {
                        assert(twos.take(k as int)[q] == s);
                    } else {
                        assert(wordfreq_vec@[mid.len() as int].word@ == s);
                    }
                }
            }
            k = k + 1;
        }
        assert(words_of(two_edit_vec@).take(k as int) == variations(d)) by {
            assert(words_of(two_edit_vec@).take(k as int) =~= variations(d));
        }
        assert forall|s: Seq<char>|
            #[trigger] m.contains_key(s) && seen(w, i + 1, s) implies covered(
            wordfreq_vec@,
            s,
        ) by {
            let j = choose|j: int|
                0 <= j < i + 1 && (#[trigger] variations(w)[j] == s || variations(
                    variations(w)[j],
                ).contains(s));
            if j < i {
                assert(seen(w, i as int, s));
            }
        }
        i = i + 1;
    }
    match rank_first(&wordfreq_vec) {
        None => {
            assert forall|s: Seq<char>| #[trigger]
                m.contains_key(s) && within_two(w, s) implies false by {
                assert(seen(w, ones.len() as int, s));
            }
            Outcome::NoSuggestion
        },
        Some(t) => {
            let b = wordfreq_vec[t].word.clone();
            let ghost c = wordfreq_vec@;
            assert(m.contains_key(b@) && within_two(w, b@));
            assert forall|s: Seq<char>|
                #[trigger] m.contains_key(s) && within_two(w, s) implies !ranks_before(
                s,
                m[s] as nat,
                b@,
                m[b@] as nat,
            ) by {
                assert(seen(w, ones.len() as int, s));
                let u = choose|u: int| 0 <= u < c.len() && (#[trigger] c[u]).word@ == s;
                assert(is_first(c, t as int));
                assert(!ranks_before(c[u].word@, c[u].freq as nat, c[t as int].word@, c[t as int].freq as nat));
            }
            Outcome::Suggestion(b)
        },
    }
}

/// The text that reports the checked word `w` and the second field `c`: `w`
/// alone when `c` is empty, else `w, c`; either way followed by a newline.
pub open spec fn rendered_line(w: Seq<char>, c: Seq<char>) -> Seq<char> {
    if c.len() == 0 {
        w + seq!['\n']
    } else {
        w + seq![',', ' '] + c + seq!['\n']
    }
}

/// Checks `word_to_check` against `corpus` and gives the pair that reports it:
/// the word itself, then an empty string when it is a key, the best key within
/// two edits when there is one, and `-` when there is none.
pub fn spell_check(word_to_check: &str, corpus: &FrequencyModel) -> (r: (String, String))
    ensures
        r.0@ == word_to_check@,
        corpus@.contains_key(word_to_check@) ==> r.1@ == Seq::<char>::empty(),
        !corpus@.contains_key(word_to_check@) && !has_neighbour(corpus@, word_to_check@) ==> r.1@
            == seq!['-'],
        !corpus@.contains_key(word_to_check@) && has_neighbour(corpus@, word_to_check@)
            ==> is_best(corpus@, word_to_check@, r.1@),
{
    let word = String::from_str(word_to_check);
    match correct(word_to_check, corpus) {
        Outcome::Valid(_) => (word, String::new()),
        Outcome::Suggestion(best) => (word, best),
        Outcome::NoSuggestion => {
            proof {
                reveal_strlit("-");
            }
            (word, String::from_str("-"))
        },
    }
}

/// Appends to `out` the line that reports `line`, as `rendered_line` gives it.
pub fn write_output(out: &mut String, line: &(String, String))
    ensures
        final(out)@ == old(out)@ + rendered_line(line.0@, line.1@),
{
    proof {
        reveal_strlit("\n");
        reveal_strlit(", ");
    }
    out.append(line.0.as_str());
    if line.1.as_str().unicode_len() < 1 {
        out.append("\n");
    } else {
        out.append(", ");
        out.append(line.1.as_str());
        out.append("\n");
    }
    assert(out@ =~= old(out)@ + rendered_line(line.0@, line.1@));
}

} // verus!
