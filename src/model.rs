//! The frequency model: how many times each word occurred in the training text.
use crate::edits::words_of;
use vstd::hash_map::StringHashMap;
use vstd::prelude::*;

verus! {

/// The number of entries of `ts` equal to `w`.
pub open spec fn occurrences(ts: Seq<Seq<char>>, w: Seq<char>) -> nat
    decreases ts.len(),
{
    if ts.len() == 0 {
        0
    } else {
        occurrences(ts.drop_last(), w) + if ts.last() == w {
            1nat
        } else {
            0nat
        }
    }
}

/// The map from each distinct word of `ts` to its number of occurrences.
pub open spec fn token_counts(ts: Seq<Seq<char>>) -> Map<Seq<char>, nat> {
    Map::new(|w: Seq<char>| ts.contains(w), |w: Seq<char>| occurrences(ts, w))
}

proof fn lemma_occurrences_bound(ts: Seq<Seq<char>>, w: Seq<char>)
    ensures
        occurrences(ts, w) <= ts.len(),
        occurrences(ts, w) > 0 <==> ts.contains(w),
    decreases ts.len(),
{
    if ts.len() > 0 {
        lemma_occurrences_bound(ts.drop_last(), w);
        if ts.drop_last().contains(w) {
            let k = choose|k: int| 0 <= k < ts.drop_last().len() && ts.drop_last()[k] == w;
            assert(ts[k] == w);
        }
        if ts.contains(w) && ts.last() != w {
            let k = choose|k: int| 0 <= k < ts.len() && ts[k] == w;
            assert(ts.drop_last()[k] == w);
        }
        if ts.last() == w {
            assert(ts[ts.len() - 1] == w);
        }
    }
}

/// A word-to-count mapping; each word occurs once as a key.
pub struct FrequencyModel {
    counts: StringHashMap<usize>,
}

impl View for FrequencyModel {
    type V = Map<Seq<char>, usize>;

    closed spec fn view(&self) -> Map<Seq<char>, usize> {
        self.counts@
    }
}

impl FrequencyModel {
    /// A model that knows no word.
    pub fn new() -> (r: FrequencyModel)
        ensures
            r@ == Map::<Seq<char>, usize>::empty(),
    {
        FrequencyModel { counts: StringHashMap::new() }
    }

    /// Sets the count of `word` to `count`, replacing any count it had.
    pub fn insert(&mut self, word: String, count: usize)
        ensures
            final(self)@ == old(self)@.insert(word@, count),
    {
        self.counts.insert(word, count);
    }

    /// The model of a training text given as its sequence of word tokens: each
    /// distinct token is a key, counted as many times as it occurs.
    pub fn from_tokens(tokens: &Vec<String>) -> (r: FrequencyModel)
        ensures
            r@.dom() == token_counts(words_of(tokens@)).dom(),
            forall|w: Seq<char>| #[trigger]
                r@.contains_key(w) ==> r@[w] as nat == occurrences(
                    words_of(tokens@),
                    w,
                ),
    {
        let ghost ts = words_of(tokens@);
        let mut counts: StringHashMap<usize> = StringHashMap::new();
        let mut i: usize = 0;
        while i < tokens.len()
            invariant
                i <= tokens@.len(),
                ts == words_of(tokens@),
                forall|w: Seq<char>|
                    #[trigger] counts@.contains_key(w) <==> ts.take(i as int).contains(w),
                forall|w: Seq<char>| #[trigger]
                    counts@.contains_key(w) ==> counts@[w] as nat == occurrences(
                        ts.take(i as int),
                        w,
                    ),
            decreases tokens@.len() - i,
        {
            let t = &tokens[i];
            let ghost before = ts.take(i as int);
            let ghost after = ts.take(i + 1);
            assert(after.drop_last() =~= before);
            assert(after.last() == t@);
            proof {
                lemma_occurrences_bound(before, t@);
            }
            let c: usize = match counts.get(t.as_str()) {
                Some(c) => *c,
                None => 0,
            };
            assert(c as nat == occurrences(before, t@));
            counts.insert(t.clone(), c + 1);
            assert forall|w: Seq<char>| #[trigger]
                counts@.contains_key(w) <==> after.contains(w) by {
                if after.contains(w) && w != t@ {
                    let k = choose|k: int| 0 <= k < after.len() && after[k] == w;
                    assert(before[k] == w);
                }
                if before.contains(w) {
                    let k = choose|k: int| 0 <= k < before.len() && before[k] == w;
                    assert(after[k] == w);
                }
                if w == t@ {
                    assert(after[i as int] == w);
                }
            }
            i = i + 1;
        }
        assert(ts.take(i as int) =~= ts);
        FrequencyModel { counts }
    }

    /// Whether `word` is a key of the model.
    pub fn contains(&self, word: &str) -> (r: bool)
        ensures
            r == self@.contains_key(word@),
    {
        self.counts.contains_key(word)
    }

    /// The count of `word`, or `None` when it is not a key.
    pub fn frequency(&self, word: &str) -> (r: Option<usize>)
        ensures
            r == (if self@.contains_key(word@) {
                Some(self@[word@])
            } else {
                None
            }),
    {
        match self.counts.get(word) {
            Some(c) => Some(*c),
            None => None,
        }
    }

    /// The number of distinct words in the model.
    pub fn len(&self) -> (r: usize)
        ensures
            r == self@.len(),
    {
        self.counts.len()
    }
}

} // verus!
