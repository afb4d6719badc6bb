//! The ranker: orders candidates by descending frequency, then by ascending word.
use vstd::prelude::*;

verus! {

/// Strict lexicographic order on character sequences, comparing characters by
/// code point; a proper prefix comes first.
pub open spec fn lex_lt(a: Seq<char>, b: Seq<char>) -> bool
    decreases a.len(),
{
    if b.len() == 0 {
        false
    } else if a.len() == 0 {
        true
    } else if a[0] != b[0] {
        (a[0] as int) < (b[0] as int)
    } else {
        lex_lt(a.drop_first(), b.drop_first())
    }
}

/// A word together with its number of occurrences in the corpus.
#[derive(Clone, Debug, PartialEq, Eq)]
pub struct WordFreq {
    pub word: String,
    pub freq: usize,
}

/// Whether the candidate `(aw, af)` ranks strictly ahead of `(bw, bf)`: a higher
/// frequency, or an equal frequency and a lexicographically smaller word.
pub open spec fn ranks_before(aw: Seq<char>, af: nat, bw: Seq<char>, bf: nat) -> bool {
    af > bf || (af == bf && lex_lt(aw, bw))
}

/// Whether the candidate at `t` of `c` is ranked first: no candidate of `c` ranks
/// strictly ahead of it.
pub open spec fn is_first(c: Seq<WordFreq>, t: int) -> bool {
    &&& 0 <= t < c.len()
    &&& forall|u: int|
        0 <= u < c.len() ==> !ranks_before(
            #[trigger] c[u].word@,
            c[u].freq as nat,
            c[t].word@,
            c[t].freq as nat,
        )
}

proof fn lemma_lex_irreflexive(a: Seq<char>)
    ensures
        !lex_lt(a, a),
    decreases a.len(),
{
    if a.len() > 0 {
        lemma_lex_irreflexive(a.drop_first());
    }
}

proof fn lemma_lex_asymmetric(a: Seq<char>, b: Seq<char>)
    requires
        lex_lt(a, b),
    ensures
        !lex_lt(b, a),
    decreases a.len(),
{
    if a.len() > 0 && b.len() > 0 && a[0] == b[0] {
        lemma_lex_asymmetric(a.drop_first(), b.drop_first());
    }
}

proof fn lemma_lex_transitive(a: Seq<char>, b: Seq<char>, c: Seq<char>)
    requires
        lex_lt(a, b),
        lex_lt(b, c),
    ensures
        lex_lt(a, c),
    decreases a.len(),
{
    if a.len() > 0 && b.len() > 0 && c.len() > 0 && a[0] == b[0] && b[0] == c[0] {
        lemma_lex_transitive(a.drop_first(), b.drop_first(), c.drop_first());
    }
}

/// Ranking ahead is a strict order: irreflexive and transitive.
pub proof fn lemma_ranks_before_strict(
    aw: Seq<char>,
    af: nat,
    bw: Seq<char>,
    bf: nat,
    cw: Seq<char>,
    cf: nat,
)
    ensures
        !ranks_before(aw, af, aw, af),
        ranks_before(aw, af, bw, bf) ==> !ranks_before(bw, bf, aw, af),
        ranks_before(aw, af, bw, bf) && ranks_before(bw, bf, cw, cf) ==> ranks_before(
            aw,
            af,
            cw,
            cf,
        ),
{
    lemma_lex_irreflexive(aw);
    if lex_lt(aw, bw) {
        lemma_lex_asymmetric(aw, bw);
    }
    if lex_lt(aw, bw) && lex_lt(bw, cw) {
        lemma_lex_transitive(aw, bw, cw);
    }
}

/// Any two distinct character sequences are ordered one way or the other.
pub proof fn lemma_lex_total(a: Seq<char>, b: Seq<char>)
    ensures
        a == b || lex_lt(a, b) || lex_lt(b, a),
    decreases a.len(),
{
    if a.len() > 0 && b.len() > 0 && a[0] == b[0] {
        lemma_lex_total(a.drop_first(), b.drop_first());
        if a.drop_first() == b.drop_first() {
            assert(a =~= seq![a[0]] + a.drop_first());
            assert(b =~= seq![b[0]] + b.drop_first());
        }
    } else if a.len() == 0 && b.len() == 0 {
        assert(a =~= b);
    } else if a.len() > 0 && b.len() > 0 {
        assert((a[0] as int) != (b[0] as int));
    }
}

/// Whether `a` comes strictly before `b` in lexicographic order.
pub fn lex_less(a: &str, b: &str) -> (r: bool)
    ensures
        r == lex_lt(a@, b@),
{
    let na = a.unicode_len();
    let nb = b.unicode_len();
    let mut i: usize = 0;
    assert(a@.skip(0) =~= a@ && b@.skip(0) =~= b@);
    while i < na && i < nb
        invariant
            na == a@.len(),
            nb == b@.len(),
            i <= na,
            i <= nb,
            lex_lt(a@, b@) == lex_lt(a@.skip(i as int), b@.skip(i as int)),
        decreases na - i,
    {
        let ca = a.get_char(i);
        let cb = b.get_char(i);
        let ghost sa = a@.skip(i as int);
        let ghost sb = b@.skip(i as int);
        assert(sa[0] == ca && sb[0] == cb);
        if ca != cb {
            return (ca as u32) < (cb as u32);
        }
        assert(sa.drop_first() =~= a@.skip(i + 1));
        assert(sb.drop_first() =~= b@.skip(i + 1));
        i = i + 1;
    }
    i < nb
}

impl WordFreq {
    /// Compares two candidates in ranking order: `Less` when `self` ranks
    /// ahead of `other`, `Greater` when `other` ranks ahead of `self`, `Equal`
    /// when they hold the same word and frequency.
    pub fn cmp(&self, other: &WordFreq) -> (r: std::cmp::Ordering)
        ensures
            (r == std::cmp::Ordering::Less) == ranks_before(
                self.word@,
                self.freq as nat,
                other.word@,
                other.freq as nat,
            ),
            (r == std::cmp::Ordering::Greater) == ranks_before(
                other.word@,
                other.freq as nat,
                self.word@,
                self.freq as nat,
            ),
    {
        proof {
            lemma_ranks_before_strict(
                self.word@,
                self.freq as nat,
                other.word@,
                other.freq as nat,
                self.word@,
                self.freq as nat,
            );
        }
        if other.freq < self.freq {
            std::cmp::Ordering::Less
        } else if self.freq < other.freq {
            std::cmp::Ordering::Greater
        } else if lex_less(self.word.as_str(), other.word.as_str()) {
            std::cmp::Ordering::Less
        } else if lex_less(other.word.as_str(), self.word.as_str()) {
            std::cmp::Ordering::Greater
        } else {
            std::cmp::Ordering::Equal
        }
    }
}

/// The index of a candidate that ranks first, or `None` when there are none.
pub fn rank_first(candidates: &Vec<WordFreq>) -> (r: Option<usize>)
    ensures
        candidates@.len() == 0 <==> r is None,
        r matches Some(t) ==> is_first(candidates@, t as int),
{
    if candidates.len() == 0 {
        return None;
    }
    let mut best: usize = 0;
    let mut i: usize = 1;
    proof {
        let c = candidates@;
        lemma_ranks_before_strict(
            c[0].word@,
            c[0].freq as nat,
            c[0].word@,
            c[0].freq as nat,
            c[0].word@,
            c[0].freq as nat,
        );
    }
    while i < candidates.len()
        invariant
            1 <= i <= candidates@.len(),
            best < i,
            forall|u: int|
                0 <= u < i ==> !ranks_before(
                    #[trigger] candidates@[u].word@,
                    candidates@[u].freq as nat,
                    candidates@[best as int].word@,
                    candidates@[best as int].freq as nat,
                ),
        decreases candidates@.len() - i,
    {
        let ghost old_best = best;
        let ahead = match candidates[i].cmp(&candidates[best]) {
            std::cmp::Ordering::Less => true,
            _ => false,
        };
        if ahead {
            best = i;
            assert forall|u: int| 0 <= u < i + 1 implies !ranks_before(
                #[trigger] candidates@[u].word@,
                candidates@[u].freq as nat,
                candidates@[best as int].word@,
                candidates@[best as int].freq as nat,
            ) by {
                let c = candidates@;
                lemma_ranks_before_strict(
                    c[u].word@,
                    c[u].freq as nat,
                    c[i as int].word@,
                    c[i as int].freq as nat,
                    c[old_best as int].word@,
                    c[old_best as int].freq as nat,
                );
            }
        }
        i = i + 1;
    }
    Some(best)
}

} // verus!
