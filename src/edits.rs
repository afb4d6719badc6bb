//! The edit generator: every string one edit away from a word.
use crate::model::occurrences;
use vstd::prelude::*;

verus! {

/// Whether `c` is one of the letters `a` to `z`.
pub open spec fn is_letter(c: char) -> bool {
    'a' <= c && c <= 'z'
}

/// The lowercase alphabet that replacements and insertions draw from.
pub open spec fn alphabet() -> Seq<char> {
    seq![
        'a', 'b', 'c', 'd', 'e', 'f', 'g', 'h', 'i', 'j', 'k', 'l', 'm',
        'n', 'o', 'p', 'q', 'r', 's', 't', 'u', 'v', 'w', 'x', 'y', 'z',
    ]
}

/// The character sequences held by a vector of strings, in order.
pub open spec fn words_of(v: Seq<String>) -> Seq<Seq<char>> {
    v.map_values(|s: String| s@)
}

/// `w` without its character at `i`.
pub open spec fn deleted(w: Seq<char>, i: int) -> Seq<char> {
    w.take(i) + w.skip(i + 1)
}

/// `w` with its characters at `i` and `i + 1` swapped.
pub open spec fn swapped(w: Seq<char>, i: int) -> Seq<char> {
    w.take(i) + seq![w[i + 1], w[i]] + w.skip(i + 2)
}

/// `w` with its character at `i` replaced by `c`.
pub open spec fn replaced(w: Seq<char>, i: int, c: char) -> Seq<char> {
    w.take(i) + seq![c] + w.skip(i + 1)
}

/// `w` with `c` inserted before its character at `i` (at the end when `i == w.len()`).
pub open spec fn inserted(w: Seq<char>, i: int, c: char) -> Seq<char> {
    w.take(i) + seq![c] + w.skip(i)
}

/// One deletion at each position, left to right.
pub open spec fn deletes(w: Seq<char>) -> Seq<Seq<char>> {
    Seq::new(w.len(), |i: int| deleted(w, i))
}

/// One swap of each adjacent pair, left to right; none for words shorter than two.
pub open spec fn transposes(w: Seq<char>) -> Seq<Seq<char>> {
    Seq::new(if w.len() <= 1 { 0 } else { (w.len() - 1) as nat }, |i: int| swapped(w, i))
}

/// For each position, left to right, its replacement by each letter in alphabet order.
pub open spec fn replaces(w: Seq<char>) -> Seq<Seq<char>> {
    Seq::new(26 * w.len(), |k: int| replaced(w, k / 26, alphabet()[k % 26]))
}

/// For each gap, left to right, the insertion of each letter in alphabet order.
pub open spec fn inserts(w: Seq<char>) -> Seq<Seq<char>> {
    Seq::new(26 * (w.len() + 1), |k: int| inserted(w, k / 26, alphabet()[k % 26]))
}

/// Every string one edit away from `w`, in the order the generator produces them.
pub open spec fn variations(w: Seq<char>) -> Seq<Seq<char>> {
    deletes(w) + transposes(w) + replaces(w) + inserts(w)
}

proof fn lemma_words_of_push(v: Seq<String>, s: String)
    ensures
        words_of(v.push(s)) == words_of(v).push(s@),
{
    assert(words_of(v.push(s)) =~= words_of(v).push(s@));
}

/// Appends to `output_vec` the deletion of each character of `word`, left to right.
pub fn delete_edit(word: &str, output_vec: &mut Vec<String>)
    ensures
        words_of(final(output_vec)@) == words_of(old(output_vec)@) + deletes(word@),
        final(output_vec)@.len() == old(output_vec)@.len() + word@.len(),
{
    let n = word.unicode_len();
    let ghost start = words_of(output_vec@);
    let mut i: usize = 0;
    while i < n
        invariant
            n == word@.len(),
            i <= n,
            words_of(output_vec@) == start + Seq::new(i as nat, |k: int| deleted(word@, k)),
            output_vec@.len() == start.len() + i,
        decreases n - i,
    {
        let mut s = String::from_str(word.substring_char(0, i));
        s.append(word.substring_char(i + 1, n));
        assert(s@ =~= deleted(word@, i as int));
        proof {
            lemma_words_of_push(output_vec@, s);
        }
        output_vec.push(s);
        assert(start + Seq::new((i + 1) as nat, |k: int| deleted(word@, k)) =~= (start + Seq::new(
            i as nat,
            |k: int| deleted(word@, k),
        )).push(deleted(word@, i as int)));
        i = i + 1;
    }
    assert(Seq::new(i as nat, |k: int| deleted(word@, k)) =~= deletes(word@));
}

/// Appends to `output_vec` the swap of each adjacent pair of characters of `word`,
/// left to right; nothing when `word` has fewer than two characters.
pub fn transpose_edit(word: &str, output_vec: &mut Vec<String>)
    ensures
        words_of(final(output_vec)@) == words_of(old(output_vec)@) + transposes(word@),
        word@.len() <= 1 ==> final(output_vec)@.len() == old(output_vec)@.len(),
        word@.len() >= 2 ==> final(output_vec)@.len() == old(output_vec)@.len() + word@.len() - 1,
{
    let n = word.unicode_len();
    let ghost start = words_of(output_vec@);
    if n <= 1 {
        assert(transposes(word@) =~= Seq::<Seq<char>>::empty());
        assert(start + transposes(word@) =~= start);
        return;
    }
    let mut i: usize = 0;
    while i < n - 1
        invariant
            n == word@.len(),
            n >= 2,
            i <= n - 1,
            words_of(output_vec@) == start + Seq::new(i as nat, |k: int| swapped(word@, k)),
            output_vec@.len() == start.len() + i,
        decreases n - 1 - i,
    {
        let mut s = String::from_str(word.substring_char(0, i));
        s.append(word.substring_char(i + 1, i + 2));
        s.append(word.substring_char(i, i + 1));
        s.append(word.substring_char(i + 2, n));
        assert(s@ =~= swapped(word@, i as int));
        proof {
            lemma_words_of_push(output_vec@, s);
        }
        output_vec.push(s);
        assert(start + Seq::new((i + 1) as nat, |k: int| swapped(word@, k)) =~= (start + Seq::new(
            i as nat,
            |k: int| swapped(word@, k),
        )).push(swapped(word@, i as int)));
        i = i + 1;
    }
    assert(Seq::new(i as nat, |k: int| swapped(word@, k)) =~= transposes(word@));
}

/// The one-letter string holding the letter at `j` of the alphabet.
fn letter(j: usize) -> (r: &'static str)
    requires
        j < 26,
    ensures
        r@ == seq![alphabet()[j as int]],
{
    let letters = "abcdefghijklmnopqrstuvwxyz";
    proof {
        reveal_strlit("abcdefghijklmnopqrstuvwxyz");
    }
    assert(letters@ =~= alphabet());
    let r = letters.substring_char(j, j + 1);
    assert(r@ =~= seq![alphabet()[j as int]]);
    r
}

proof fn lemma_div_mod_26(i: int, j: int)
    requires
        0 <= i,
        0 <= j < 26,
    ensures
        (26 * i + j) / 26 == i,
        (26 * i + j) % 26 == j,
{
}

/// Appends to `output_vec`, for each position of `word` left to right, its
/// replacement by each letter of the alphabet in order (the letter already there
/// included).
pub fn replace_edit(word: &str, output_vec: &mut Vec<String>)
    ensures
        words_of(final(output_vec)@) == words_of(old(output_vec)@) + replaces(word@),
        final(output_vec)@.len() == old(output_vec)@.len() + 26 * word@.len(),
{
    let n = word.unicode_len();
    let ghost start = words_of(output_vec@);
    let ghost w = word@;
    let mut i: usize = 0;
    while i < n
        invariant
            n == w.len(),
            w == word@,
            i <= n,
            words_of(output_vec@) == start + Seq::new(
                26 * i as nat,
                |k: int| replaced(w, k / 26, alphabet()[k % 26]),
            ),
            output_vec@.len() == start.len() + 26 * i,
        decreases n - i,
    {
        let mut j: usize = 0;
        while j < 26
            invariant
                n == w.len(),
                w == word@,
                i < n,
                j <= 26,
                words_of(output_vec@) == start + Seq::new(
                    (26 * i + j) as nat,
                    |k: int| replaced(w, k / 26, alphabet()[k % 26]),
                ),
                output_vec@.len() == start.len() + 26 * i + j,
            decreases 26 - j,
        {
            let mut s = String::from_str(word.substring_char(0, i));
            s.append(letter(j));
            s.append(word.substring_char(i + 1, n));
            assert(s@ =~= replaced(w, i as int, alphabet()[j as int]));
            proof {
                lemma_words_of_push(output_vec@, s);
                lemma_div_mod_26(i as int, j as int);
            }
            output_vec.push(s);
            assert(start + Seq::new(
                (26 * i + j + 1) as nat,
                |k: int| replaced(w, k / 26, alphabet()[k % 26]),
            ) =~= (start + Seq::new(
                (26 * i + j) as nat,
                |k: int| replaced(w, k / 26, alphabet()[k % 26]),
            )).push(replaced(w, i as int, alphabet()[j as int])));
            j = j + 1;
        }
        i = i + 1;
    }
    assert(Seq::new(26 * i as nat, |k: int| replaced(w, k / 26, alphabet()[k % 26])) =~= replaces(w));
}

/// Appends to `output_vec`, for each gap of `word` left to right (before the
/// first character through after the last), the insertion of each letter of
/// the alphabet in order.
pub fn insert_edit(word: &str, output_vec: &mut Vec<String>)
    ensures
        words_of(final(output_vec)@) == words_of(old(output_vec)@) + inserts(word@),
        final(output_vec)@.len() == old(output_vec)@.len() + 26 * (word@.len() + 1),
{
    let n = word.unicode_len();
    let ghost start = words_of(output_vec@);
    let ghost w = word@;
    let mut i: usize = 0;
    loop
        invariant_except_break
            words_of(output_vec@) == start + Seq::new(
                26 * i as nat,
                |k: int| inserted(w, k / 26, alphabet()[k % 26]),
            ),
            output_vec@.len() == start.len() + 26 * i,
        invariant
            n == w.len(),
            w == word@,
            i <= n,
        ensures
            words_of(output_vec@) == start + Seq::new(
                26 * (n + 1) as nat,
                |k: int| inserted(w, k / 26, alphabet()[k % 26]),
            ),
            output_vec@.len() == start.len() + 26 * (n + 1),
        decreases n - i,
    {
        let first = word.substring_char(0, i);
        let second = word.substring_char(i, n);
        let mut j: usize = 0;
        while j < 26
            invariant
                n == w.len(),
                w == word@,
                i <= n,
                j <= 26,
                first@ == w.take(i as int),
                second@ == w.skip(i as int),
                words_of(output_vec@) == start + Seq::new(
                    (26 * i + j) as nat,
                    |k: int| inserted(w, k / 26, alphabet()[k % 26]),
                ),
                output_vec@.len() == start.len() + 26 * i + j,
            decreases 26 - j,
        {
            let mut s = String::from_str(first);
            s.append(letter(j));
            s.append(second);
            assert(s@ =~= inserted(w, i as int, alphabet()[j as int]));
            proof {
                lemma_words_of_push(output_vec@, s);
                lemma_div_mod_26(i as int, j as int);
            }
            output_vec.push(s);
            assert(start + Seq::new(
                (26 * i + j + 1) as nat,
                |k: int| inserted(w, k / 26, alphabet()[k % 26]),
            ) =~= (start + Seq::new(
                (26 * i + j) as nat,
                |k: int| inserted(w, k / 26, alphabet()[k % 26]),
            )).push(inserted(w, i as int, alphabet()[j as int])));
            j = j + 1;
        }
        if i == n {
            break;
        }
        i = i + 1;
    }
    assert(Seq::new(26 * (n + 1) as nat, |k: int| inserted(w, k / 26, alphabet()[k % 26]))
        =~= inserts(w));
}

/// Every string one edit away from `word`: its deletions, then transpositions,
/// then replacements, then insertions, each in the order of its own generator.
pub fn create_variations(word: &str) -> (r: Vec<String>)
    ensures
        words_of(r@) == variations(word@),
{
    let mut vec_variations: Vec<String> = Vec::new();
    assert(words_of(vec_variations@) =~= Seq::<Seq<char>>::empty());
    delete_edit(word, &mut vec_variations);
    transpose_edit(word, &mut vec_variations);
    replace_edit(word, &mut vec_variations);
    insert_edit(word, &mut vec_variations);
    assert(words_of(vec_variations@) =~= variations(word@));
    vec_variations
}

proof fn lemma_alphabet_code_points()
    ensures
        forall|j: int| 0 <= j < 26 ==> (#[trigger] alphabet()[j]) as int == 'a' as int + j,
{
}

proof fn lemma_occurrences_append(a: Seq<Seq<char>>, b: Seq<Seq<char>>, x: Seq<char>)
    ensures
        occurrences(a + b, x) == occurrences(a, x) + occurrences(b, x),
    decreases b.len(),
{
    if b.len() == 0 {
        assert(a + b =~= a);
    } else {
        assert((a + b).drop_last() =~= a + b.drop_last());
        lemma_occurrences_append(a, b.drop_last(), x);
    }
}

proof fn lemma_replaced_is_word(w: Seq<char>, i: int, c: char)
    requires
        0 <= i < w.len(),
    ensures
        replaced(w, i, c) == w <==> c == w[i],
{
    if c == w[i] {
        assert(replaced(w, i, c) =~= w);
    } else {
        assert(replaced(w, i, c)[i] == c);
    }
}

proof fn lemma_replace_row_prefix(w: Seq<char>, i: int, k: int)
    requires
        0 <= i < w.len(),
        is_letter(w[i]),
        0 <= k <= 26,
    ensures
        occurrences(replaces(w).subrange(26 * i, 26 * i + 26).take(k), w) == if k > w[i] as int
            - 'a' as int {
            1nat
        } else {
            0nat
        },
    decreases k,
{
    let row = replaces(w).subrange(26 * i, 26 * i + 26);
    if k > 0 {
        lemma_replace_row_prefix(w, i, k - 1);
        assert(row.take(k).drop_last() =~= row.take(k - 1));
        lemma_alphabet_code_points();
        lemma_div_mod_26(i, k - 1);
        lemma_replaced_is_word(w, i, alphabet()[k - 1]);
        assert(row.take(k).last() == replaced(w, i, alphabet()[k - 1]));
    } else {
        assert(row.take(0) =~= Seq::<Seq<char>>::empty());
    }
}

proof fn lemma_replaces_prefix(w: Seq<char>, i: int)
    requires
        0 <= i <= w.len(),
        forall|k: int| 0 <= k < w.len() ==> is_letter(#[trigger] w[k]),
    ensures
        occurrences(replaces(w).take(26 * i), w) == i,
    decreases i,
{
    let all = replaces(w);
    if i == 0 {
        assert(all.take(0) =~= Seq::<Seq<char>>::empty());
    } else {
        lemma_replaces_prefix(w, i - 1);
        lemma_replace_row_prefix(w, i - 1, 26);
        let row = all.subrange(26 * (i - 1), 26 * i);
        assert(row.take(26) =~= row);
        assert(all.take(26 * i) =~= all.take(26 * (i - 1)) + row);
        lemma_occurrences_append(all.take(26 * (i - 1)), row, w);
    }
}

/// For a word of the letters `a` to `z`, replacement gives back the word
/// itself exactly once for each of its positions.
pub proof fn lemma_replaces_identity_count(w: Seq<char>)
    requires
        forall|k: int| 0 <= k < w.len() ==> is_letter(#[trigger] w[k]),
    ensures
        occurrences(replaces(w), w) == w.len(),
{
    lemma_replaces_prefix(w, w.len() as int);
    assert(replaces(w).take(26 * w.len() as int) =~= replaces(w));
}

} // verus!
