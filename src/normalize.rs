//! Normalisation of raw text into the words the engine works on: lowercase
//! letters only, as the training text's tokens and as queries.
use crate::edits::{is_letter, words_of};
use crate::engine::{has_neighbour, is_best, spell_check};
use crate::model::{token_counts, FrequencyModel};
use vstd::prelude::*;

verus! {

/// What `str::to_lowercase` makes of a character sequence.
pub uninterp spec fn lower_of(s: Seq<char>) -> Seq<char>;

/// What is left of `text` once every match of the regular expression `pattern`
/// is deleted.
pub uninterp spec fn pattern_removed(pattern: Seq<char>, text: Seq<char>) -> Seq<char>;

/// Whether `regex::Regex::new` accepts `pattern`: it is well formed and within
/// the default size limit.
pub uninterp spec fn regex_accepts(pattern: Seq<char>) -> bool;

/// The whitespace-separated pieces of `s`, as `str::split_whitespace` gives them.
pub uninterp spec fn whitespace_split(s: Seq<char>) -> Seq<Seq<char>>;

/// Relies on `str::to_lowercase`: the result depends on the characters alone.
#[verifier::external_body]
fn lowercase(s: &str) -> (r: String)
    ensures
        r@ == lower_of(s@),
{
    s.to_lowercase()
}

/// Relies on `regex::Regex::new` to compile `pattern` (`None` when it does not
/// compile) and on `regex::Regex::replace_all` with an empty replacement to
/// delete every match from `text`. A negated class such as `[^a-z]` matches
/// each single character outside it, so deleting its matches keeps exactly the
/// characters `a` to `z`.
#[verifier::external_body]
fn strip_pattern(pattern: &str, text: &str) -> (r: Option<String>)
    ensures
        r is Some <==> regex_accepts(pattern@),
        r matches Some(t) ==> t@ == pattern_removed(pattern@, text@),
        pattern@ == non_letter() ==> (r matches Some(t) ==> t@ == text@.filter(
            |c: char| is_letter(c),
        )),
{
    match regex::Regex::new(pattern) {
        Ok(re) => Some(re.replace_all(text, "").into_owned()),
        Err(_) => None,
    }
}

/// Relies on `str::split_whitespace`: the pieces depend on the characters alone.
#[verifier::external_body]
fn split_words(s: &str) -> (r: Vec<String>)
    ensures
        words_of(r@) == whitespace_split(s@),
{
    s.split_whitespace().map(|t| t.to_string()).collect()
}

/// The pattern of the characters a query drops: all but lowercase letters.
pub open spec fn non_letter() -> Seq<char> {
    seq!['[', '^', 'a', '-', 'z', ']']
}

/// The pattern of the characters a training text drops: all but lowercase
/// letters and whitespace.
pub open spec fn non_letter_or_space() -> Seq<char> {
    seq!['[', '^', 'a', '-', 'z', '\\', 's', ']']
}

/// The query word that an input line stands for.
pub open spec fn query_word(line: Seq<char>) -> Seq<char> {
    lower_of(line).filter(|c: char| is_letter(c))
}

/// The tokens that a training text stands for.
pub open spec fn text_tokens(text: Seq<char>) -> Seq<Seq<char>> {
    whitespace_split(pattern_removed(non_letter_or_space(), lower_of(text)))
}

/// Lowercases `line` and keeps only its letters `a` to `z`; `None` exactly when
/// the regular expression for that is not accepted.
pub fn normalize_query(line: &str) -> (r: Option<String>)
    ensures
        r is Some <==> regex_accepts(non_letter()),
        r matches Some(w) ==> w@ == query_word(line@),
{
    let pattern = "[^a-z]";
    proof {
        reveal_strlit("[^a-z]");
    }
    assert(pattern@ =~= non_letter());
    let lower = lowercase(line);
    strip_pattern(pattern, lower.as_str())
}

/// Lowercases `text`, keeps only its letters `a` to `z` and its whitespace, and
/// splits it at whitespace; `None` exactly when the regular expression for that
/// is not accepted.
pub fn corpus_tokens(text: &str) -> (r: Option<Vec<String>>)
    ensures
        r is Some <==> regex_accepts(non_letter_or_space()),
        r matches Some(v) ==> words_of(v@) == text_tokens(text@),
{
    let pattern = "[^a-z\\s]";
    proof {
        reveal_strlit("[^a-z\\s]");
    }
    assert(pattern@ =~= non_letter_or_space());
    let lower = lowercase(text);
    match strip_pattern(pattern, lower.as_str()) {
        Some(kept) => Some(split_words(kept.as_str())),
        None => None,
    }
}

impl FrequencyModel {
    /// The model of a training text: each of its tokens (see `corpus_tokens`)
    /// counted as many times as it occurs; `None` exactly when `corpus_tokens`
    /// gives none.
    pub fn from_text(text: &str) -> (r: Option<FrequencyModel>)
        ensures
            r is Some <==> regex_accepts(non_letter_or_space()),
            r matches Some(m) ==> {
                &&& m@.dom() == token_counts(text_tokens(text@)).dom()
                &&& forall|w: Seq<char>| #[trigger]
                    m@.contains_key(w) ==> m@[w] as nat == token_counts(text_tokens(text@))[w]
            },
    {
        match corpus_tokens(text) {
            Some(tokens) => Some(FrequencyModel::from_tokens(&tokens)),
            None => None,
        }
    }
}

/// Checks one input line against `corpus`: the line is normalised to its query
/// word, and that word is checked as `spell_check` does. `None` exactly when the
/// word is empty, as there is nothing to check, or when `normalize_query` gives
/// none.
pub fn check_line(line: &str, corpus: &FrequencyModel) -> (r: Option<(String, String)>)
    ensures
        r is Some <==> regex_accepts(non_letter()) && query_word(line@).len() > 0,
        r matches Some(p) ==> {
            let w = query_word(line@);
            &&& w.len() > 0
            &&& p.0@ == w
            &&& corpus@.contains_key(w) ==> p.1@ == Seq::<char>::empty()
            &&& !corpus@.contains_key(w) && !has_neighbour(corpus@, w) ==> p.1@ == seq!['-']
            &&& !corpus@.contains_key(w) && has_neighbour(corpus@, w) ==> is_best(
                corpus@,
                w,
                p.1@,
            )
        },
{
    match normalize_query(line) {
        Some(word) => {
            if word.as_str().unicode_len() > 0 {
                Some(spell_check(word.as_str(), corpus))
            } else {
                None
            }
        },
        None => None,
    }
}

} // verus!
