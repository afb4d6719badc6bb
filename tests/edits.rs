use spellchecker::edits::{create_variations, delete_edit, insert_edit, replace_edit, transpose_edit};

fn assert_delete(expected_output: &[&str], input: &str) {
    let mut output = vec![];
    delete_edit(input, &mut output);
    assert!(expected_output.len() == output.len());
    for (o, eo) in output.iter().zip(expected_output.iter()) {
        assert_eq!(o, eo);
    }
}

fn assert_transpose(expected_output: &[&str], input: &str) {
    let mut output = vec![];
    transpose_edit(input, &mut output);
    assert!(expected_output.len() == output.len());
    for (o, eo) in output.iter().zip(expected_output.iter()) {
        assert_eq!(o, eo);
    }
}

fn assert_replace(expected_output: &str, input: &str) {
    let mut output = vec![];
    replace_edit(input, &mut output);
    assert!(expected_output.len() == output.len());
    for (o, eo) in output.iter().zip(expected_output.chars()) {
        let ch = o.chars().nth(0).unwrap();
        assert_eq!(ch, eo);
    }
}

fn assert_insert(expected_output: &[&str], input: &str) {
    let mut output = vec![];
    insert_edit(input, &mut output);
    assert!(expected_output.len() == output.len());
    for (o, eo) in output.iter().zip(expected_output.iter()) {
        assert_eq!(o, eo);
    }
}

#[test]
fn main_empty_input() {
    assert_delete(&[], "");
}

// A one-character word has exactly one deletion: the empty word.
#[test]
fn main_one_input() {
    assert_delete(&[""], "x");
}

#[test]
fn main_two_input() {
    assert_delete(&["y", "x"], "xy");
}

#[test]
fn main_three_input() {
    assert_delete(&["yz", "xz", "xy"], "xyz");
}

#[test]
fn empty_input() {
    assert_transpose(&[], "");
}

#[test]
fn one_input() {
    assert_transpose(&[], "x");
}

#[test]
fn two_input() {
    assert_transpose(&["yx"], "xy");
}

#[test]
fn three_input() {
    assert_transpose(&["yxz", "xzy"], "xyz");
}

#[test]
fn replace_empty_input() {
    assert_replace("", "");
}

#[test]
fn replace_one_input() {
    let alphabet = "abcdefghijklmnopqrstuvwxyz";
    assert_replace(&alphabet, "x");
}

#[test]
fn insert_empty_input() {
    assert_insert(
        &[
            "a", "b", "c", "d", "e", "f", "g", "h", "i", "j", "k", "l", "m", "n", "o", "p", "q",
            "r", "s", "t", "u", "v", "w", "x", "y", "z",
        ],
        "",
    );
}

#[test]
fn insert_one_input() {
    assert_insert(
        &[
            "ax", "bx", "cx", "dx", "ex", "fx", "gx", "hx", "ix", "jx", "kx", "lx", "mx", "nx",
            "ox", "px", "qx", "rx", "sx", "tx", "ux", "vx", "wx", "xx", "yx", "zx", "xa", "xb",
            "xc", "xd", "xe", "xf", "xg", "xh", "xi", "xj", "xk", "xl", "xm", "xn", "xo", "xp",
            "xq", "xr", "xs", "xt", "xu", "xv", "xw", "xx", "xy", "xz",
        ],
        "x",
    );
}

#[test]
fn deletion_count_matches_length() {
    let mut output = vec![];
    delete_edit("hello", &mut output);
    assert_eq!(output, vec!["ello", "hllo", "helo", "helo", "hell"]);
}

#[test]
fn transposition_count_is_length_minus_one() {
    let mut output = vec![];
    transpose_edit("abcd", &mut output);
    assert_eq!(output, vec!["bacd", "acbd", "abdc"]);
}

#[test]
fn replacement_count_is_twenty_six_per_character() {
    let mut output = vec![];
    replace_edit("abc", &mut output);
    assert_eq!(output.len(), 78);
    assert_eq!(output[0], "abc");
    assert_eq!(output[1], "bbc");
    assert_eq!(output[26 + 25], "azc");
    assert_eq!(output[77], "abz");
    assert!(output.iter().filter(|s| s.as_str() == "abc").count() == 3);
}

#[test]
fn insertion_count_is_twenty_six_per_gap() {
    let mut output = vec![];
    insert_edit("ab", &mut output);
    assert_eq!(output.len(), 78);
    assert_eq!(output[0], "aab");
    assert_eq!(output[26 + 2], "acb");
    assert_eq!(output[77], "abz");
}

#[test]
fn edits_append_after_existing_entries() {
    let mut output = vec!["keep".to_string()];
    delete_edit("ab", &mut output);
    assert_eq!(output, vec!["keep", "b", "a"]);
}

#[test]
fn edits_work_on_characters_not_bytes() {
    let mut output = vec![];
    transpose_edit("éa", &mut output);
    assert_eq!(output, vec!["aé"]);
    let mut output = vec![];
    delete_edit("né", &mut output);
    assert_eq!(output, vec!["é", "n"]);
}

#[test]
fn variations_concatenate_the_four_edits() {
    let v = create_variations("ab");
    assert_eq!(v.len(), 2 + 1 + 52 + 78);
    assert_eq!(v[0], "b");
    assert_eq!(v[1], "a");
    assert_eq!(v[2], "ba");
    assert_eq!(v[3], "ab");
    assert_eq!(v[4], "bb");
    assert_eq!(v[3 + 52], "aab");
    let empty = create_variations("");
    assert_eq!(empty.len(), 26);
    assert_eq!(empty[0], "a");
}
