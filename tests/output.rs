use spellchecker::engine::write_output;

fn assert_write(expected: &str, given: &(String, String)) {
    let mut writer = String::new();
    write_output(&mut writer, given);
    assert_eq!(expected.as_bytes(), writer.as_bytes());
}

#[test]
fn no_correction_needed() {
    assert_write("hello\n", &("hello".to_string(), "".to_string()));
}

#[test]
fn one_correction() {
    assert_write("hell, hello\n", &("hell".to_string(), "hello".to_string()));
}

#[test]
fn no_match() {
    assert_write("w, -\n", &("w".to_string(), "-".to_string()));
}

#[test]
fn lines_accumulate() {
    let mut out = String::new();
    write_output(&mut out, &("a".to_string(), "".to_string()));
    write_output(&mut out, &("b".to_string(), "c".to_string()));
    assert_eq!(out, "a\nb, c\n");
}
