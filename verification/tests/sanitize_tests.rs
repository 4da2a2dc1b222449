use wtfis::sanitize::beautify;
use wtfis::sanitize::strip_brackets_chars;
use wtfis::text::chars_to_string;
use wtfis::text::str_to_chars;

fn strip(s: &str) -> String {
    chars_to_string(&strip_brackets_chars(&str_to_chars(s)))
}

#[test]
fn bracket_stripping_drops_spans() {
    assert_eq!(strip("a (b) c [d] e"), "a  c  e");
}

#[test]
fn bracket_stripping_nested() {
    assert_eq!(strip("x (a [b] c) y"), "x  y");
}

#[test]
fn unbalanced_closing_bracket_drops_rest() {
    assert_eq!(strip("a) b"), "a");
}

#[test]
fn unbalanced_closing_bracket_through_beautify() {
    assert_eq!(beautify(&String::from("a) b")), "a");
}

#[test]
fn beautify_collapses_spaces_left_by_brackets() {
    assert_eq!(beautify(&String::from("a (b) c [d] e")), "a c e");
}

#[test]
fn trailing_colon_yields_sentinel() {
    assert_eq!(
        beautify(&String::from("Term:")),
        "Your message was not recognised by database. \nPlease, correct it or enter another one."
    );
}

#[test]
fn trailing_colon_after_stripping_yields_sentinel() {
    assert_eq!(
        beautify(&String::from("Term (detail):")),
        "Your message was not recognised by database. \nPlease, correct it or enter another one."
    );
}

#[test]
fn empty_input_stays_empty() {
    assert_eq!(beautify(&String::from("")), "");
}

#[test]
fn escape_sequences_are_unescaped() {
    assert_eq!(
        beautify(&String::from("he said \\\"hi\\\" and \\'yo\\'")),
        "he said \"hi\" and 'yo'"
    );
}

#[test]
fn backslash_n_sequences_are_removed() {
    assert_eq!(beautify(&String::from("one\\ntwo")), "onetwo");
}

#[test]
fn space_before_comma_collapses_once() {
    assert_eq!(beautify(&String::from("a , b")), "a, b");
}

#[test]
fn double_space_collapsing_is_single_pass() {
    assert_eq!(beautify(&String::from("a    b")), "a  b");
}

#[test]
fn round_trip_through_char_vectors() {
    assert_eq!(chars_to_string(&str_to_chars("Grünkohl, 緑")), "Grünkohl, 緑");
}
