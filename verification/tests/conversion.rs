use crlf_converter::{crlf_to_lf, lf_to_crlf};

#[test]
fn crlf_to_lf_test() {
    assert_eq!(
        crlf_to_lf("Hello!\r\nHow\r\nare\ryou\n?\n\r"),
        String::from("Hello!\nHow\nare\ryou\n?\n\r")
    );
}

#[test]
fn lf_to_crlf_test() {
    assert_eq!(
        lf_to_crlf("Hello!\n\nHow\r\nare\ryou\n?\n\r"),
        String::from("Hello!\r\n\r\nHow\r\nare\ryou\r\n?\r\n\r")
    );
}

#[test]
fn empty_input_both_directions() {
    assert_eq!(crlf_to_lf(""), String::from(""));
    assert_eq!(lf_to_crlf(""), String::from(""));
}

#[test]
fn single_trailing_cr_unchanged_both_directions() {
    assert_eq!(crlf_to_lf("\r"), String::from("\r"));
    assert_eq!(lf_to_crlf("\r"), String::from("\r"));
}

#[test]
fn lone_cr_in_the_middle_unchanged_both_directions() {
    assert_eq!(crlf_to_lf("a\rb"), String::from("a\rb"));
    assert_eq!(lf_to_crlf("a\rb"), String::from("a\rb"));
}

#[test]
fn leading_lf_becomes_crlf() {
    assert_eq!(lf_to_crlf("\nx"), String::from("\r\nx"));
}

#[test]
fn existing_pairs_kept_verbatim() {
    assert_eq!(lf_to_crlf("a\r\nb"), String::from("a\r\nb"));
}

#[test]
fn crlf_to_lf_idempotent_concrete() {
    let once = crlf_to_lf("a\r\nb\rc\n");
    let twice = crlf_to_lf(&once);
    assert_eq!(once, twice);
}

#[test]
fn lf_to_crlf_idempotent_concrete() {
    let once = lf_to_crlf("a\nb\r\nc\r");
    let twice = lf_to_crlf(&once);
    assert_eq!(once, twice);
}

#[test]
fn length_bounds_concrete() {
    let input = "one\r\ntwo\nthree\r";
    assert!(crlf_to_lf(input).chars().count() <= input.chars().count());
    assert!(lf_to_crlf(input).chars().count() >= input.chars().count());
}

#[test]
fn lf_to_crlf_adds_one_char_per_lone_lf() {
    // two lone LFs, one LF that is already part of a pair
    let input = "a\nb\r\nc\n";
    assert_eq!(
        lf_to_crlf(input).chars().count(),
        input.chars().count() + 2
    );
}

#[test]
fn no_crlf_remains_without_cr_cr_lf() {
    let output = crlf_to_lf("a\r\nb\rc\n\r\n\r");
    assert!(!output.contains("\r\n"));
}

#[test]
fn cr_cr_lf_leaves_a_pair_behind() {
    // the lone CR passes through and lands directly before the LF that
    // the following pair collapses to, so a CRLF pair remains
    assert_eq!(crlf_to_lf("\r\r\n"), String::from("\r\n"));
}

#[test]
fn every_lf_preceded_by_cr_after_expansion() {
    for input in ["\n", "a\nb\r\nc\r\n\n\r", "\n\n\n"] {
        let output = lf_to_crlf(input);
        let chars: Vec<char> = output.chars().collect();
        for i in 0..chars.len() {
            if chars[i] == '\n' {
                assert!(i > 0 && chars[i - 1] == '\r');
            }
        }
    }
}

#[test]
fn pure_lf_round_trips() {
    let input = "one\ntwo\nthree\n";
    assert_eq!(crlf_to_lf(&lf_to_crlf(input)), String::from(input));
}

#[test]
fn pure_crlf_round_trips() {
    let input = "one\r\ntwo\r\nthree\r\n";
    assert_eq!(lf_to_crlf(&crlf_to_lf(input)), String::from(input));
}

#[test]
fn mixed_input_does_not_round_trip() {
    // the lone LF after "are\ryou" comes back as CRLF, so the round
    // trip is not the identity on mixed conventions
    let input = "Hello!\r\nHow\r\nare\ryou\n?\n\r";
    let back = lf_to_crlf(&crlf_to_lf(input));
    assert_ne!(back, String::from(input));
    assert_eq!(back, String::from("Hello!\r\nHow\r\nare\ryou\r\n?\r\n\r"));
}

#[test]
fn non_ascii_text_passes_through() {
    assert_eq!(crlf_to_lf("héllo\r\nwörld"), String::from("héllo\nwörld"));
    assert_eq!(lf_to_crlf("héllo\nwörld"), String::from("héllo\r\nwörld"));
}
