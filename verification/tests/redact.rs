use frr_bootc::redact::redact_passwords;

#[test]
fn redacts_password_line() {
    assert_eq!(
        redact_passwords(" neighbor 10.0.0.1 password s3cr3t"),
        " neighbor 10.0.0.1 password <REDACTED>"
    );
}

#[test]
fn redacts_only_the_password_and_anything_after_it() {
    assert_eq!(
        redact_passwords("neighbor 10.0.0.1 password s3cr3t extra stuff"),
        "neighbor 10.0.0.1 password <REDACTED>"
    );
}

#[test]
fn leaves_unrelated_lines_untouched() {
    let line = " neighbor 10.0.0.1 remote-as 65001";
    assert_eq!(redact_passwords(line), line);
}

#[test]
fn leaves_lines_missing_password_keyword_untouched() {
    let line = "neighbor 10.0.0.1 description no-password-here";
    assert_eq!(redact_passwords(line), line);
}

#[test]
fn redacts_multiple_lines_independently() {
    let input = "router bgp 65001\n neighbor 10.0.0.1 password s3cr3t\n neighbor 10.0.0.2 remote-as 65002";
    let expected = "router bgp 65001\n neighbor 10.0.0.1 password <REDACTED>\n neighbor 10.0.0.2 remote-as 65002";
    assert_eq!(redact_passwords(input), expected);
}

#[test]
fn whitespace_between_the_words_is_kept() {
    assert_eq!(
        redact_passwords("\t neighbor\t2001:db8::1   password \t x"),
        "\t neighbor\t2001:db8::1   password \t <REDACTED>"
    );
    // Only blanks and tabs stand between the words.
    assert_eq!(
        redact_passwords("neighbor a password \u{a0}x"),
        "neighbor a password <REDACTED>"
    );
    assert_eq!(
        redact_passwords("neighbor a\u{a0}password x"),
        "neighbor a\u{a0}password x"
    );
}

#[test]
fn a_password_line_needs_whitespace_after_each_word() {
    for line in [
        "neighborhood 10.0.0.1 password x",
        "neighbor",
        "neighbor ",
        "neighbor 10.0.0.1",
        "neighbor 10.0.0.1 passwordx",
        "neighbor 10.0.0.1 password",
        "no neighbor 10.0.0.1 password x",
        "neighbor 10.0.0.1 x password y",
    ] {
        assert_eq!(redact_passwords(line), line);
    }
}

#[test]
fn an_empty_password_is_redacted_too() {
    assert_eq!(
        redact_passwords("neighbor 10.0.0.1 password "),
        "neighbor 10.0.0.1 password <REDACTED>"
    );
}

#[test]
fn line_ends_are_normalised() {
    assert_eq!(redact_passwords(""), "");
    assert_eq!(redact_passwords("a\r\nb\n"), "a\nb");
    assert_eq!(redact_passwords("a\n\n"), "a\n");
}

#[test]
fn redacting_a_line_twice_changes_nothing_more() {
    let once = redact_passwords("neighbor 10.0.0.1 password s3cr3t");
    assert_eq!(redact_passwords(&once), once);
}

#[test]
fn two_passwords_leave_the_same_text() {
    assert_eq!(
        redact_passwords("x\nneighbor a password one"),
        redact_passwords("x\nneighbor a password two three")
    );
}
