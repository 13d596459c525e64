use tmhole::domain::{normalize_domain, parse_gravity_line};

// normalize_domain

#[test]
fn normalize_basic_domain() {
    assert_eq!(normalize_domain("Example.COM"), Some("example.com".into()));
}

#[test]
fn normalize_trailing_dot() {
    assert_eq!(normalize_domain("example.com."), Some("example.com".into()));
}

#[test]
fn normalize_whitespace() {
    assert_eq!(normalize_domain("  example.com  "), Some("example.com".into()));
}

#[test]
fn normalize_reject_empty() {
    assert_eq!(normalize_domain(""), None);
    assert_eq!(normalize_domain("   "), None);
}

#[test]
fn normalize_reject_no_dot() {
    assert_eq!(normalize_domain("localhost"), None);
    assert_eq!(normalize_domain("printer"), None);
}

// parse_gravity_line: lines that name a domain

#[test]
fn parse_plain_domain() {
    assert_eq!(parse_gravity_line("example.com"), Some("example.com".into()));
}

#[test]
fn parse_hosts_ipv4_entry() {
    assert_eq!(
        parse_gravity_line("0.0.0.0 example.com"),
        Some("example.com".into())
    );
}

#[test]
fn parse_hosts_localhost_entry() {
    assert_eq!(
        parse_gravity_line("127.0.0.1 example.com"),
        Some("example.com".into())
    );
}

#[test]
fn parse_inline_comment() {
    assert_eq!(
        parse_gravity_line("example.com  # tracker"),
        Some("example.com".into())
    );
}

#[test]
fn parse_uppercase_domain() {
    assert_eq!(parse_gravity_line("EXAMPLE.COM"), Some("example.com".into()));
}

// parse_gravity_line: lines that name none

#[test]
fn reject_full_line_comment() {
    assert_eq!(parse_gravity_line("# example.com"), None);
}

#[test]
fn reject_empty_line() {
    assert_eq!(parse_gravity_line(""), None);
    assert_eq!(parse_gravity_line("   "), None);
}

#[test]
fn reject_wildcards() {
    assert_eq!(parse_gravity_line("*.example.com"), None);
}

#[test]
fn reject_adblock_syntax() {
    assert_eq!(parse_gravity_line("||example.com^"), None);
}

#[test]
fn reject_regex_like_entries() {
    assert_eq!(parse_gravity_line("/example\\.com/"), None);
}

#[test]
fn reject_multiple_domains_on_line() {
    assert_eq!(parse_gravity_line("0.0.0.0 example.com another.com"), None);
}

#[test]
fn reject_ipv6_hosts_entries() {
    // The first column is dropped unread, whatever kind of address it holds:
    // such a line is turned away only where its second column has no dot.
    assert_eq!(
        parse_gravity_line("::1 example.com"),
        Some("example.com".into())
    );
    assert_eq!(parse_gravity_line("::1 localhost"), None);
    assert_eq!(parse_gravity_line("::1"), None);
}

#[test]
fn reject_domain_without_dot() {
    assert_eq!(parse_gravity_line("0.0.0.0 localhost"), None);
}

// normalize_domain: further cases

#[test]
fn normalize_is_none_exactly_without_a_dot_or_text() {
    assert_eq!(normalize_domain("."), None);
    assert_eq!(normalize_domain(" . "), None);
    assert_eq!(normalize_domain("com."), None);
    assert_eq!(normalize_domain("a.b"), Some("a.b".into()));
    assert_eq!(normalize_domain(".a"), Some(".a".into()));
    assert_eq!(normalize_domain("a.."), Some("a.".into()));
}

#[test]
fn normalize_drops_one_trailing_dot_only() {
    assert_eq!(
        normalize_domain("example.com.."),
        Some("example.com.".into())
    );
}

#[test]
fn normalize_trims_every_kind_of_whitespace() {
    assert_eq!(
        normalize_domain("\t\r\n example.com \u{a0}\u{3000}\u{2003}\n"),
        Some("example.com".into())
    );
    assert_eq!(
        normalize_domain("\u{85}\u{1680}\u{2028}\u{2029}\u{202f}\u{205f}a.b\u{b}\u{c}"),
        Some("a.b".into())
    );
    // A zero-width space is no whitespace.
    assert_eq!(normalize_domain("\u{200b}a.b"), Some("\u{200b}a.b".into()));
}

#[test]
fn normalize_keeps_inner_whitespace() {
    assert_eq!(normalize_domain(" a .b "), Some("a .b".into()));
}

#[test]
fn normalize_lowers_ascii_letters_only() {
    assert_eq!(
        normalize_domain("B\u{dc}CHER.Example"),
        Some("b\u{dc}cher.example".into())
    );
    assert_eq!(normalize_domain("AZ.az@[`{"), Some("az.az@[`{".into()));
}

#[test]
fn normalize_again_gives_the_same() {
    for raw in ["Example.COM", "  a.b.  ", "x.Y.z", "\tSub.Domain.Example.ORG.\n"] {
        let once = normalize_domain(raw).unwrap();
        assert_eq!(normalize_domain(&once), Some(once.clone()));
    }
}

#[test]
fn normalize_again_takes_a_second_dot_or_inner_space() {
    // Forms that still end in a dot or in whitespace lose it in a second pass.
    let once = normalize_domain("example.com..").unwrap();
    assert_eq!(once, "example.com.");
    assert_eq!(normalize_domain(&once), Some("example.com".into()));
    let once = normalize_domain("a.b .").unwrap();
    assert_eq!(once, "a.b ");
    assert_eq!(normalize_domain(&once), Some("a.b".into()));
    let once = normalize_domain("a. .").unwrap();
    assert_eq!(once, "a. ");
    assert_eq!(normalize_domain(&once), None);
}

// parse_gravity_line: further cases

#[test]
fn parse_comment_directly_behind_domain() {
    assert_eq!(
        parse_gravity_line("example.com#tracker"),
        Some("example.com".into())
    );
    assert_eq!(
        parse_gravity_line("0.0.0.0 example.com # one # two"),
        Some("example.com".into())
    );
}

#[test]
fn parse_same_domain_from_every_shape() {
    for line in [
        "0.0.0.0 example.com",
        "example.com",
        "EXAMPLE.COM",
        "example.com # note",
        "\t0.0.0.0\t Example.Com. \r",
    ] {
        assert_eq!(parse_gravity_line(line), Some("example.com".into()));
    }
}

#[test]
fn parse_whitespace_of_any_kind_separates() {
    assert_eq!(
        parse_gravity_line("0.0.0.0\u{a0}example.com"),
        Some("example.com".into())
    );
    assert_eq!(parse_gravity_line("a.b\u{3000}c.d\u{2009}e.f"), None);
}

#[test]
fn parse_comment_after_leading_whitespace() {
    assert_eq!(parse_gravity_line("   # example.com"), None);
    assert_eq!(parse_gravity_line("\t#"), None);
    assert_eq!(parse_gravity_line("#"), None);
}

#[test]
fn reject_filter_syntax_in_domain_position() {
    assert_eq!(parse_gravity_line("0.0.0.0 *.example.com"), None);
    assert_eq!(parse_gravity_line("0.0.0.0 example.com/path"), None);
    assert_eq!(parse_gravity_line("0.0.0.0 exam|ple.com"), None);
    assert_eq!(parse_gravity_line("example.com/"), None);
    assert_eq!(parse_gravity_line("  EXAMPLE.*  # note"), None);
}

#[test]
fn filter_syntax_outside_domain_position_is_not_looked_at() {
    assert_eq!(
        parse_gravity_line("*/| example.com"),
        Some("example.com".into())
    );
    assert_eq!(
        parse_gravity_line("example.com # */|"),
        Some("example.com".into())
    );
}

#[test]
fn parse_single_word_is_taken_as_the_domain() {
    // No word is told from an address by its looks.
    assert_eq!(parse_gravity_line("0.0.0.0"), Some("0.0.0.0".into()));
    assert_eq!(parse_gravity_line("::1"), None);
}

#[test]
fn parse_drops_one_trailing_dot() {
    assert_eq!(
        parse_gravity_line("0.0.0.0 example.com."),
        Some("example.com".into())
    );
    assert_eq!(parse_gravity_line("0.0.0.0 example."), None);
}
