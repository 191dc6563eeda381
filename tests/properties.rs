use email_address_parser::address::{is_domain, is_local_part, matches_rule, Rule};
use email_address_parser::{is_valid, parse, EmailAddress, ParseMode};

const VALID_LOCAL_PARTS: [&str; 7] = [
    "foo",
    "foo.bar",
    "\"quoted string\"",
    "foö",
    "a+b",
    "!#$%&'*+-/=?^_`{|}~",
    "xn--local",
];
const VALID_DOMAINS: [&str; 6] = [
    "bar.com",
    "iana.org",
    "[127.0.0.1]",
    "xn--masekowski-d0b.pl",
    "bar-baz.com",
    "bär.com",
];
const INVALID_LOCAL_PARTS: [&str; 8] =
    ["foo-", ".foo", "foo.", "foo..bar", "fo@o", "\"unclosed", "(comment", ""];
const INVALID_DOMAINS: [&str; 9] = [
    "-bar.com",
    "bar-.com",
    "bar..com",
    ".bar.com",
    "bar.com.",
    "[unclosed",
    "",
    "bar com",
    "ba]r.com",
];

fn join(local_part: &str, domain: &str) -> String {
    format!("{}@{}", local_part, domain)
}

#[test]
fn valid_pairs_parse_into_their_parts() {
    for l in VALID_LOCAL_PARTS {
        for d in VALID_DOMAINS {
            let address = join(l, d);
            for mode in [ParseMode::Strict, ParseMode::Lax] {
                let parts = parse(&address, mode);
                assert_eq!(parts, Some((l.to_string(), d.to_string())), "{}", address);
                assert!(is_valid(&address, mode), "{}", address);
            }
        }
    }
}

#[test]
fn round_trip_rebuilds_the_input() {
    let inputs = [
        "foo@bar.com",
        " test @iana.org",
        "\r\n test@iana.org",
        "\"test\".\"test\"@iana.org",
        "test@ iana .com",
        "a(comment)@b.c",
        "\"a@b\"@c.d",
    ];
    for s in inputs {
        let (l, d) = parse(s, ParseMode::Lax).unwrap();
        assert_eq!(join(&l, &d), s);
    }
}

#[test]
fn strict_success_implies_the_same_lax_result() {
    let inputs = ["foo@bar.com", "\"x y\"@[1.2.3.4]", " foo@bar.com ", "a.b.c@d-e.f"];
    for s in inputs {
        let strict = parse(s, ParseMode::Strict);
        assert!(strict.is_some(), "{}", s);
        assert_eq!(parse(s, ParseMode::Lax), strict);
    }
}

#[test]
fn only_whole_inputs_are_accepted() {
    assert!(is_valid("foo@bar.com", ParseMode::Strict));
    assert!(!is_valid("foo@bar.com@", ParseMode::Strict));
    assert!(!is_valid("foo@bar.com@", ParseMode::Lax));
    assert!(!is_valid("@foo@bar.com", ParseMode::Strict));
    assert!(!is_valid("@foo@bar.com", ParseMode::Lax));
    assert!(!is_valid("foo@bar.com\r", ParseMode::Lax));
    assert!(!is_valid("foo@bar.com.", ParseMode::Lax));
    // A single trailing space is the optional WSP of a dot-atom.
    assert!(is_valid("foo@bar.com ", ParseMode::Strict));
    // Two are a folding white space, which only the lax grammar takes there.
    assert!(!is_valid("foo@bar.com  ", ParseMode::Strict));
    assert!(is_valid("foo@bar.com  ", ParseMode::Lax));
}

#[test]
fn labels_cannot_start_or_end_with_a_dash() {
    for mode in [ParseMode::Strict, ParseMode::Lax] {
        assert!(!is_valid("foo@-bar.com", mode));
        assert!(!is_valid("foo@bar-.com", mode));
        assert!(is_valid("foo@bar-baz.com", mode));
        assert!(!is_domain("-bar.com", mode));
        assert!(!is_domain("bar-.com", mode));
        assert!(is_domain("bar-baz.com", mode));
    }
}

#[test]
fn dotted_quoted_local_part_needs_lax() {
    let s = "\"test\".\"test\"@iana.org";
    assert_eq!(parse(s, ParseMode::Strict), None);
    assert_eq!(
        parse(s, ParseMode::Lax),
        Some(("\"test\".\"test\"".to_string(), "iana.org".to_string()))
    );
}

#[test]
fn long_separator_runs_are_rejected() {
    let dots = ".".repeat(10000);
    let dashes = "-".repeat(10000);
    for mode in [ParseMode::Strict, ParseMode::Lax] {
        assert!(!is_valid(&join("test", &dots), mode));
        assert!(!is_valid(&join("test", &dashes), mode));
        assert!(!is_valid(&join("test", &format!("a{}b", dots)), mode));
        assert!(!is_domain(&dots, mode));
        assert!(!is_domain(&dashes, mode));
    }
}

#[test]
fn obsolete_domain_nesting_is_bounded() {
    let within = format!("a{}", " .a".repeat(127));
    let beyond = format!("a{}", " .a".repeat(128));
    assert!(!is_valid(&join("test", &within), ParseMode::Strict));
    assert!(is_valid(&join("test", &within), ParseMode::Lax));
    assert!(!is_valid(&join("test", &beyond), ParseMode::Lax));
    let dotted = format!("a{}", ".a".repeat(1000));
    assert!(is_valid(&join("test", &dotted), ParseMode::Strict));
}

#[test]
fn unicode_parts_are_kept() {
    for mode in [ParseMode::Strict, ParseMode::Lax] {
        let (l, d) = parse("foö@bär.com", mode).unwrap();
        assert_eq!(l, "foö");
        assert_eq!(d, "bär.com");
    }
}

#[test]
fn leading_crlf_fold_needs_lax() {
    let s = "\r\n test@iana.org";
    assert_eq!(parse(s, ParseMode::Strict), None);
    let (l, d) = parse(s, ParseMode::Lax).unwrap();
    assert_eq!(l, "\r\n test");
    assert_eq!(d, "iana.org");
}

#[test]
fn invalid_pairs_do_not_parse_strictly() {
    for l in INVALID_LOCAL_PARTS {
        for d in VALID_DOMAINS {
            assert!(!is_valid(&join(l, d), ParseMode::Strict), "{}", join(l, d));
        }
        for d in INVALID_DOMAINS {
            assert!(!is_valid(&join(l, d), ParseMode::Strict), "{}", join(l, d));
        }
    }
    for l in VALID_LOCAL_PARTS {
        for d in INVALID_DOMAINS {
            assert!(!is_valid(&join(l, d), ParseMode::Strict), "{}", join(l, d));
        }
    }
}

#[test]
fn part_rules_hold_each_part_alone() {
    for l in VALID_LOCAL_PARTS {
        assert!(is_local_part(l, ParseMode::Strict), "{}", l);
    }
    for d in VALID_DOMAINS {
        assert!(is_domain(d, ParseMode::Strict), "{}", d);
    }
    for l in INVALID_LOCAL_PARTS {
        assert!(!is_local_part(l, ParseMode::Strict), "{}", l);
    }
    for d in INVALID_DOMAINS {
        assert!(!is_domain(d, ParseMode::Strict), "{}", d);
    }
    assert!(is_local_part("foo-", ParseMode::Lax));
    assert!(is_local_part("\r\n \r\n test", ParseMode::Lax));
    assert!(!is_local_part("\r\n \r\n test", ParseMode::Strict));
}

#[test]
fn rules_match_whole_inputs_only() {
    assert!(matches_rule(Rule::address_single, "foo@bar.com"));
    assert!(!matches_rule(Rule::address_single, "\"test\".\"test\"@iana.org"));
    assert!(matches_rule(Rule::local_part_complete, "foo.bar"));
    assert!(!matches_rule(Rule::local_part_complete, "foo.bar@"));
    assert!(matches_rule(Rule::domain_obs, " iana .com"));
    assert!(!matches_rule(Rule::domain_complete, " iana .com"));
    assert!(matches_rule(Rule::domain_literal, "[a b]"));
    assert!(!matches_rule(Rule::domain_literal, "[a[b]"));
    assert!(matches_rule(Rule::domain_complete, "[1.2.3.4]"));
    assert!(!matches_rule(Rule::address_single_obs, ""));
}

#[test]
fn comments_and_quoted_pairs() {
    assert!(is_valid("(hi)foo@bar.com", ParseMode::Lax));
    assert!(is_valid("foo(a(b)c)@bar.com", ParseMode::Lax));
    assert!(!is_valid("foo(a(b c)@bar.com", ParseMode::Lax));
    assert!(is_valid("\"a\\\"b\"@bar.com", ParseMode::Strict));
    assert!(!is_valid("\"a\\\u{e9}b\"@bar.com", ParseMode::Strict));
    assert!(is_valid("\"a\\\u{7}b\"@bar.com", ParseMode::Strict));
    assert!(!is_valid("foo@[\\]]", ParseMode::Strict));
}

#[test]
fn email_address_new_validates_each_part() {
    assert!(EmailAddress::new("foo-", "bar.com", Some(true)).is_none());
    assert!(EmailAddress::new("foo-", "bar.com", None).is_some());
    assert!(EmailAddress::new("foo", "-bar.com", None).is_none());
    assert!(EmailAddress::new("foo", "", None).is_none());
    assert!(EmailAddress::new("", "bar.baz", None).is_none());
    let a = EmailAddress::new("\r\n \r\n test", "iana.org", Some(false)).unwrap();
    assert_eq!(a.local_part(), "\r\n \r\n test");
    assert_eq!(a.domain(), "iana.org");
}

#[test]
fn email_address_parse_modes() {
    assert!(EmailAddress::parse("foo@-bar.com", Some(true)).is_none());
    let email = EmailAddress::parse("foo@bar.com", Some(true)).unwrap();
    assert_eq!(email.get_local_part(), "foo");
    assert_eq!(email.get_domain(), "bar.com");
    assert_eq!(email.to_string(), "foo@bar.com");
    assert!(EmailAddress::parse("\r\n test@iana.org", Some(true)).is_none());
    assert!(EmailAddress::parse("\r\n test@iana.org", Some(false)).is_some());
    assert!(EmailAddress::parse("\r\n \r\n test@iana.org", None).is_some());
    assert!(EmailAddress::parse("test@-iana.org", None).is_none());
}

#[test]
fn email_addresses_compare_by_parts() {
    let a = EmailAddress::parse("foo@bar.com", None).unwrap();
    let b = EmailAddress::new("foo", "bar.com", None).unwrap();
    let c = EmailAddress::new("foo", "bar.org", None).unwrap();
    assert_eq!(a, b);
    assert_ne!(a, c);
}

#[test]
fn parsed_parts_stand_alone() {
    let inputs = [
        "foo@bar.com",
        "test@ iana .com",
        "a@[b@c]",
        "x@(note)[1.2.3.4]",
        "\"a@b\"@c.d",
        "\r\n test@iana.org",
        "(a@b)x@y.z",
        "\"test\".\"test\"@iana.org",
        "test . test@iana.org",
    ];
    for s in inputs {
        for mode in [ParseMode::Strict, ParseMode::Lax] {
            if let Some((l, d)) = parse(s, mode) {
                assert!(is_local_part(&l, mode), "{} gives {}", s, l);
                assert!(is_domain(&d, mode), "{} gives {}", s, d);
            }
        }
    }
    assert_eq!(
        parse("a@[b@c]", ParseMode::Strict),
        Some(("a".to_string(), "[b@c]".to_string()))
    );
}

#[test]
fn trailing_dot_or_dash_never_parses() {
    let inputs = ["foo@bar.com.", "foo@bar-", "foo@bar.com -", "a@b.", "@.", "-", "."];
    for s in inputs {
        for mode in [ParseMode::Strict, ParseMode::Lax] {
            assert!(!is_valid(s, mode), "{}", s);
        }
    }
}

#[test]
fn invalid_parts_can_join_into_other_parts() {
    // Neither part is valid alone, yet the joined text is an address whose
    // split falls on the first `@`, inside what was the local part.
    assert!(!is_local_part("a@[b", ParseMode::Strict));
    assert!(!is_domain("c]", ParseMode::Strict));
    assert_eq!(
        parse(&join("a@[b", "c]"), ParseMode::Strict),
        Some(("a".to_string(), "[b@c]".to_string()))
    );
}
