use email_address_parser::address::{matches_rule, Rule};
use email_address_parser::EmailAddress;

#[test]
fn email_address_instantiation_works() {
    let address = EmailAddress::new("foo", "bar.com", None).unwrap();
    assert_eq!(address.get_local_part(), "foo");
    assert_eq!(address.get_domain(), "bar.com");
    assert_eq!(address.to_string(), "foo@bar.com");
}

#[test]
fn domain_rule_does_not_parse_dash_google_dot_com() {
    let address = matches_rule(Rule::domain_complete, "-google.com");
    println!("{:#?}", address);
    assert_eq!(address, false);
}

#[test]
fn domain_rule_does_not_parse_dash_google_dot_com_obs() {
    let address = matches_rule(Rule::domain_obs, "-google.com");
    println!("{:#?}", address);
    assert_eq!(address, false);
}

#[test]
fn domain_rule_does_not_parse_dash_google_dash_dot_com() {
    let address = matches_rule(Rule::domain_complete, "-google-.com");
    println!("{:#?}", address);
    assert_eq!(address, false);
}

#[test]
fn domain_rule_parses_google_dash_dot_com() {
    let address = matches_rule(Rule::domain_complete, "google-.com");
    println!("{:#?}", address);
    assert_eq!(address, false);
}

#[test]
fn domain_complete_punycode_domain() {
    let actual = matches_rule(Rule::domain_complete, "xn--masekowski-d0b.pl");
    println!("{:#?}", actual);
    assert_eq!(actual, true);
}

#[test]
fn can_parse_deprecated_local_part() {
    let actual = matches_rule(Rule::local_part_obs, "\"test\".\"test\"");
    println!("{:#?}", actual);
    assert_eq!(actual, true);
}

#[test]
fn can_parse_email_with_deprecated_local_part() {
    let actual = matches_rule(Rule::address_single_obs, "\"test\".\"test\"@iana.org");
    println!("{:#?}", actual);
    assert_eq!(actual, true);
}

#[test]
fn can_parse_domain_with_space() {
    println!("{:#?}", matches_rule(Rule::domain_obs, " iana .com"));
    let actual = EmailAddress::parse("test@ iana .com", None);
    println!("{:#?}", actual);
    assert_eq!(actual.is_some(), true, "test@ iana .com");
}

#[test]
fn can_parse_email_with_cfws_near_at() {
    let email = " test @iana.org";
    let actual = EmailAddress::parse(&email, None);
    println!("{:#?}", actual);
    assert_eq!(actual.unwrap().to_string(), email);
}

#[test]
fn can_parse_email_with_crlf() {
    let email = "\u{0d}\u{0a} test@iana.org";
    let actual = EmailAddress::parse(&email, None);
    println!("{:#?}", actual);
    assert_eq!(actual.unwrap().to_string(), email);
}

#[test]
fn can_parse_local_part_with_space() {
    let actual = matches_rule(Rule::address_single_obs, "test . test@iana.org");
    println!("{:#?}", actual);
    assert_eq!(actual, true);
}

#[test]
fn can_parse_domain_with_bel() {
    let actual = matches_rule(Rule::domain_literal, "[RFC-5322-\u{07}-domain-literal]");
    println!("{:#?}", actual);
    assert_eq!(actual, true);
}

#[test]
fn test_clone() {
    let actual: EmailAddress;

    {
        let expected = EmailAddress::new("foo", "bar.com", None).unwrap();
        actual = expected.clone();

        // check they are the same
        assert_eq!(&expected, &actual);
    }

    // ensure it exists after the source is dropped
    assert_eq!("foo", actual.get_local_part());
    assert_eq!("bar.com", actual.get_domain());
}
