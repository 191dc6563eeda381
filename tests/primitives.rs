use email_address_parser::classes::{
    is_atext, is_atext_no_dash, is_ctext_char, is_dtext_char, is_obs_no_ws_ctl,
    is_printable_us_ascii, is_qtext_char, is_quoted_pair_char, is_utf8_non_ascii, is_wsp,
};
use email_address_parser::obsolete::{obs_domain, obs_local_part};
use email_address_parser::scan::{
    cfws, comment, consume_crlf, fws, next_char, opt_wsp, skip_cfws0, skip_fws0, span_end,
    take_repeated_char, wsp0, CharClass,
};
use email_address_parser::tokens::{atom, domain_literal, dot_atom, quoted_string};

fn chars(s: &str) -> Vec<char> {
    s.chars().collect()
}

#[test]
fn whitespace_and_ascii_classes() {
    assert!(is_wsp(' '));
    assert!(is_wsp('\t'));
    assert!(!is_wsp('\r'));
    assert!(!is_wsp('a'));
    assert!(is_printable_us_ascii('!'));
    assert!(is_printable_us_ascii('~'));
    assert!(!is_printable_us_ascii(' '));
    assert!(!is_printable_us_ascii('\u{7f}'));
    assert!(is_utf8_non_ascii('\u{80}'));
    assert!(is_utf8_non_ascii('ö'));
    assert!(!is_utf8_non_ascii('\u{7f}'));
}

#[test]
fn control_and_quoted_pair_classes() {
    assert!(is_obs_no_ws_ctl('\u{1}'));
    assert!(is_obs_no_ws_ctl('\u{b}'));
    assert!(is_obs_no_ws_ctl('\u{7f}'));
    assert!(!is_obs_no_ws_ctl('\0'));
    assert!(!is_obs_no_ws_ctl('\t'));
    assert!(!is_obs_no_ws_ctl('\r'));
    assert!(!is_obs_no_ws_ctl('\n'));
    assert!(is_quoted_pair_char('\0'));
    assert!(is_quoted_pair_char('\n'));
    assert!(is_quoted_pair_char(' '));
    assert!(is_quoted_pair_char('"'));
    assert!(!is_quoted_pair_char('ö'));
}

#[test]
fn text_classes_exclude_their_delimiters() {
    assert!(is_ctext_char('a'));
    assert!(is_ctext_char('ö'));
    assert!(!is_ctext_char('('));
    assert!(!is_ctext_char(')'));
    assert!(!is_ctext_char('\\'));
    assert!(!is_ctext_char(' '));
    assert!(is_qtext_char('('));
    assert!(!is_qtext_char('"'));
    assert!(!is_qtext_char('\\'));
    assert!(is_dtext_char('"'));
    assert!(!is_dtext_char('['));
    assert!(!is_dtext_char(']'));
    assert!(!is_dtext_char('\\'));
}

#[test]
fn atext_classes() {
    for c in "aZ09!#$%&'*+-/=?^_`{|}~ö".chars() {
        assert!(is_atext(c), "{}", c);
    }
    for c in "@.()<>[]:;\\\", ".chars() {
        assert!(!is_atext(c), "{}", c);
    }
    assert!(!is_atext_no_dash('-'));
    assert!(is_atext_no_dash('a'));
    assert!(!is_atext_no_dash('@'));
}

#[test]
fn character_steps() {
    let s = chars("ab\r\nx");
    assert_eq!(next_char(&s, 1), Some(('b', 2)));
    assert_eq!(next_char(&s, 5), None);
    assert_eq!(consume_crlf(&s, 2), Some(4));
    assert_eq!(consume_crlf(&s, 0), None);
    assert_eq!(consume_crlf(&chars("\r"), 0), None);
}

#[test]
fn character_runs() {
    let s = chars(" \t a---b");
    assert_eq!(wsp0(&s, 0), (3, 3));
    assert_eq!(wsp0(&s, 3), (3, 0));
    assert_eq!(take_repeated_char(&s, 4, '-'), (7, 3));
    assert_eq!(take_repeated_char(&s, 0, '-'), (0, 0));
    assert_eq!(span_end(&s, 3, CharClass::Atext), 8);
    assert_eq!(span_end(&s, 3, CharClass::AtextNoDash), 4);
    assert_eq!(opt_wsp(&s, 0), 1);
    assert_eq!(opt_wsp(&s, 3), 3);
}

#[test]
fn folding_white_space() {
    assert_eq!(fws(&chars("  \r\n  x"), 0), Some(6));
    assert_eq!(fws(&chars("\r\n x"), 0), Some(3));
    assert_eq!(fws(&chars(" \r\nx"), 0), Some(1));
    assert_eq!(fws(&chars("  \r\nx"), 0), Some(2));
    assert_eq!(fws(&chars("\r\nx"), 0), None);
    assert_eq!(fws(&chars("x"), 0), None);
    assert_eq!(fws(&chars(" \r\n \r\nx"), 0), Some(4));
    assert_eq!(skip_fws0(&chars("  \r\n  x"), 0), 6);
    assert_eq!(skip_fws0(&chars(" \r\nx"), 0), 1);
    assert_eq!(skip_fws0(&chars("x"), 0), 0);
}

#[test]
fn comments_nest() {
    assert_eq!(comment(&chars("(a(b)c)x"), 0), Some(7));
    assert_eq!(comment(&chars("( a \\) )x"), 0), Some(8));
    assert_eq!(comment(&chars("(a(b)c"), 0), None);
    assert_eq!(comment(&chars("a"), 0), None);
    assert_eq!(cfws(&chars(" (c) x"), 0), Some(5));
    assert_eq!(cfws(&chars("  x"), 0), Some(2));
    assert_eq!(cfws(&chars("x"), 0), None);
    assert_eq!(skip_cfws0(&chars(" (c) x"), 0), 5);
    assert_eq!(skip_cfws0(&chars("(a(b)c)x"), 0), 7);
    assert_eq!(skip_cfws0(&chars("x (c)"), 0), 0);
}

#[test]
fn token_rules() {
    assert_eq!(dot_atom(&chars(" a.b @"), 0), Some(5));
    assert_eq!(dot_atom(&chars("a.-b"), 0), None);
    assert_eq!(dot_atom(&chars("a-.b"), 0), None);
    assert_eq!(dot_atom(&chars("a. (c)b"), 0), Some(7));
    assert_eq!(atom(&chars(" ab (c)@"), 0), Some(7));
    assert_eq!(quoted_string(&chars("\"a b\"@"), 0), Some(5));
    assert_eq!(quoted_string(&chars("\"a"), 0), None);
    assert_eq!(domain_literal(&chars("[1.2.3.4] "), 0), Some(10));
    assert_eq!(domain_literal(&chars("[a[b]"), 0), None);
}

#[test]
fn obsolete_rules() {
    assert_eq!(obs_local_part(&chars("a . b@"), 0), Some(5));
    assert_eq!(obs_local_part(&chars("a . @"), 0), None);
    assert_eq!(obs_local_part(&chars("\r\n a@"), 0), Some(4));
    assert_eq!(obs_domain(&chars("a-b.c"), 0), Some(5));
    assert_eq!(obs_domain(&chars(" a .c "), 0), Some(6));
    assert_eq!(obs_domain(&chars("a."), 0), None);
    assert_eq!(obs_domain(&chars("a (x)"), 0), Some(2));
    assert_eq!(obs_domain(&chars("-a"), 0), None);
}

#[test]
fn obs_domain_chain_depth() {
    let within = chars(&format!("a{}", ".a".repeat(127)));
    assert_eq!(obs_domain(&within, 0), Some(within.len()));
    for k in [128, 200, 5000] {
        let beyond = chars(&format!("a{}", ".a".repeat(k)));
        assert_eq!(obs_domain(&beyond, 0), None, "{}", k);
    }
}

#[test]
fn unfinished_fold_leaves_whitespace() {
    assert_eq!(cfws(&chars("  \r\nx"), 0), Some(2));
    assert_eq!(skip_cfws0(&chars("  \r\nx"), 0), 2);
}
