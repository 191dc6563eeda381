//! The address rules and the entry point that chooses between the strict
//! grammar and the lax one.
use vstd::prelude::*;
use crate::obsolete::{obs_domain, obs_domain_spec, obs_local_part, obs_local_part_spec};
use crate::scan::{comment_run, fws_spec, opt_pos, within};
use crate::tokens::{
    domain_literal, domain_literal_spec, dot_atom, dot_atom_spec, quoted_string,
    quoted_string_spec,
};

verus! {

/// Which grammar an address is held to.
#[derive(Clone, Copy, PartialEq, Eq, Structural, Debug)]
pub enum ParseMode {
    /// RFC 5322 `addr-spec` only.
    Strict,
    /// `addr-spec`, and failing that the obsolete productions as well.
    Lax,
}

/// The first of two alternatives that matches.
pub open spec fn first_of(a: Option<int>, b: Option<int>) -> Option<int> {
    match a {
        Some(q) => Some(q),
        None => b,
    }
}

/// `local-part = dot-atom | quoted-string`.
pub open spec fn local_part_strict_spec(s: Seq<char>, p: int) -> Option<int> {
    first_of(dot_atom_spec(s, p), quoted_string_spec(s, p))
}

/// `domain = dot-atom | domain-literal`.
pub open spec fn domain_strict_spec(s: Seq<char>, p: int) -> Option<int> {
    first_of(dot_atom_spec(s, p), domain_literal_spec(s, p))
}

/// The lax local part: `obs-local-part | dot-atom | quoted-string`.
pub open spec fn local_part_obs_spec(s: Seq<char>, p: int) -> Option<int> {
    first_of(obs_local_part_spec(s, p), local_part_strict_spec(s, p))
}

/// The lax domain: `obs-domain | dot-atom | domain-literal`.
pub open spec fn domain_obs_spec(s: Seq<char>, p: int) -> Option<int> {
    first_of(obs_domain_spec(s, p, 0), domain_strict_spec(s, p))
}

/// A local part, the `@` at the position it ends at, then a domain: the
/// position of the `@` and the end of the domain.
pub open spec fn address_with(local: Option<int>, s: Seq<char>, domain: spec_fn(int) -> Option<
    int,
>) -> Option<(int, int)> {
    match local {
        Some(l) => if 0 <= l < s.len() && s[l] == '@' {
            match domain(l + 1) {
                Some(e) => Some((l, e)),
                None => None,
            }
        } else {
            None
        },
        None => None,
    }
}

/// `address-spec = local-part "@" domain`.
#[verifier::opaque]
pub open spec fn address_strict_spec(s: Seq<char>, p: int) -> Option<(int, int)> {
    address_with(local_part_strict_spec(s, p), s, |q: int| domain_strict_spec(s, q))
}

/// `address-spec-obs = lax local-part "@" lax domain`.
#[verifier::opaque]
pub open spec fn address_obs_spec(s: Seq<char>, p: int) -> Option<(int, int)> {
    address_with(local_part_obs_spec(s, p), s, |q: int| domain_obs_spec(s, q))
}

/// The position of the `@` of a match that covers all of `s`.
pub open spec fn whole(m: Option<(int, int)>, s: Seq<char>) -> Option<int> {
    match m {
        Some((l, e)) => if e == s.len() {
            Some(l)
        } else {
            None
        },
        None => None,
    }
}

/// Where `s`, read as a whole address in `mode`, splits into local part and
/// domain: the strict grammar first, then, in lax mode only, the obsolete one.
pub open spec fn address_split(s: Seq<char>, mode: ParseMode) -> Option<int> {
    match whole(address_strict_spec(s, 0), s) {
        Some(l) => Some(l),
        None => if mode == ParseMode::Lax {
            whole(address_obs_spec(s, 0), s)
        } else {
            None
        },
    }
}

/// The local part and the domain of `s`, as substrings of it.
pub open spec fn parsed(s: Seq<char>, mode: ParseMode) -> Option<(Seq<char>, Seq<char>)> {
    match address_split(s, mode) {
        Some(l) => Some((s.subrange(0, l), s.subrange(l + 1, s.len() as int))),
        None => None,
    }
}

/// The characters of `input`, in order.
pub fn chars_of(input: &str) -> (v: Vec<char>)
    ensures
        v@ == input@,
{
    let mut v: Vec<char> = Vec::new();
    for ch in it: input.chars()
        invariant
            v@ == it.seq().take(it.index() as int),
            it.seq() == input@,
    {
        v.push(ch);
    }
    v
}


/// `local-part` of the strict grammar at `p`.
pub fn local_part_strict(s: &[char], p: usize) -> (r: Option<usize>)
    requires
        p <= s.len(),
    ensures
        opt_pos(r) == local_part_strict_spec(s@, p as int),
        within(r, p, s@.len()),
{
    match dot_atom(s, p) {
        Some(q) => Some(q),
        None => quoted_string(s, p),
    }
}

/// `domain` of the strict grammar at `p`.
pub fn domain_strict(s: &[char], p: usize) -> (r: Option<usize>)
    requires
        p <= s.len(),
    ensures
        opt_pos(r) == domain_strict_spec(s@, p as int),
        within(r, p, s@.len()),
{
    match dot_atom(s, p) {
        Some(q) => Some(q),
        None => domain_literal(s, p),
    }
}

/// The local part of the lax grammar at `p`.
pub fn local_part_obs(s: &[char], p: usize) -> (r: Option<usize>)
    requires
        p <= s.len(),
    ensures
        opt_pos(r) == local_part_obs_spec(s@, p as int),
        within(r, p, s@.len()),
{
    match obs_local_part(s, p) {
        Some(q) => Some(q),
        None => local_part_strict(s, p),
    }
}

/// The domain of the lax grammar at `p`.
pub fn domain_obs(s: &[char], p: usize) -> (r: Option<usize>)
    requires
        p <= s.len(),
    ensures
        opt_pos(r) == domain_obs_spec(s@, p as int),
        within(r, p, s@.len()),
{
    match obs_domain(s, p) {
        Some(q) => Some(q),
        None => domain_strict(s, p),
    }
}

/// The pair of positions as the spec functions see it.
pub open spec fn opt_pair(r: Option<(usize, usize)>) -> Option<(int, int)> {
    match r {
        Some((l, e)) => Some((l as int, e as int)),
        None => None,
    }
}

/// `address-spec` at `p`: the position of the `@` and the end of the domain.
pub fn address_spec_strict(s: &[char], p: usize) -> (r: Option<(usize, usize)>)
    requires
        p <= s.len(),
    ensures
        opt_pair(r) == address_strict_spec(s@, p as int),
        r matches Some((l, e)) ==> p <= l < e <= s.len() && s@[l as int] == '@',
{
    proof {
        reveal(address_strict_spec);
    }
    let l = match local_part_strict(s, p) {
        Some(l) => l,
        None => return None,
    };
    if !(l < s.len() && s[l] == '@') {
        return None;
    }
    match domain_strict(s, l + 1) {
        Some(e) => Some((l, e)),
        None => None,
    }
}

/// `address-spec-obs` at `p`: the position of the `@` and the end of the domain.
pub fn address_spec_obs(s: &[char], p: usize) -> (r: Option<(usize, usize)>)
    requires
        p <= s.len(),
    ensures
        opt_pair(r) == address_obs_spec(s@, p as int),
        r matches Some((l, e)) ==> p <= l < e <= s.len() && s@[l as int] == '@',
{
    proof {
        reveal(address_obs_spec);
    }
    let l = match local_part_obs(s, p) {
        Some(l) => l,
        None => return None,
    };
    if !(l < s.len() && s[l] == '@') {
        return None;
    }
    match domain_obs(s, l + 1) {
        Some(e) => Some((l, e)),
        None => None,
    }
}

/// Where the whole of `s` splits into local part and domain in `mode`: the
/// position of the separating `@`.
pub fn parse_address(s: &[char], mode: ParseMode) -> (r: Option<usize>)
    ensures
        opt_pos(r) == address_split(s@, mode),
        r matches Some(l) ==> l < s.len() && s@[l as int] == '@',
{
    if let Some((l, e)) = address_spec_strict(s, 0) {
        if e == s.len() {
            return Some(l);
        }
    }
    if mode == ParseMode::Lax {
        if let Some((l, e)) = address_spec_obs(s, 0) {
            if e == s.len() {
                return Some(l);
            }
        }
    }
    None
}


/// Round trip: putting an `@` between the local part and the domain that a
/// parse returns gives back the input, character for character.
pub proof fn lemma_round_trip(s: Seq<char>, mode: ParseMode)
    requires
        parsed(s, mode) is Some,
    ensures
        parsed(s, mode) matches Some((l, d)) ==> l + seq!['@'] + d == s,
{
    lemma_split_at_sign(s, mode);
    let l = address_split(s, mode)->0;
    let local = s.subrange(0, l);
    let domain = s.subrange(l + 1, s.len() as int);
    assert(parsed(s, mode) == Some((local, domain)));
    assert(local + seq!['@'] + domain =~= s);
}

/// The split of an address falls on an `@` of the input.
pub proof fn lemma_split_at_sign(s: Seq<char>, mode: ParseMode)
    ensures
        address_split(s, mode) matches Some(l) ==> 0 <= l < s.len() && s[l] == '@',
{
    reveal(address_strict_spec);
    reveal(address_obs_spec);
    if let Some((l, e)) = address_strict_spec(s, 0) {
        assert(0 <= l < s.len() && s[l] == '@');
    }
    if let Some((l, e)) = address_obs_spec(s, 0) {
        assert(0 <= l < s.len() && s[l] == '@');
    }
}

/// Strict success carries over: whatever the strict grammar accepts, the lax
/// mode accepts too, with the same local part and domain.
pub proof fn lemma_strict_implies_lax(s: Seq<char>)
    requires
        parsed(s, ParseMode::Strict) is Some,
    ensures
        parsed(s, ParseMode::Lax) == parsed(s, ParseMode::Strict),
{
}

/// Anchoring: an input is accepted exactly when the strict address rule, or
/// in lax mode the obsolete one, matches it from its first character through
/// its last. A match of a prefix alone is never accepted.
pub proof fn lemma_anchored(s: Seq<char>, mode: ParseMode)
    ensures
        parsed(s, mode) is Some <==> (rule_covers(Rule::address_single, s) || (mode
            == ParseMode::Lax && rule_covers(Rule::address_single_obs, s))),
{
}

/// A domain that starts with a dot or a dash never matches, in either
/// grammar: neither a run of separators nor a label with a leading dash is
/// a domain.
pub proof fn lemma_separator_starts_no_domain(s: Seq<char>, p: int)
    requires
        0 <= p < s.len(),
        s[p] == '.' || s[p] == '-',
    ensures
        domain_strict_spec(s, p) is None,
        domain_obs_spec(s, p) is None,
{
    assert(fws_spec(s, p) is None);
    assert(comment_run(s, p) == p);
}

/// The rules of the grammar that can be held against a whole input.
#[allow(non_camel_case_types)]
#[derive(Clone, Copy, PartialEq, Eq, Structural, Debug)]
pub enum Rule {
    /// `address-spec`.
    address_single,
    /// `address-spec-obs`.
    address_single_obs,
    /// The strict `local-part`.
    local_part_complete,
    /// The lax local part.
    local_part_obs,
    /// The strict `domain`.
    domain_complete,
    /// The lax domain.
    domain_obs,
    /// `domain-literal`.
    domain_literal,
}

/// The end of the match of an address rule.
pub open spec fn address_end(m: Option<(int, int)>) -> Option<int> {
    match m {
        Some((_, e)) => Some(e),
        None => None,
    }
}

/// Where `rule`, read from `p`, ends its match.
pub open spec fn rule_spec(rule: Rule, s: Seq<char>, p: int) -> Option<int> {
    match rule {
        Rule::address_single => address_end(address_strict_spec(s, p)),
        Rule::address_single_obs => address_end(address_obs_spec(s, p)),
        Rule::local_part_complete => local_part_strict_spec(s, p),
        Rule::local_part_obs => local_part_obs_spec(s, p),
        Rule::domain_complete => domain_strict_spec(s, p),
        Rule::domain_obs => domain_obs_spec(s, p),
        Rule::domain_literal => domain_literal_spec(s, p),
    }
}

/// `rule` matches the whole of `s`.
pub open spec fn rule_covers(rule: Rule, s: Seq<char>) -> bool {
    rule_spec(rule, s, 0) == Some(s.len() as int)
}

/// `s` is a local part on its own in `mode`.
pub open spec fn local_part_valid(s: Seq<char>, mode: ParseMode) -> bool {
    rule_covers(Rule::local_part_complete, s) || (mode == ParseMode::Lax && rule_covers(
        Rule::local_part_obs,
        s,
    ))
}

/// `s` is a domain on its own in `mode`.
pub open spec fn domain_valid(s: Seq<char>, mode: ParseMode) -> bool {
    rule_covers(Rule::domain_complete, s) || (mode == ParseMode::Lax && rule_covers(
        Rule::domain_obs,
        s,
    ))
}

fn rule_end(rule: Rule, s: &[char]) -> (r: Option<usize>)
    ensures
        opt_pos(r) == rule_spec(rule, s@, 0),
{
    match rule {
        Rule::address_single => match address_spec_strict(s, 0) {
            Some((_, e)) => Some(e),
            None => None,
        },
        Rule::address_single_obs => match address_spec_obs(s, 0) {
            Some((_, e)) => Some(e),
            None => None,
        },
        Rule::local_part_complete => local_part_strict(s, 0),
        Rule::local_part_obs => local_part_obs(s, 0),
        Rule::domain_complete => domain_strict(s, 0),
        Rule::domain_obs => domain_obs(s, 0),
        Rule::domain_literal => domain_literal(s, 0),
    }
}

/// Whether `rule` matches the whole of `input`.
pub fn matches_rule(rule: Rule, input: &str) -> (r: bool)
    ensures
        r == rule_covers(rule, input@),
{
    let s = chars_of(input);
    match rule_end(rule, s.as_slice()) {
        Some(e) => e == s.len(),
        None => false,
    }
}

/// Whether `input` is a local part on its own in `mode`.
pub fn is_local_part(input: &str, mode: ParseMode) -> (r: bool)
    ensures
        r == local_part_valid(input@, mode),
{
    matches_rule(Rule::local_part_complete, input) || (mode == ParseMode::Lax && matches_rule(
        Rule::local_part_obs,
        input,
    ))
}

/// Whether `input` is a domain on its own in `mode`.
pub fn is_domain(input: &str, mode: ParseMode) -> (r: bool)
    ensures
        r == domain_valid(input@, mode),
{
    matches_rule(Rule::domain_complete, input) || (mode == ParseMode::Lax && matches_rule(
        Rule::domain_obs,
        input,
    ))
}

/// The views of a pair of strings.
pub open spec fn pair_view(r: Option<(String, String)>) -> Option<(Seq<char>, Seq<char>)> {
    match r {
        Some((l, d)) => Some((l@, d@)),
        None => None,
    }
}

/// Splits `input` into its local part and its domain, if it is an address in
/// `mode`. Both parts are copied as they stand in `input`.
pub fn parse(input: &str, mode: ParseMode) -> (r: Option<(String, String)>)
    ensures
        pair_view(r) == parsed(input@, mode),
        r matches Some((l, d)) ==> l@ + seq!['@'] + d@ == input@,
{
    proof {
        if parsed(input@, mode) is Some {
            lemma_round_trip(input@, mode);
        }
    }
    let s = chars_of(input);
    match parse_address(s.as_slice(), mode) {
        Some(l) => {
            let local = input.substring_char(0, l).to_owned();
            let domain = input.substring_char(l + 1, s.len()).to_owned();
            Some((local, domain))
        },
        None => None,
    }
}

/// Whether `input` is an address in `mode`.
pub fn is_valid(input: &str, mode: ParseMode) -> (r: bool)
    ensures
        r == (address_split(input@, mode) is Some),
        r == (parsed(input@, mode) is Some),
{
    let s = chars_of(input);
    parse_address(s.as_slice(), mode).is_some()
}

} // verus!
