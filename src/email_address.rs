//! An email address held as its two parts.
use vstd::prelude::*;
use crate::address::{
    domain_valid, is_domain, is_local_part, lemma_round_trip, local_part_valid,
    parse as parse_parts, parsed, ParseMode,
};

verus! {

/// The mode that an optional strictness flag asks for: strict only when it
/// is `Some(true)`, lax otherwise.
pub open spec fn mode_of(is_strict: Option<bool>) -> ParseMode {
    if is_strict == Some(true) {
        ParseMode::Strict
    } else {
        ParseMode::Lax
    }
}

fn mode_from(is_strict: Option<bool>) -> (r: ParseMode)
    ensures
        r == mode_of(is_strict),
{
    match is_strict {
        Some(true) => ParseMode::Strict,
        _ => ParseMode::Lax,
    }
}

/// An email address: a local part and a domain, kept as they were written.
#[derive(Clone, Debug)]
pub struct EmailAddress {
    local_part: String,
    domain: String,
}

impl View for EmailAddress {
    type V = (Seq<char>, Seq<char>);

    closed spec fn view(&self) -> (Seq<char>, Seq<char>) {
        (self.local_part@, self.domain@)
    }
}

impl PartialEq for EmailAddress {
    fn eq(&self, other: &EmailAddress) -> (r: bool) {
        self.local_part == other.local_part && self.domain == other.domain
    }
}

impl vstd::std_specs::cmp::PartialEqSpecImpl for EmailAddress {
    open spec fn obeys_eq_spec() -> bool {
        true
    }

    open spec fn eq_spec(&self, other: &EmailAddress) -> bool {
        self@ == other@
    }
}

impl EmailAddress {
    /// An address from a local part and a domain given apart. Each is held
    /// on its own to the local-part or the domain rule of the mode that
    /// `is_strict` asks for (`None` is lax); `None` is returned when either
    /// fails.
    pub fn new(local_part: &str, domain: &str, is_strict: Option<bool>) -> (r: Option<
        EmailAddress,
    >)
        ensures
            r is Some <==> (local_part_valid(local_part@, mode_of(is_strict)) && domain_valid(
                domain@,
                mode_of(is_strict),
            )),
            r matches Some(a) ==> a@ == (local_part@, domain@),
    {
        let mode = mode_from(is_strict);
        if is_local_part(local_part, mode) && is_domain(domain, mode) {
            Some(EmailAddress { local_part: local_part.to_owned(), domain: domain.to_owned() })
        } else {
            None
        }
    }

    /// Parses `input` as a whole address in the mode that `is_strict` asks
    /// for (`None` is lax).
    pub fn parse(input: &str, is_strict: Option<bool>) -> (r: Option<EmailAddress>)
        ensures
            r is Some <==> parsed(input@, mode_of(is_strict)) is Some,
            r matches Some(a) ==> parsed(input@, mode_of(is_strict)) == Some(a@),
            r matches Some(a) ==> a@.0 + seq!['@'] + a@.1 == input@,
    {
        proof {
            if parsed(input@, mode_of(is_strict)) is Some {
                lemma_round_trip(input@, mode_of(is_strict));
            }
        }
        match parse_parts(input, mode_from(is_strict)) {
            Some((local_part, domain)) => Some(EmailAddress { local_part, domain }),
            None => None,
        }
    }

    /// A copy of the local part.
    pub fn local_part(&self) -> (r: String)
        ensures
            r@ == self@.0,
    {
        self.local_part.clone()
    }

    /// A copy of the domain.
    pub fn domain(&self) -> (r: String)
        ensures
            r@ == self@.1,
    {
        self.domain.clone()
    }

    /// The local part.
    pub fn get_local_part(&self) -> (r: &str)
        ensures
            r@ == self@.0,
    {
        self.local_part.as_str()
    }

    /// The domain.
    pub fn get_domain(&self) -> (r: &str)
        ensures
            r@ == self@.1,
    {
        self.domain.as_str()
    }

    /// The address as text: the local part, `@`, then the domain.
    pub fn to_string(&self) -> (r: String)
        ensures
            r@ == self@.0 + seq!['@'] + self@.1,
    {
        let mut r = self.local_part.clone();
        let at = "@";
        proof {
            reveal_strlit("@");
        }
        r.append(at);
        r.append(self.domain.as_str());
        r
    }
}

} // verus!
