//! Lexical primitives: runs of one character class, folding white space,
//! comments and CFWS.
//!
//! Every rule reads the input `s` from position `p` and either fails (`None`)
//! or names the position where its match ends. A rule never moves backwards
//! and never past the end of the input; where a spec function recurses on a
//! position that another rule returned, it checks that the position moved
//! forward inside the input, which the executable functions always show.
use vstd::prelude::*;
use crate::classes::{
    atext_char, atext_no_dash_char, ctext_char, is_atext, is_atext_no_dash, is_ctext_char,
    is_quoted_pair_char, is_wsp, quoted_pair_char, wsp_char,
};

verus! {

/// The character sets that the grammar scans runs of.
#[derive(Clone, Copy, PartialEq, Eq, Structural, Debug)]
pub enum CharClass {
    Wsp,
    Atext,
    AtextNoDash,
    Only(char),
}

pub open spec fn in_class(k: CharClass, c: char) -> bool {
    match k {
        CharClass::Wsp => wsp_char(c),
        CharClass::Atext => atext_char(c),
        CharClass::AtextNoDash => atext_no_dash_char(c),
        CharClass::Only(x) => c == x,
    }
}

/// The end of the longest run of characters of class `k` from `p` on.
pub open spec fn span(s: Seq<char>, p: int, k: CharClass) -> int
    decreases s.len() - p,
{
    if 0 <= p < s.len() && in_class(k, s[p]) {
        span(s, p + 1, k)
    } else {
        p
    }
}

/// A position as the grammar's spec functions see it.
pub open spec fn opt_pos(r: Option<usize>) -> Option<int> {
    match r {
        Some(q) => Some(q as int),
        None => None,
    }
}

/// `r` is a match that ends inside `s`, no earlier than `p`.
pub open spec fn within(r: Option<usize>, p: usize, len: nat) -> bool {
    r matches Some(q) ==> p <= q <= len
}

/// A carriage return and line feed start at `p`.
pub open spec fn crlf_at(s: Seq<char>, p: int) -> bool {
    0 <= p && p + 1 < s.len() && s[p] == '\r' && s[p + 1] == '\n'
}

/// An optional single `WSP`.
pub open spec fn opt_wsp_spec(s: Seq<char>, p: int) -> int {
    if 0 <= p < s.len() && wsp_char(s[p]) {
        p + 1
    } else {
        p
    }
}

/// The further `CRLF WSP+` folds of a folding white space.
pub open spec fn fws_folds(s: Seq<char>, p: int) -> int
    decreases s.len() - p,
{
    let q = span(s, p + 2, CharClass::Wsp);
    if crlf_at(s, p) && p + 2 < q <= s.len() {
        fws_folds(s, q)
    } else {
        p
    }
}

/// `FWS`: either `WSP*` then `CRLF WSP+`, or `WSP+` alone, then any number
/// of further `CRLF WSP+` folds. A `CRLF` that no `WSP` follows is not part
/// of the match: after at least one `WSP` the match ends before it.
pub open spec fn fws_spec(s: Seq<char>, p: int) -> Option<int> {
    let q = span(s, p, CharClass::Wsp);
    let r = span(s, q + 2, CharClass::Wsp);
    if crlf_at(s, q) && r != q + 2 {
        Some(fws_folds(s, r))
    } else if q == p {
        None
    } else {
        Some(fws_folds(s, q))
    }
}

/// An optional `FWS`.
pub open spec fn opt_fws(s: Seq<char>, p: int) -> int {
    match fws_spec(s, p) {
        Some(q) => q,
        None => p,
    }
}

/// `FWS*`: folding white space repeated while it moves forward.
pub open spec fn fws_star(s: Seq<char>, p: int) -> int
    decreases s.len() - p,
{
    match fws_spec(s, p) {
        Some(q) => if p < q <= s.len() {
            fws_star(s, q)
        } else {
            p
        },
        None => p,
    }
}

/// `quoted-pair`: a backslash and one `quoted_pair_char`.
pub open spec fn quoted_pair_spec(s: Seq<char>, p: int) -> Option<int> {
    if 0 <= p && p + 1 < s.len() && s[p] == '\\' && quoted_pair_char(s[p + 1]) {
        Some(p + 2)
    } else {
        None
    }
}

/// `comment = "(" (FWS? ccontent)* FWS? ")"`.
pub open spec fn comment_spec(s: Seq<char>, p: int) -> Option<int>
    decreases s.len() - p, 0int,
{
    if 0 <= p < s.len() && s[p] == '(' {
        let q = comment_items(s, p + 1);
        let r = opt_fws(s, q);
        if 0 <= r < s.len() && s[r] == ')' {
            Some(r + 1)
        } else {
            None
        }
    } else {
        None
    }
}

/// `(FWS? ccontent)*` inside a comment, from `p` on.
pub open spec fn comment_items(s: Seq<char>, p: int) -> int
    decreases s.len() - p, 2int,
{
    let c = opt_fws(s, p);
    if 0 <= p <= c <= s.len() {
        match ccontent_spec(s, c) {
            Some(n) => if c < n <= s.len() {
                comment_items(s, n)
            } else {
                p
            },
            None => p,
        }
    } else {
        p
    }
}

/// `ccontent = ctext | quoted-pair | comment`.
pub open spec fn ccontent_spec(s: Seq<char>, p: int) -> Option<int>
    decreases s.len() - p, 1int,
{
    if 0 <= p < s.len() && ctext_char(s[p]) {
        Some(p + 1)
    } else {
        match quoted_pair_spec(s, p) {
            Some(q) => Some(q),
            None => comment_spec(s, p),
        }
    }
}

/// `(FWS? comment)*`, from `p` on.
pub open spec fn comment_run(s: Seq<char>, p: int) -> int
    decreases s.len() - p,
{
    let c = opt_fws(s, p);
    if 0 <= p <= c <= s.len() {
        match comment_spec(s, c) {
            Some(n) => if c < n <= s.len() {
                comment_run(s, n)
            } else {
                p
            },
            None => p,
        }
    } else {
        p
    }
}

/// `CFWS = ((FWS? comment)+ FWS?) | FWS`.
pub open spec fn cfws_spec(s: Seq<char>, p: int) -> Option<int> {
    let q = comment_run(s, p);
    if q != p {
        Some(opt_fws(s, q))
    } else {
        fws_spec(s, p)
    }
}

/// An optional `CFWS`.
pub open spec fn opt_cfws(s: Seq<char>, p: int) -> int {
    match cfws_spec(s, p) {
        Some(q) => q,
        None => p,
    }
}

/// A character that can start a `CFWS`.
pub open spec fn cfws_start(c: char) -> bool {
    c == ' ' || c == '\t' || c == '\r' || c == '('
}

/// `CFWS*`: repeated while it moves forward.
pub open spec fn cfws_star(s: Seq<char>, p: int) -> int
    decreases s.len() - p,
{
    if 0 <= p < s.len() && cfws_start(s[p]) {
        match cfws_spec(s, p) {
            Some(q) => if p < q <= s.len() {
                cfws_star(s, q)
            } else {
                p
            },
            None => p,
        }
    } else {
        p
    }
}

fn class_contains(k: CharClass, ch: char) -> (r: bool)
    ensures
        r == in_class(k, ch),
{
    match k {
        CharClass::Wsp => is_wsp(ch),
        CharClass::Atext => is_atext(ch),
        CharClass::AtextNoDash => is_atext_no_dash(ch),
        CharClass::Only(x) => ch == x,
    }
}

/// The end of the run of class `k` that starts at `p`.
pub fn span_end(s: &[char], p: usize, k: CharClass) -> (r: usize)
    requires
        p <= s.len(),
    ensures
        r == span(s@, p as int, k),
        p <= r <= s.len(),
{
    let mut i: usize = p;
    while i < s.len() && class_contains(k, s[i])
        invariant
            p <= i <= s.len(),
            span(s@, i as int, k) == span(s@, p as int, k),
        decreases s.len() - i,
    {
        i = i + 1;
    }
    i
}

/// The character at `p` and the position after it, if there is one.
pub fn next_char(s: &[char], p: usize) -> (r: Option<(char, usize)>)
    requires
        p <= s.len(),
    ensures
        r == (if p < s.len() {
            Some((s@[p as int], (p + 1) as usize))
        } else {
            None
        }),
{
    if p < s.len() {
        Some((s[p], p + 1))
    } else {
        None
    }
}

/// The position after a `CRLF` at `p`, if one stands there.
pub fn consume_crlf(s: &[char], p: usize) -> (r: Option<usize>)
    requires
        p <= s.len(),
    ensures
        r == (if crlf_at(s@, p as int) {
            Some((p + 2) as usize)
        } else {
            None
        }),
{
    if p < s.len() && p + 1 < s.len() && s[p] == '\r' && s[p + 1] == '\n' {
        Some(p + 2)
    } else {
        None
    }
}

/// `WSP*`: where the run ends and how many characters it holds.
pub fn wsp0(s: &[char], p: usize) -> (r: (usize, usize))
    requires
        p <= s.len(),
    ensures
        r.0 == span(s@, p as int, CharClass::Wsp),
        r.1 == r.0 - p,
        p <= r.0 <= s.len(),
{
    let e = span_end(s, p, CharClass::Wsp);
    (e, e - p)
}

/// A run of `needle`: where it ends and how many characters it holds.
pub fn take_repeated_char(s: &[char], p: usize, needle: char) -> (r: (usize, usize))
    requires
        p <= s.len(),
    ensures
        r.0 == span(s@, p as int, CharClass::Only(needle)),
        r.1 == r.0 - p,
        p <= r.0 <= s.len(),
{
    let e = span_end(s, p, CharClass::Only(needle));
    (e, e - p)
}

/// An optional single `WSP`.
pub fn opt_wsp(s: &[char], p: usize) -> (r: usize)
    requires
        p <= s.len(),
    ensures
        r == opt_wsp_spec(s@, p as int),
        p <= r <= s.len(),
{
    match next_char(s, p) {
        Some((ch, rest)) => if is_wsp(ch) {
            rest
        } else {
            p
        },
        None => p,
    }
}

/// Folding white space at `p`.
pub fn fws(s: &[char], p: usize) -> (r: Option<usize>)
    requires
        p <= s.len(),
    ensures
        opt_pos(r) == fws_spec(s@, p as int),
        within(r, p, s@.len()),
{
    let (mut q, leading) = wsp0(s, p);
    let mut folded = false;
    if let Some(after_crlf) = consume_crlf(s, q) {
        let (after_wsp, count) = wsp0(s, after_crlf);
        if count > 0 {
            q = after_wsp;
            folded = true;
        }
    }
    if !folded && leading == 0 {
        return None;
    }
    let ghost start = q as int;
    loop
        invariant
            start <= q <= s.len(),
            p <= start,
            fws_folds(s@, q as int) == fws_folds(s@, start),
        ensures
            fws_folds(s@, q as int) == q,
        decreases s.len() - q,
    {
        match consume_crlf(s, q) {
            Some(after_crlf) => {
                let (after_wsp, count) = wsp0(s, after_crlf);
                if count == 0 {
                    break;
                }
                q = after_wsp;
            },
            None => break,
        }
    }
    Some(q)
}

/// An optional `FWS`: where it ends, or `p` if there is none.
pub fn opt_fws_end(s: &[char], p: usize) -> (r: usize)
    requires
        p <= s.len(),
    ensures
        r == opt_fws(s@, p as int),
        p <= r <= s.len(),
{
    match fws(s, p) {
        Some(q) => q,
        None => p,
    }
}

/// `FWS*`.
pub fn skip_fws0(s: &[char], p: usize) -> (r: usize)
    requires
        p <= s.len(),
    ensures
        r == fws_star(s@, p as int),
        p <= r <= s.len(),
{
    let mut i: usize = p;
    loop
        invariant
            p <= i <= s.len(),
            fws_star(s@, i as int) == fws_star(s@, p as int),
        ensures
            fws_star(s@, i as int) == i,
        decreases s.len() - i,
    {
        match fws(s, i) {
            Some(q) => {
                if q > i {
                    i = q;
                } else {
                    break;
                }
            },
            None => break,
        }
    }
    i
}

/// A quoted pair at `p`.
pub fn quoted_pair(s: &[char], p: usize) -> (r: Option<usize>)
    requires
        p <= s.len(),
    ensures
        opt_pos(r) == quoted_pair_spec(s@, p as int),
        within(r, p, s@.len()),
{
    if p < s.len() && p + 1 < s.len() && s[p] == '\\' && is_quoted_pair_char(s[p + 1]) {
        Some(p + 2)
    } else {
        None
    }
}

/// A comment at `p`, nested comments included.
pub fn comment(s: &[char], p: usize) -> (r: Option<usize>)
    requires
        p <= s.len(),
    ensures
        opt_pos(r) == comment_spec(s@, p as int),
        within(r, p, s@.len()),
    decreases s.len() - p, 0int,
{
    if !(p < s.len() && s[p] == '(') {
        return None;
    }
    let mut i: usize = p + 1;
    loop
        invariant
            p < i <= s.len(),
            comment_items(s@, i as int) == comment_items(s@, p + 1),
        ensures
            comment_items(s@, i as int) == i,
        decreases s.len() - i,
    {
        let c = opt_fws_end(s, i);
        match ccontent(s, c) {
            Some(n) => {
                if n > c {
                    i = n;
                } else {
                    break;
                }
            },
            None => break,
        }
    }
    let r = opt_fws_end(s, i);
    if r < s.len() && s[r] == ')' {
        Some(r + 1)
    } else {
        None
    }
}

/// `ccontent` at `p`.
pub fn ccontent(s: &[char], p: usize) -> (r: Option<usize>)
    requires
        p <= s.len(),
    ensures
        opt_pos(r) == ccontent_spec(s@, p as int),
        within(r, p, s@.len()),
    decreases s.len() - p, 1int,
{
    if p < s.len() && is_ctext_char(s[p]) {
        return Some(p + 1);
    }
    match quoted_pair(s, p) {
        Some(q) => Some(q),
        None => comment(s, p),
    }
}

/// The `(FWS? comment)+ FWS?` branch of `CFWS` at `p`.
pub fn cfws_with_comment(s: &[char], p: usize) -> (r: Option<usize>)
    requires
        p <= s.len(),
    ensures
        opt_pos(r) == (if comment_run(s@, p as int) != p {
            Some(opt_fws(s@, comment_run(s@, p as int)))
        } else {
            None
        }),
        within(r, p, s@.len()),
{
    let mut i: usize = p;
    loop
        invariant
            p <= i <= s.len(),
            comment_run(s@, i as int) == comment_run(s@, p as int),
        ensures
            comment_run(s@, i as int) == i,
        decreases s.len() - i,
    {
        let c = opt_fws_end(s, i);
        match comment(s, c) {
            Some(n) => {
                if n > c {
                    i = n;
                } else {
                    break;
                }
            },
            None => break,
        }
    }
    if i != p {
        Some(opt_fws_end(s, i))
    } else {
        None
    }
}

/// `CFWS` at `p`.
pub fn cfws(s: &[char], p: usize) -> (r: Option<usize>)
    requires
        p <= s.len(),
    ensures
        opt_pos(r) == cfws_spec(s@, p as int),
        within(r, p, s@.len()),
{
    match cfws_with_comment(s, p) {
        Some(q) => Some(q),
        None => fws(s, p),
    }
}

/// An optional `CFWS`: where it ends, or `p` if there is none.
pub fn opt_cfws_end(s: &[char], p: usize) -> (r: usize)
    requires
        p <= s.len(),
    ensures
        r == opt_cfws(s@, p as int),
        p <= r <= s.len(),
{
    match cfws(s, p) {
        Some(q) => q,
        None => p,
    }
}

/// `CFWS*`, tried only where a `CFWS` can start.
pub fn skip_cfws0(s: &[char], p: usize) -> (r: usize)
    requires
        p <= s.len(),
    ensures
        r == cfws_star(s@, p as int),
        p <= r <= s.len(),
{
    let mut i: usize = p;
    loop
        invariant
            p <= i <= s.len(),
            cfws_star(s@, i as int) == cfws_star(s@, p as int),
        ensures
            cfws_star(s@, i as int) == i,
        decreases s.len() - i,
    {
        if !(i < s.len() && (s[i] == ' ' || s[i] == '\t' || s[i] == '\r' || s[i] == '(')) {
            break;
        }
        match cfws(s, i) {
            Some(q) => {
                if q > i {
                    i = q;
                } else {
                    break;
                }
            },
            None => break,
        }
    }
    i
}

} // verus!
