//! Redaction engine: five fixed detection passes over text, applied in a set
//! order on every scalar string. Each pass scans left to right, replaces every
//! leftmost match with a fixed marker, and continues after the replaced span.
//!
//! The passes, in order: key/value secret labels, email addresses, publicly
//! routable IPv4 quads, PEM private-key blocks, and credit-card shaped digit
//! groups. Later passes never re-match text already replaced by an earlier
//! marker.

use vstd::prelude::*;

verus! {

// ---------------------------------------------------------------------------
// Character classes
// ---------------------------------------------------------------------------

/// Decimal digit.
pub open spec fn is_digit(c: char) -> bool {
    48 <= (c as u32) && (c as u32) <= 57
}

/// ASCII letter.
pub open spec fn is_alpha(c: char) -> bool {
    (65 <= (c as u32) && (c as u32) <= 90) || (97 <= (c as u32) && (c as u32) <= 122)
}

/// Word character: letter, digit or underscore (the boundary class).
pub open spec fn is_word(c: char) -> bool {
    is_alpha(c) || is_digit(c) || c == '_'
}

/// Whitespace: space, tab, line feed, carriage return, vertical tab, form feed.
pub open spec fn is_space(c: char) -> bool {
    c == ' ' || c == '\t' || c == '\n' || c == '\r' || (c as u32) == 11 || (c as u32) == 12
}

/// Character allowed in a secret value token.
pub open spec fn is_value_char(c: char) -> bool {
    is_alpha(c) || is_digit(c) || c == '_' || c == '-' || c == '.' || c == '/' || c == '+'
}

/// Character allowed in the local part of an email address.
pub open spec fn is_local_char(c: char) -> bool {
    is_alpha(c) || is_digit(c) || c == '.' || c == '_' || c == '%' || c == '+' || c == '-'
}

/// Character allowed in the domain part of an email address.
pub open spec fn is_domain_char(c: char) -> bool {
    is_alpha(c) || is_digit(c) || c == '.' || c == '-'
}

/// Upper-case letter or space (the tag run inside a PEM header).
pub open spec fn is_upper_space(c: char) -> bool {
    (65 <= (c as u32) && (c as u32) <= 90) || c == ' '
}

/// Group separator inside a credit-card shaped number.
pub open spec fn is_cc_sep(c: char) -> bool {
    is_space(c) || c == '-'
}

/// ASCII lower-casing, for the case-insensitive label comparison.
pub open spec fn lower(c: char) -> char {
    if 65 <= (c as u32) && (c as u32) <= 90 {
        ((c as u32) + 32) as char
    } else {
        c
    }
}

/// Character class selector, so that one scanner serves every run computation.
#[derive(Clone, Copy, PartialEq, Eq, Structural)]
pub enum CharClass {
    Digit,
    Alpha,
    Word,
    Space,
    ValueChar,
    LocalChar,
    DomainChar,
    UpperSpace,
}

pub open spec fn class_holds(cls: CharClass, c: char) -> bool {
    match cls {
        CharClass::Digit => is_digit(c),
        CharClass::Alpha => is_alpha(c),
        CharClass::Word => is_word(c),
        CharClass::Space => is_space(c),
        CharClass::ValueChar => is_value_char(c),
        CharClass::LocalChar => is_local_char(c),
        CharClass::DomainChar => is_domain_char(c),
        CharClass::UpperSpace => is_upper_space(c),
    }
}

/// Length of the maximal run of `cls` characters starting at `i`.
pub open spec fn run_len(s: Seq<char>, i: int, cls: CharClass) -> int
    decreases s.len() - i,
{
    if 0 <= i && i < s.len() && class_holds(cls, s[i]) {
        1 + run_len(s, i + 1, cls)
    } else {
        0
    }
}

pub proof fn lemma_run_len_bounds(s: Seq<char>, i: int, cls: CharClass)
    requires
        0 <= i <= s.len(),
    ensures
        0 <= run_len(s, i, cls) <= s.len() - i,
    decreases s.len() - i,
{
    if i < s.len() && class_holds(cls, s[i]) {
        lemma_run_len_bounds(s, i + 1, cls);
    }
}

/// Numeric value of the `l` digits starting at `i`.
pub open spec fn digits_val(s: Seq<char>, i: int, l: int) -> int
    decreases l,
{
    if l <= 0 {
        0
    } else {
        digits_val(s, i, l - 1) * 10 + ((s[i + l - 1] as u32) - 48)
    }
}

// ---------------------------------------------------------------------------
// Executable class helpers
// ---------------------------------------------------------------------------

pub fn char_in_class(cls: CharClass, c: char) -> (r: bool)
    ensures
        r == class_holds(cls, c),
{
    let v = c as u32;
    match cls {
        CharClass::Digit => 48 <= v && v <= 57,
        CharClass::Alpha => (65 <= v && v <= 90) || (97 <= v && v <= 122),
        CharClass::Word => (65 <= v && v <= 90) || (97 <= v && v <= 122) || (48 <= v && v <= 57)
            || c == '_',
        CharClass::Space => c == ' ' || c == '\t' || c == '\n' || c == '\r' || v == 11 || v == 12,
        CharClass::ValueChar => (65 <= v && v <= 90) || (97 <= v && v <= 122) || (48 <= v && v
            <= 57) || c == '_' || c == '-' || c == '.' || c == '/' || c == '+',
        CharClass::LocalChar => (65 <= v && v <= 90) || (97 <= v && v <= 122) || (48 <= v && v
            <= 57) || c == '.' || c == '_' || c == '%' || c == '+' || c == '-',
        CharClass::DomainChar => (65 <= v && v <= 90) || (97 <= v && v <= 122) || (48 <= v && v
            <= 57) || c == '.' || c == '-',
        CharClass::UpperSpace => (65 <= v && v <= 90) || c == ' ',
    }
}

/// Maximal run of `cls` characters in `s` starting at `i`.
pub fn run_len_exec(s: &str, i: usize, cls: CharClass) -> (r: usize)
    requires
        i <= s@.len(),
    ensures
        r == run_len(s@, i as int, cls),
        i + r <= s@.len(),
{
    let n = s.unicode_len();
    let mut j: usize = i;
    while j < n && char_in_class(cls, s.get_char(j))
        invariant
            i <= j <= n,
            n == s@.len(),
            run_len(s@, i as int, cls) == (j - i) + run_len(s@, j as int, cls),
            forall|k: int| i <= k < j ==> class_holds(cls, s@[k]),
        decreases n - j,
    {
        proof {
            lemma_run_len_bounds(s@, j as int, cls);
        }
        j = j + 1;
    }
    proof {
        lemma_run_len_bounds(s@, j as int, cls);
    }
    j - i
}

// ---------------------------------------------------------------------------
// Public-address test for IPv4 quads
// ---------------------------------------------------------------------------

/// Ranges that are not publicly routable: loopback, RFC1918 private blocks,
/// link-local and carrier-grade NAT. Octet values are taken as plain numbers.
pub open spec fn octets_public(n1: int, n2: int, n3: int, n4: int) -> bool {
    &&& n1 <= 255
    &&& n2 <= 255
    &&& n3 <= 255
    &&& n4 <= 255
    &&& n1 != 127
    &&& n1 != 10
    &&& !(n1 == 192 && n2 == 168)
    &&& !(n1 == 172 && 16 <= n2 <= 31)
    &&& !(n1 == 169 && n2 == 254)
    &&& !(n1 == 100 && 64 <= n2 <= 127)
}

/// The whole string is a well-formed dotted quad (four non-empty all-digit
/// segments whose numeric values fit an octet) that is publicly routable.
pub open spec fn ipv4_public_str(s: Seq<char>) -> bool {
    let r1 = run_len(s, 0, CharClass::Digit);
    let p2 = r1 + 1;
    let r2 = run_len(s, p2, CharClass::Digit);
    let p3 = p2 + r2 + 1;
    let r3 = run_len(s, p3, CharClass::Digit);
    let p4 = p3 + r3 + 1;
    let r4 = run_len(s, p4, CharClass::Digit);
    &&& r1 >= 1
    &&& r1 < s.len() && s[r1] == '.'
    &&& r2 >= 1
    &&& p2 + r2 < s.len() && s[p2 + r2] == '.'
    &&& r3 >= 1
    &&& p3 + r3 < s.len() && s[p3 + r3] == '.'
    &&& r4 >= 1
    &&& p4 + r4 == s.len()
    &&& octets_public(
        digits_val(s, 0, r1),
        digits_val(s, p2, r2),
        digits_val(s, p3, r3),
        digits_val(s, p4, r4),
    )
}

/// A digit prefix of value above 255 can never shrink when more digits follow.
proof fn lemma_digits_val_monotone(s: Seq<char>, i: int, l1: int, l2: int)
    requires
        0 <= l1 <= l2,
        forall|k: int| i <= k < i + l2 ==> is_digit(s[k]),
    ensures
        digits_val(s, i, l1) <= digits_val(s, i, l2),
    decreases l2 - l1,
{
    if l1 < l2 {
        lemma_digits_val_monotone(s, i, l1, l2 - 1);
        assert(is_digit(s[i + l2 - 1]));
        assert(digits_val(s, i, l2) == digits_val(s, i, l2 - 1) * 10 + ((s[i + l2 - 1] as u32)
            - 48));
        assert(digits_val(s, i, l2 - 1) * 10 >= digits_val(s, i, l2 - 1)) by {
            lemma_digits_val_nonneg(s, i, l2 - 1);
        }
    }
}

proof fn lemma_digits_val_nonneg(s: Seq<char>, i: int, l: int)
    ensures
        digits_val(s, i, l) >= 0 || exists|k: int| i <= k < i + l && !is_digit(s[k]),
    decreases l,
{
    if l > 0 {
        lemma_digits_val_nonneg(s, i, l - 1);
    }
}

/// Value of the digit run at `i`, capped: returns `None` when the value
/// exceeds 255.
fn octet_val(s: &str, i: usize, l: usize) -> (r: Option<u32>)
    requires
        i + l <= s@.len(),
        forall|k: int| i <= k < i + l ==> is_digit(s@[k]),
    ensures
        (match r {
            Some(v) => v == digits_val(s@, i as int, l as int) && v <= 255,
            None => digits_val(s@, i as int, l as int) > 255,
        }),
{
    let n = s.unicode_len();
    let mut v: u32 = 0;
    let mut j: usize = 0;
    while j < l
        invariant
            j <= l,
            n == s@.len(),
            i + l <= n,
            forall|k: int| i <= k < i + l ==> is_digit(s@[k]),
            v == digits_val(s@, i as int, j as int),
            v <= 255,
        decreases l - j,
    {
        let c = s.get_char(i + j);
        let d = (c as u32) - 48;
        if v * 10 + d > 255 {
            proof {
                assert(digits_val(s@, i as int, (j + 1) as int) > 255);
                lemma_digits_val_monotone(s@, i as int, (j + 1) as int, l as int);
            }
            return None;
        }
        v = v * 10 + d;
        j = j + 1;
    }
    Some(v)
}

/// True when `ip` is a well-formed dotted quad and the address is publicly
/// routable: loopback, the RFC1918 private ranges, link-local and
/// carrier-grade NAT all answer false, as does anything malformed.
pub fn is_public_ipv4(ip: &str) -> (r: bool)
    ensures
        r == ipv4_public_str(ip@),
{
    let n = ip.unicode_len();
    let r1 = run_len_exec(ip, 0, CharClass::Digit);
    if r1 < 1 || r1 >= n || ip.get_char(r1) != '.' {
        return false;
    }
    let p2 = r1 + 1;
    let r2 = run_len_exec(ip, p2, CharClass::Digit);
    if r2 < 1 || p2 + r2 >= n || ip.get_char(p2 + r2) != '.' {
        return false;
    }
    let p3 = p2 + r2 + 1;
    let r3 = run_len_exec(ip, p3, CharClass::Digit);
    if r3 < 1 || p3 + r3 >= n || ip.get_char(p3 + r3) != '.' {
        return false;
    }
    let p4 = p3 + r3 + 1;
    let r4 = run_len_exec(ip, p4, CharClass::Digit);
    if r4 < 1 || p4 + r4 != n {
        return false;
    }
    proof {
        lemma_run_chars(ip@, 0, CharClass::Digit);
        lemma_run_chars(ip@, p2 as int, CharClass::Digit);
        lemma_run_chars(ip@, p3 as int, CharClass::Digit);
        lemma_run_chars(ip@, p4 as int, CharClass::Digit);
    }
    let v1 = match octet_val(ip, 0, r1) {
        Some(v) => v,
        None => { return false; },
    };
    let v2 = match octet_val(ip, p2, r2) {
        Some(v) => v,
        None => { return false; },
    };
    let v3 = match octet_val(ip, p3, r3) {
        Some(v) => v,
        None => { return false; },
    };
    let v4 = match octet_val(ip, p4, r4) {
        Some(v) => v,
        None => { return false; },
    };
    !(v1 == 127 || v1 == 10 || (v1 == 192 && v2 == 168) || (v1 == 172 && 16 <= v2 && v2 <= 31) || (
    v1 == 169 && v2 == 254) || (v1 == 100 && 64 <= v2 && v2 <= 127))
}

/// Every character inside a run satisfies its class.
pub proof fn lemma_run_chars(s: Seq<char>, i: int, cls: CharClass)
    requires
        0 <= i <= s.len(),
    ensures
        forall|k: int| i <= k < i + run_len(s, i, cls) ==> class_holds(cls, s[k]),
    decreases s.len() - i,
{
    if i < s.len() && class_holds(cls, s[i]) {
        lemma_run_chars(s, i + 1, cls);
        lemma_run_len_bounds(s, i + 1, cls);
    }
}

} // verus!

// ---------------------------------------------------------------------------
// Token matching
// ---------------------------------------------------------------------------

verus! {

/// `a` equals the lower-case pattern character `b`, ignoring ASCII case.
pub open spec fn eq_ci(a: char, b: char) -> bool {
    a == b || (97 <= (b as u32) && (b as u32) <= 122 && (a as u32) + 32 == (b as u32))
}

/// The characters of `t` appear verbatim at position `i` of `s`.
pub open spec fn tok_at(s: Seq<char>, i: int, t: Seq<char>) -> bool {
    0 <= i && i + t.len() <= s.len() && (forall|k: int| 0 <= k < t.len() ==> s[i + k] == t[k])
}

/// The characters of the lower-case pattern `t` appear at position `i` of
/// `s`, compared case-insensitively.
pub open spec fn tok_at_ci(s: Seq<char>, i: int, t: Seq<char>) -> bool {
    0 <= i && i + t.len() <= s.len() && (forall|k: int| 0 <= k < t.len() ==> eq_ci(s[i + k], t[k]))
}

/// Length of the secret label found at `i`, or 0 when none is present.
/// The labels mirror the detection rule: an api-key spelling, token, secret,
/// password, bearer or authorization, matched without regard to case.
pub open spec fn label_at(s: Seq<char>, i: int) -> int {
    if tok_at_ci(s, i, "api_key"@) {
        7
    } else if tok_at_ci(s, i, "api-key"@) {
        7
    } else if tok_at_ci(s, i, "apikey"@) {
        6
    } else if tok_at_ci(s, i, "authorization"@) {
        13
    } else if tok_at_ci(s, i, "password"@) {
        8
    } else if tok_at_ci(s, i, "bearer"@) {
        6
    } else if tok_at_ci(s, i, "secret"@) {
        6
    } else if tok_at_ci(s, i, "token"@) {
        5
    } else {
        0
    }
}

// ---------------------------------------------------------------------------
// Pattern 1: labelled secret values
// ---------------------------------------------------------------------------

/// A labelled secret: label, optional spaces, `:` or `=`, optional spaces, an
/// optionally quoted run of at least 16 value characters. The replacement
/// keeps the label and substitutes the marker for the value.
pub open spec fn key_hit(s: Seq<char>, i: int) -> Option<(int, Seq<char>)> {
    let ll = label_at(s, i);
    if ll == 0 {
        None
    } else {
        let a = i + ll;
        let sp1 = run_len(s, a, CharClass::Space);
        let b = a + sp1;
        if !(b < s.len() && (s[b] == ':' || s[b] == '=')) {
            None
        } else {
            let c0 = b + 1;
            let sp2 = run_len(s, c0, CharClass::Space);
            let d0 = c0 + sp2;
            let q: int = if d0 < s.len() && (s[d0] == '\'' || s[d0] == '"') {
                1
            } else {
                0
            };
            let v0 = d0 + q;
            let vl = run_len(s, v0, CharClass::ValueChar);
            if vl < 16 {
                None
            } else {
                let e0 = v0 + vl;
                let cq: int = if e0 < s.len() && (s[e0] == '\'' || s[e0] == '"') {
                    1
                } else {
                    0
                };
                Some((e0 + cq - i, s.subrange(i, i + ll) + ": [REDACTED_KEY]"@))
            }
        }
    }
}

// ---------------------------------------------------------------------------
// Pattern 2: email addresses
// ---------------------------------------------------------------------------

/// Length of the maximal run of ASCII letters ending just before `p`.
pub open spec fn back_alpha(s: Seq<char>, p: int) -> int
    decreases p,
{
    if 0 < p <= s.len() && is_alpha(s[p - 1]) {
        1 + back_alpha(s, p - 1)
    } else {
        0
    }
}

/// `p` closes an address whose domain started at `k`: at least two letters
/// before `p`, preceded by a dot inside the domain, with a word boundary at
/// `p` (`e` is the end of the maximal domain-character run).
pub open spec fn email_end_ok(s: Seq<char>, k: int, e: int, p: int) -> bool {
    let a = back_alpha(s, p);
    &&& a >= 2
    &&& p - a - 1 >= k
    &&& s[p - a - 1] == '.'
    &&& (if p == e {
        e == s.len() || !is_word(s[e])
    } else {
        s[p] == '.' || s[p] == '-'
    })
}

/// The largest closing position at or below `p`, or -1 when none exists.
pub open spec fn email_end(s: Seq<char>, k: int, e: int, p: int) -> int
    decreases p - k,
{
    if p < k + 3 {
        -1
    } else if email_end_ok(s, k, e, p) {
        p
    } else {
        email_end(s, k, e, p - 1)
    }
}

/// An email-shaped token: a maximal run of local-part characters, `@`, and a
/// domain that ends in a dot followed by at least two letters.
pub open spec fn email_hit(s: Seq<char>, i: int) -> Option<(int, Seq<char>)> {
    if !(0 <= i && i < s.len() && is_local_char(s[i]) && (i == 0 || !is_local_char(s[i - 1]))) {
        None
    } else {
        let ll = run_len(s, i, CharClass::LocalChar);
        let at = i + ll;
        if !(at < s.len() && s[at] == '@') {
            None
        } else {
            let k = at + 1;
            let dl = run_len(s, k, CharClass::DomainChar);
            let e = k + dl;
            let p = email_end(s, k, e, e);
            if p < 0 {
                None
            } else {
                Some((p - i, "[EMAIL_REDACTED]"@))
            }
        }
    }
}

// ---------------------------------------------------------------------------
// Pattern 3: IPv4 quads
// ---------------------------------------------------------------------------

/// A dotted quad of one-to-three digit groups between word boundaries.
/// Publicly routable quads are replaced by the marker; loopback, private,
/// link-local and carrier-grade ranges, and quads with an octet above 255,
/// are kept exactly as written.
pub open spec fn ip_hit(s: Seq<char>, i: int) -> Option<(int, Seq<char>)> {
    if !(0 <= i && i < s.len() && (i == 0 || !is_word(s[i - 1]))) {
        None
    } else {
        let r1 = run_len(s, i, CharClass::Digit);
        let p2 = i + r1 + 1;
        let r2 = run_len(s, p2, CharClass::Digit);
        let p3 = p2 + r2 + 1;
        let r3 = run_len(s, p3, CharClass::Digit);
        let p4 = p3 + r3 + 1;
        let r4 = run_len(s, p4, CharClass::Digit);
        let e = p4 + r4;
        if !(1 <= r1 && r1 <= 3 && i + r1 < s.len() && s[i + r1] == '.' && 1 <= r2 && r2 <= 3 && p2
            + r2 < s.len() && s[p2 + r2] == '.' && 1 <= r3 && r3 <= 3 && p3 + r3 < s.len() && s[p3
            + r3] == '.' && 1 <= r4 && r4 <= 3 && (e == s.len() || !is_word(s[e]))) {
            None
        } else if octets_public(
            digits_val(s, i, r1),
            digits_val(s, p2, r2),
            digits_val(s, p3, r3),
            digits_val(s, p4, r4),
        ) {
            Some((e - i, "[IP_REDACTED]"@))
        } else {
            Some((e - i, s.subrange(i, e)))
        }
    }
}

// ---------------------------------------------------------------------------
// Pattern 4: PEM private-key blocks
// ---------------------------------------------------------------------------

/// Length of the shortest tag of upper-case letters and spaces after which
/// the literal `PRIVATE KEY-----` follows, or -1 when there is none.
pub open spec fn pem_tag_len(s: Seq<char>, a: int) -> int
    decreases s.len() - a,
{
    if tok_at(s, a, "PRIVATE KEY-----"@) {
        0
    } else if 0 <= a && a < s.len() && is_upper_space(s[a]) {
        let r = pem_tag_len(s, a + 1);
        if r < 0 {
            -1
        } else {
            1 + r
        }
    } else {
        -1
    }
}

/// Tag length of an END header starting at `j`, or -1 when `j` starts none.
pub open spec fn pem_end_at(s: Seq<char>, j: int) -> int {
    if tok_at(s, j, "-----END "@) {
        pem_tag_len(s, j + 9)
    } else {
        -1
    }
}

/// The first position at or after `m` where an END header starts, or -1.
pub open spec fn pem_end_from(s: Seq<char>, m: int) -> int
    decreases s.len() - m,
{
    if m < 0 || m > s.len() {
        -1
    } else if pem_end_at(s, m) >= 0 {
        m
    } else if m == s.len() {
        -1
    } else {
        pem_end_from(s, m + 1)
    }
}

/// A PEM private-key block: a BEGIN header, a non-empty body (line breaks
/// included), and the nearest following END header. The whole block is
/// replaced by a single marker.
pub open spec fn pem_hit(s: Seq<char>, i: int) -> Option<(int, Seq<char>)> {
    if !tok_at(s, i, "-----BEGIN "@) {
        None
    } else {
        let k = pem_tag_len(s, i + 11);
        if k < 0 {
            None
        } else {
            let body0 = i + 11 + k + 16;
            let j = pem_end_from(s, body0 + 1);
            if j < 0 {
                None
            } else {
                let k2 = pem_tag_len(s, j + 9);
                Some((j + 9 + k2 + 16 - i, "[PRIVATE_KEY_REDACTED]"@))
            }
        }
    }
}

// ---------------------------------------------------------------------------
// Pattern 5: credit-card shaped numbers
// ---------------------------------------------------------------------------

/// Four decimal digits starting at `i`.
pub open spec fn four_digits(s: Seq<char>, i: int) -> bool {
    0 <= i && i + 4 <= s.len() && (forall|k: int| i <= k < i + 4 ==> is_digit(s[k]))
}

/// 1 when a group separator stands at `p`, else 0.
pub open spec fn cc_sep_at(s: Seq<char>, p: int) -> int {
    if 0 <= p && p < s.len() && is_cc_sep(s[p]) {
        1
    } else {
        0
    }
}

/// Sixteen digits in four groups, optionally separated by a single space or
/// hyphen, between word boundaries.
pub open spec fn cc_hit(s: Seq<char>, i: int) -> Option<(int, Seq<char>)> {
    if !(0 <= i && (i == 0 || (i <= s.len() && !is_word(s[i - 1]))) && four_digits(s, i)) {
        None
    } else {
        let p1 = i + 4;
        let s1 = cc_sep_at(s, p1);
        if !four_digits(s, p1 + s1) {
            None
        } else {
            let p2 = p1 + s1 + 4;
            let s2 = cc_sep_at(s, p2);
            if !four_digits(s, p2 + s2) {
                None
            } else {
                let p3 = p2 + s2 + 4;
                let s3 = cc_sep_at(s, p3);
                if !four_digits(s, p3 + s3) {
                    None
                } else {
                    let e = p3 + s3 + 4;
                    if e == s.len() || !is_word(s[e]) {
                        Some((e - i, "[CC_REDACTED]"@))
                    } else {
                        None
                    }
                }
            }
        }
    }
}

} // verus!

// ---------------------------------------------------------------------------
// The pass scanner
// ---------------------------------------------------------------------------

verus! {

/// The hit of pass `p` at position `i`: consumed length and emitted text.
pub open spec fn hit(p: int, s: Seq<char>, i: int) -> Option<(int, Seq<char>)> {
    if p == 1 {
        key_hit(s, i)
    } else if p == 2 {
        email_hit(s, i)
    } else if p == 3 {
        ip_hit(s, i)
    } else if p == 4 {
        pem_hit(s, i)
    } else {
        cc_hit(s, i)
    }
}

pub proof fn lemma_label_bounds(s: Seq<char>, i: int)
    ensures
        label_at(s, i) > 0 ==> 0 <= i && 5 <= label_at(s, i) && i + label_at(s, i) <= s.len(),
{
    reveal_strlit("api_key");
    reveal_strlit("api-key");
    reveal_strlit("apikey");
    reveal_strlit("authorization");
    reveal_strlit("password");
    reveal_strlit("bearer");
    reveal_strlit("secret");
    reveal_strlit("token");
}

pub proof fn lemma_key_bounds(s: Seq<char>, i: int)
    ensures
        key_hit(s, i) matches Some(h) ==> 1 <= h.0 <= s.len() - i && 0 <= i,
{
    if key_hit(s, i) is Some {
        lemma_label_bounds(s, i);
        let ll = label_at(s, i);
        let a = i + ll;
        lemma_run_len_bounds(s, a, CharClass::Space);
        let b = a + run_len(s, a, CharClass::Space);
        let c0 = b + 1;
        lemma_run_len_bounds(s, c0, CharClass::Space);
        let d0 = c0 + run_len(s, c0, CharClass::Space);
        let q: int = if d0 < s.len() && (s[d0] == '\'' || s[d0] == '"') {
            1
        } else {
            0
        };
        let v0 = d0 + q;
        lemma_run_len_bounds(s, v0, CharClass::ValueChar);
    }
}

pub proof fn lemma_email_end_range(s: Seq<char>, k: int, e: int, p: int)
    ensures
        email_end(s, k, e, p) >= 0 ==> k + 3 <= email_end(s, k, e, p) <= p && email_end_ok(
            s,
            k,
            e,
            email_end(s, k, e, p),
        ),
    decreases p - k,
{
    if p >= k + 3 && !email_end_ok(s, k, e, p) {
        lemma_email_end_range(s, k, e, p - 1);
    }
}

pub proof fn lemma_email_bounds(s: Seq<char>, i: int)
    ensures
        email_hit(s, i) matches Some(h) ==> 1 <= h.0 <= s.len() - i && 0 <= i,
{
    if email_hit(s, i) is Some {
        let ll = run_len(s, i, CharClass::LocalChar);
        lemma_run_len_bounds(s, i, CharClass::LocalChar);
        let k = i + ll + 1;
        lemma_run_len_bounds(s, k, CharClass::DomainChar);
        let e = k + run_len(s, k, CharClass::DomainChar);
        lemma_email_end_range(s, k, e, e);
    }
}

pub proof fn lemma_ip_bounds(s: Seq<char>, i: int)
    ensures
        ip_hit(s, i) matches Some(h) ==> 1 <= h.0 <= s.len() - i && 0 <= i,
{
    if ip_hit(s, i) is Some {
        let r1 = run_len(s, i, CharClass::Digit);
        let p2 = i + r1 + 1;
        let r2 = run_len(s, p2, CharClass::Digit);
        let p3 = p2 + r2 + 1;
        let r3 = run_len(s, p3, CharClass::Digit);
        let p4 = p3 + r3 + 1;
        lemma_run_len_bounds(s, p4, CharClass::Digit);
    }
}

pub proof fn lemma_pem_tag_ok(s: Seq<char>, a: int)
    ensures
        pem_tag_len(s, a) >= 0 ==> tok_at(s, a + pem_tag_len(s, a), "PRIVATE KEY-----"@) && a
            + pem_tag_len(s, a) + 16 <= s.len() && (pem_tag_len(s, a) > 0 ==> 0 <= a),
    decreases s.len() - a,
{
    reveal_strlit("PRIVATE KEY-----");
    if !tok_at(s, a, "PRIVATE KEY-----"@) && 0 <= a && a < s.len() && is_upper_space(s[a]) {
        lemma_pem_tag_ok(s, a + 1);
    }
}

pub proof fn lemma_pem_end_range(s: Seq<char>, m: int)
    ensures
        pem_end_from(s, m) >= 0 ==> m <= pem_end_from(s, m) && pem_end_at(s, pem_end_from(s, m))
            >= 0,
    decreases s.len() - m,
{
    if !(m < 0 || m > s.len()) && !(pem_end_at(s, m) >= 0) && m != s.len() {
        lemma_pem_end_range(s, m + 1);
    }
}

pub proof fn lemma_pem_bounds(s: Seq<char>, i: int)
    ensures
        pem_hit(s, i) matches Some(h) ==> 1 <= h.0 <= s.len() - i && 0 <= i,
{
    reveal_strlit("-----BEGIN ");
    reveal_strlit("-----END ");
    if pem_hit(s, i) is Some {
        let k = pem_tag_len(s, i + 11);
        let body0 = i + 11 + k + 16;
        let j = pem_end_from(s, body0 + 1);
        lemma_pem_end_range(s, body0 + 1);
        lemma_pem_tag_ok(s, j + 9);
    }
}

pub proof fn lemma_cc_bounds(s: Seq<char>, i: int)
    ensures
        cc_hit(s, i) matches Some(h) ==> 1 <= h.0 <= s.len() - i && 0 <= i,
{
}

/// Every hit consumes at least one character and stays inside the text.
pub proof fn lemma_hit_bounds(p: int, s: Seq<char>, i: int)
    ensures
        hit(p, s, i) matches Some(h) ==> 1 <= h.0 <= s.len() - i && 0 <= i,
{
    lemma_key_bounds(s, i);
    lemma_email_bounds(s, i);
    lemma_ip_bounds(s, i);
    lemma_pem_bounds(s, i);
    lemma_cc_bounds(s, i);
}

/// Text produced by pass `p` from position `i` on: the leftmost hit is
/// replaced by its emitted text and scanning continues after it; unmatched
/// characters are copied.
pub open spec fn pass_from(p: int, s: Seq<char>, i: int) -> Seq<char>
    decreases s.len() - i,
    when 0 <= i
    via pass_from_dec
{
    if i >= s.len() {
        Seq::empty()
    } else {
        match hit(p, s, i) {
            Some(h) => h.1 + pass_from(p, s, i + h.0),
            None => seq![s[i]] + pass_from(p, s, i + 1),
        }
    }
}

#[via_fn]
proof fn pass_from_dec(p: int, s: Seq<char>, i: int) {
    lemma_hit_bounds(p, s, i);
}

/// One whole pass over `s`.
pub open spec fn pass_spec(p: int, s: Seq<char>) -> Seq<char> {
    pass_from(p, s, 0)
}

/// The five passes in their fixed order.
pub open spec fn sanitize_spec(s: Seq<char>) -> Seq<char> {
    pass_spec(5, pass_spec(4, pass_spec(3, pass_spec(2, pass_spec(1, s)))))
}

} // verus!

// ---------------------------------------------------------------------------
// Executable matchers
// ---------------------------------------------------------------------------

verus! {

fn eq_ci_exec(a: char, b: char) -> (r: bool)
    ensures
        r == eq_ci(a, b),
{
    let av = a as u32;
    let bv = b as u32;
    a == b || (97 <= bv && bv <= 122 && av == bv - 32)
}

fn tok_at_exec(s: &str, i: usize, t: &str) -> (r: bool)
    requires
        i <= s@.len(),
    ensures
        r == tok_at(s@, i as int, t@),
{
    let n = s.unicode_len();
    let tl = t.unicode_len();
    if tl > n - i {
        return false;
    }
    let mut k: usize = 0;
    while k < tl
        invariant
            i + tl <= n,
            n == s@.len(),
            tl == t@.len(),
            k <= tl,
            forall|m: int| 0 <= m < k ==> s@[i + m] == t@[m],
        decreases tl - k,
    {
        if s.get_char(i + k) != t.get_char(k) {
            proof {
                assert(s@[i + k as int] != t@[k as int]);
            }
            return false;
        }
        k = k + 1;
    }
    true
}

fn tok_at_ci_exec(s: &str, i: usize, t: &str) -> (r: bool)
    requires
        i <= s@.len(),
    ensures
        r == tok_at_ci(s@, i as int, t@),
{
    let n = s.unicode_len();
    let tl = t.unicode_len();
    if tl > n - i {
        return false;
    }
    let mut k: usize = 0;
    while k < tl
        invariant
            i + tl <= n,
            n == s@.len(),
            tl == t@.len(),
            k <= tl,
            forall|m: int| 0 <= m < k ==> eq_ci(s@[i + m], t@[m]),
        decreases tl - k,
    {
        if !eq_ci_exec(s.get_char(i + k), t.get_char(k)) {
            proof {
                assert(!eq_ci(s@[i + k as int], t@[k as int]));
            }
            return false;
        }
        k = k + 1;
    }
    true
}

fn label_at_exec(s: &str, i: usize) -> (r: usize)
    requires
        i <= s@.len(),
    ensures
        r == label_at(s@, i as int),
{
    if tok_at_ci_exec(s, i, "api_key") {
        7
    } else if tok_at_ci_exec(s, i, "api-key") {
        7
    } else if tok_at_ci_exec(s, i, "apikey") {
        6
    } else if tok_at_ci_exec(s, i, "authorization") {
        13
    } else if tok_at_ci_exec(s, i, "password") {
        8
    } else if tok_at_ci_exec(s, i, "bearer") {
        6
    } else if tok_at_ci_exec(s, i, "secret") {
        6
    } else if tok_at_ci_exec(s, i, "token") {
        5
    } else {
        0
    }
}

fn key_hit_exec(s: &str, i: usize) -> (r: Option<(usize, String)>)
    requires
        i < s@.len(),
    ensures
        (match r {
            Some(h) => key_hit(s@, i as int) == Some((h.0 as int, h.1@)),
            None => key_hit(s@, i as int) is None,
        }),
{
    let n = s.unicode_len();
    let ll = label_at_exec(s, i);
    if ll == 0 {
        return None;
    }
    proof {
        lemma_label_bounds(s@, i as int);
    }
    let a = i + ll;
    let sp1 = run_len_exec(s, a, CharClass::Space);
    let b = a + sp1;
    if b >= n {
        return None;
    }
    let cb = s.get_char(b);
    if !(cb == ':' || cb == '=') {
        return None;
    }
    let c0 = b + 1;
    let sp2 = run_len_exec(s, c0, CharClass::Space);
    let d0 = c0 + sp2;
    let mut q: usize = 0;
    if d0 < n {
        let cq = s.get_char(d0);
        if cq == '\'' || cq == '"' {
            q = 1;
        }
    }
    let v0 = d0 + q;
    let vl = run_len_exec(s, v0, CharClass::ValueChar);
    if vl < 16 {
        return None;
    }
    let e0 = v0 + vl;
    let mut cq2: usize = 0;
    if e0 < n {
        let ce = s.get_char(e0);
        if ce == '\'' || ce == '"' {
            cq2 = 1;
        }
    }
    let mut rep = String::new();
    rep.append(s.substring_char(i, a));
    rep.append(": [REDACTED_KEY]");
    proof {
        assert(rep@ =~= s@.subrange(i as int, i + ll) + ": [REDACTED_KEY]"@);
    }
    Some((e0 + cq2 - i, rep))
}

fn back_alpha_exec(s: &str, p: usize) -> (r: usize)
    requires
        p <= s@.len(),
    ensures
        r == back_alpha(s@, p as int),
        r <= p,
{
    let mut j: usize = p;
    while j > 0 && char_in_class(CharClass::Alpha, s.get_char(j - 1))
        invariant
            j <= p <= s@.len(),
            back_alpha(s@, p as int) == (p - j) + back_alpha(s@, j as int),
        decreases j,
    {
        j = j - 1;
    }
    p - j
}

fn email_end_ok_exec(s: &str, k: usize, e: usize, p: usize) -> (r: bool)
    requires
        k <= p <= e <= s@.len(),
    ensures
        r == email_end_ok(s@, k as int, e as int, p as int),
{
    let a = back_alpha_exec(s, p);
    if a < 2 {
        return false;
    }
    if p - a == 0 || p - a - 1 < k {
        return false;
    }
    if s.get_char(p - a - 1) != '.' {
        return false;
    }
    if p == e {
        if e == s.unicode_len() {
            true
        } else {
            !char_in_class(CharClass::Word, s.get_char(e))
        }
    } else {
        let cp = s.get_char(p);
        cp == '.' || cp == '-'
    }
}

fn email_end_exec(s: &str, k: usize, e: usize) -> (r: Option<usize>)
    requires
        k <= e <= s@.len(),
    ensures
        (match r {
            Some(p) => email_end(s@, k as int, e as int, e as int) == p as int && k <= p <= e,
            None => email_end(s@, k as int, e as int, e as int) == -1,
        }),
{
    let mut p: usize = e;
    loop
        invariant
            k <= p <= e <= s@.len(),
            email_end(s@, k as int, e as int, e as int) == email_end(
                s@,
                k as int,
                e as int,
                p as int,
            ),
        decreases p,
    {
        if p - k < 3 {
            return None;
        }
        if email_end_ok_exec(s, k, e, p) {
            return Some(p);
        }
        p = p - 1;
    }
}

fn email_hit_exec(s: &str, i: usize) -> (r: Option<(usize, String)>)
    requires
        i < s@.len(),
    ensures
        (match r {
            Some(h) => email_hit(s@, i as int) == Some((h.0 as int, h.1@)),
            None => email_hit(s@, i as int) is None,
        }),
{
    let n = s.unicode_len();
    if !char_in_class(CharClass::LocalChar, s.get_char(i)) {
        return None;
    }
    if i > 0 && char_in_class(CharClass::LocalChar, s.get_char(i - 1)) {
        return None;
    }
    let ll = run_len_exec(s, i, CharClass::LocalChar);
    let at = i + ll;
    if at >= n {
        return None;
    }
    if s.get_char(at) != '@' {
        return None;
    }
    let k = at + 1;
    let dl = run_len_exec(s, k, CharClass::DomainChar);
    let e = k + dl;
    match email_end_exec(s, k, e) {
        Some(p) => {
            let mut rep = String::new();
            rep.append("[EMAIL_REDACTED]");
            proof {
                assert(rep@ =~= "[EMAIL_REDACTED]"@);
            }
            Some((p - i, rep))
        },
        None => None,
    }
}

fn ip_hit_exec(s: &str, i: usize) -> (r: Option<(usize, String)>)
    requires
        i < s@.len(),
    ensures
        (match r {
            Some(h) => ip_hit(s@, i as int) == Some((h.0 as int, h.1@)),
            None => ip_hit(s@, i as int) is None,
        }),
{
    let n = s.unicode_len();
    if i > 0 && char_in_class(CharClass::Word, s.get_char(i - 1)) {
        return None;
    }
    let r1 = run_len_exec(s, i, CharClass::Digit);
    if r1 < 1 || r1 > 3 || i + r1 >= n {
        return None;
    }
    if s.get_char(i + r1) != '.' {
        return None;
    }
    let p2 = i + r1 + 1;
    let r2 = run_len_exec(s, p2, CharClass::Digit);
    if r2 < 1 || r2 > 3 || p2 + r2 >= n {
        return None;
    }
    if s.get_char(p2 + r2) != '.' {
        return None;
    }
    let p3 = p2 + r2 + 1;
    let r3 = run_len_exec(s, p3, CharClass::Digit);
    if r3 < 1 || r3 > 3 || p3 + r3 >= n {
        return None;
    }
    if s.get_char(p3 + r3) != '.' {
        return None;
    }
    let p4 = p3 + r3 + 1;
    let r4 = run_len_exec(s, p4, CharClass::Digit);
    if r4 < 1 || r4 > 3 {
        return None;
    }
    let e = p4 + r4;
    if e < n && char_in_class(CharClass::Word, s.get_char(e)) {
        return None;
    }
    proof {
        lemma_run_chars(s@, i as int, CharClass::Digit);
        lemma_run_chars(s@, p2 as int, CharClass::Digit);
        lemma_run_chars(s@, p3 as int, CharClass::Digit);
        lemma_run_chars(s@, p4 as int, CharClass::Digit);
    }
    let o1 = octet_val(s, i, r1);
    let o2 = octet_val(s, p2, r2);
    let o3 = octet_val(s, p3, r3);
    let o4 = octet_val(s, p4, r4);
    let quad_public: bool = match (o1, o2, o3, o4) {
        (Some(v1), Some(v2), Some(v3), Some(v4)) => !(v1 == 127 || v1 == 10 || (v1 == 192 && v2
            == 168) || (v1 == 172 && 16 <= v2 && v2 <= 31) || (v1 == 169 && v2 == 254) || (v1
            == 100 && 64 <= v2 && v2 <= 127)),
        _ => false,
    };
    if quad_public {
        let mut rep = String::new();
        rep.append("[IP_REDACTED]");
        proof {
            assert(rep@ =~= "[IP_REDACTED]"@);
        }
        Some((e - i, rep))
    } else {
        let rep = String::from_str(s.substring_char(i, e));
        Some((e - i, rep))
    }
}

fn pem_tag_len_exec(s: &str, a: usize) -> (r: Option<usize>)
    requires
        a <= s@.len(),
    ensures
        (match r {
            Some(k) => pem_tag_len(s@, a as int) == k as int,
            None => pem_tag_len(s@, a as int) == -1,
        }),
{
    let n = s.unicode_len();
    let mut j: usize = a;
    loop
        invariant
            a <= j <= n,
            n == s@.len(),
            pem_tag_len(s@, a as int) == (if pem_tag_len(s@, j as int) >= 0 {
                (j - a) + pem_tag_len(s@, j as int)
            } else {
                -1
            }),
        decreases n - j,
    {
        if tok_at_exec(s, j, "PRIVATE KEY-----") {
            return Some(j - a);
        }
        if j < n && char_in_class(CharClass::UpperSpace, s.get_char(j)) {
            j = j + 1;
        } else {
            return None;
        }
    }
}

fn pem_end_from_exec(s: &str, m: usize) -> (r: Option<usize>)
    ensures
        (match r {
            Some(j) => pem_end_from(s@, m as int) == j as int && m <= j,
            None => pem_end_from(s@, m as int) == -1,
        }),
{
    let n = s.unicode_len();
    if m > n {
        return None;
    }
    let mut j: usize = m;
    loop
        invariant
            m <= j <= n,
            n == s@.len(),
            pem_end_from(s@, m as int) == pem_end_from(s@, j as int),
        decreases n - j,
    {
        if tok_at_exec(s, j, "-----END ") {
            proof {
                reveal_strlit("-----END ");
            }
            match pem_tag_len_exec(s, j + 9) {
                Some(_) => {
                    return Some(j);
                },
                None => {},
            }
        }
        if j == n {
            return None;
        }
        j = j + 1;
    }
}

fn pem_hit_exec(s: &str, i: usize) -> (r: Option<(usize, String)>)
    requires
        i < s@.len(),
    ensures
        (match r {
            Some(h) => pem_hit(s@, i as int) == Some((h.0 as int, h.1@)),
            None => pem_hit(s@, i as int) is None,
        }),
{
    let n = s.unicode_len();
    if !tok_at_exec(s, i, "-----BEGIN ") {
        return None;
    }
    proof {
        reveal_strlit("-----BEGIN ");
        assert(i + 11 <= n);
    }
    let k = match pem_tag_len_exec(s, i + 11) {
        Some(k) => k,
        None => {
            return None;
        },
    };
    proof {
        lemma_pem_tag_ok(s@, i as int + 11);
        reveal_strlit("PRIVATE KEY-----");
        assert(i + 11 + k + 16 <= n);
    }
    let body0 = i + 11 + k + 16;
    if body0 == n {
        return None;
    }
    let j = match pem_end_from_exec(s, body0 + 1) {
        Some(j) => j,
        None => {
            return None;
        },
    };
    proof {
        lemma_pem_end_range(s@, body0 as int + 1);
        reveal_strlit("-----END ");
    }
    let k2 = match pem_tag_len_exec(s, j + 9) {
        Some(v) => v,
        None => {
            proof {
                assert(false);
            }
            return None;
        },
    };
    proof {
        lemma_pem_tag_ok(s@, j as int + 9);
    }
    let mut rep = String::new();
    rep.append("[PRIVATE_KEY_REDACTED]");
    proof {
        assert(rep@ =~= "[PRIVATE_KEY_REDACTED]"@);
    }
    Some((j + 9 + k2 + 16 - i, rep))
}

fn cc_sep_exec(s: &str, p: usize) -> (r: usize)
    requires
        p <= s@.len(),
    ensures
        r == cc_sep_at(s@, p as int),
        p + r <= s@.len(),
{
    let n = s.unicode_len();
    if p < n {
        let c = s.get_char(p);
        if char_in_class(CharClass::Space, c) || c == '-' {
            1
        } else {
            0
        }
    } else {
        0
    }
}

fn four_digits_exec(s: &str, i: usize) -> (r: bool)
    requires
        i <= s@.len(),
    ensures
        r == four_digits(s@, i as int),
{
    let n = s.unicode_len();
    if n - i < 4 {
        return false;
    }
    let mut k: usize = 0;
    while k < 4
        invariant
            i + 4 <= n,
            n == s@.len(),
            k <= 4,
            forall|m: int| i <= m < i + k ==> is_digit(s@[m]),
        decreases 4 - k,
    {
        if !char_in_class(CharClass::Digit, s.get_char(i + k)) {
            proof {
                assert(!is_digit(s@[i + k as int]));
            }
            return false;
        }
        k = k + 1;
    }
    true
}

fn cc_hit_exec(s: &str, i: usize) -> (r: Option<(usize, String)>)
    requires
        i < s@.len(),
    ensures
        (match r {
            Some(h) => cc_hit(s@, i as int) == Some((h.0 as int, h.1@)),
            None => cc_hit(s@, i as int) is None,
        }),
{
    let n = s.unicode_len();
    if i > 0 && char_in_class(CharClass::Word, s.get_char(i - 1)) {
        return None;
    }
    if !four_digits_exec(s, i) {
        return None;
    }
    let p1 = i + 4;
    let s1 = cc_sep_exec(s, p1);
    if !four_digits_exec(s, p1 + s1) {
        return None;
    }
    let p2 = p1 + s1 + 4;
    let s2 = cc_sep_exec(s, p2);
    if !four_digits_exec(s, p2 + s2) {
        return None;
    }
    let p3 = p2 + s2 + 4;
    let s3 = cc_sep_exec(s, p3);
    if !four_digits_exec(s, p3 + s3) {
        return None;
    }
    let e = p3 + s3 + 4;
    if e < n && char_in_class(CharClass::Word, s.get_char(e)) {
        return None;
    }
    let mut rep = String::new();
    rep.append("[CC_REDACTED]");
    proof {
        assert(rep@ =~= "[CC_REDACTED]"@);
    }
    Some((e - i, rep))
}

fn hit_at(p: u8, s: &str, i: usize) -> (r: Option<(usize, String)>)
    requires
        1 <= p <= 5,
        i < s@.len(),
    ensures
        (match r {
            Some(h) => hit(p as int, s@, i as int) == Some((h.0 as int, h.1@)) && 1 <= h.0 <= s@.len()
                - i,
            None => hit(p as int, s@, i as int) is None,
        }),
{
    let r = if p == 1 {
        key_hit_exec(s, i)
    } else if p == 2 {
        email_hit_exec(s, i)
    } else if p == 3 {
        ip_hit_exec(s, i)
    } else if p == 4 {
        pem_hit_exec(s, i)
    } else {
        cc_hit_exec(s, i)
    };
    proof {
        lemma_hit_bounds(p as int, s@, i as int);
    }
    r
}

/// One scanning pass over `text`.
fn run_pass(p: u8, text: &str) -> (r: String)
    requires
        1 <= p <= 5,
    ensures
        r@ == pass_spec(p as int, text@),
{
    let n = text.unicode_len();
    let mut out = String::new();
    let mut i: usize = 0;
    while i < n
        invariant
            1 <= p <= 5,
            i <= n,
            n == text@.len(),
            pass_spec(p as int, text@) == out@ + pass_from(p as int, text@, i as int),
        decreases n - i,
    {
        let ghost prev = out@;
        match hit_at(p, text, i) {
            Some(h) => {
                proof {
                    assert(pass_from(p as int, text@, i as int) == h.1@ + pass_from(
                        p as int,
                        text@,
                        i + h.0,
                    ));
                }
                out.append(h.1.as_str());
                proof {
                    assert(out@ + pass_from(p as int, text@, i + h.0) =~= prev + pass_from(
                        p as int,
                        text@,
                        i as int,
                    ));
                }
                i = i + h.0;
            },
            None => {
                proof {
                    assert(pass_from(p as int, text@, i as int) == seq![text@[i as int]]
                        + pass_from(p as int, text@, i + 1));
                }
                out.append(text.substring_char(i, i + 1));
                proof {
                    assert(out@ + pass_from(p as int, text@, i + 1) =~= prev + pass_from(
                        p as int,
                        text@,
                        i as int,
                    ));
                }
                i = i + 1;
            },
        }
    }
    proof {
        assert(out@ =~= out@ + pass_from(p as int, text@, n as int));
    }
    out
}

/// Apply the five redaction passes to `text` in their fixed order: labelled
/// secrets, email addresses, public IPv4 quads, PEM private-key blocks, and
/// credit-card shaped numbers. Unmatched text passes through unchanged.
pub fn sanitize_text(text: &str) -> (r: String)
    ensures
        r@ == sanitize_spec(text@),
{
    let s1 = run_pass(1, text);
    let s2 = run_pass(2, s1.as_str());
    let s3 = run_pass(3, s2.as_str());
    let s4 = run_pass(4, s3.as_str());
    run_pass(5, s4.as_str())
}

} // verus!

// ---------------------------------------------------------------------------
// Laws of the redaction of dotted quads
// ---------------------------------------------------------------------------

verus! {

/// Where no pass hit exists from `i` on, the pass copies the text.
proof fn lemma_no_hit_identity(p: int, s: Seq<char>, i: int)
    requires
        0 <= i <= s.len(),
        forall|j: int| i <= j < s.len() ==> #[trigger] hit(p, s, j) is None,
    ensures
        pass_from(p, s, i) == s.subrange(i, s.len() as int),
    decreases s.len() - i,
{
    if i < s.len() {
        lemma_no_hit_identity(p, s, i + 1);
        assert(pass_from(p, s, i) =~= s.subrange(i, s.len() as int));
    } else {
        assert(pass_from(p, s, i) =~= s.subrange(i, s.len() as int));
    }
}

/// Text without letters never matches a secret label.
proof fn lemma_key_no_hit(s: Seq<char>)
    requires
        forall|j: int| 0 <= j < s.len() ==> !is_alpha(#[trigger] s[j]),
    ensures
        forall|j: int| 0 <= j < s.len() ==> #[trigger] hit(1, s, j) is None,
{
    reveal_strlit("api_key");
    reveal_strlit("api-key");
    reveal_strlit("apikey");
    reveal_strlit("authorization");
    reveal_strlit("password");
    reveal_strlit("bearer");
    reveal_strlit("secret");
    reveal_strlit("token");
    assert forall|j: int| 0 <= j < s.len() implies #[trigger] hit(1, s, j) is None by {
        assert(!tok_at_ci(s, j, "api_key"@)) by {
            if tok_at_ci(s, j, "api_key"@) {
                assert(eq_ci(s[j + 0], "api_key"@[0]));
            }
        }
        assert(!tok_at_ci(s, j, "api-key"@)) by {
            if tok_at_ci(s, j, "api-key"@) {
                assert(eq_ci(s[j + 0], "api-key"@[0]));
            }
        }
        assert(!tok_at_ci(s, j, "apikey"@)) by {
            if tok_at_ci(s, j, "apikey"@) {
                assert(eq_ci(s[j + 0], "apikey"@[0]));
            }
        }
        assert(!tok_at_ci(s, j, "authorization"@)) by {
            if tok_at_ci(s, j, "authorization"@) {
                assert(eq_ci(s[j + 0], "authorization"@[0]));
            }
        }
        assert(!tok_at_ci(s, j, "password"@)) by {
            if tok_at_ci(s, j, "password"@) {
                assert(eq_ci(s[j + 0], "password"@[0]));
            }
        }
        assert(!tok_at_ci(s, j, "bearer"@)) by {
            if tok_at_ci(s, j, "bearer"@) {
                assert(eq_ci(s[j + 0], "bearer"@[0]));
            }
        }
        assert(!tok_at_ci(s, j, "secret"@)) by {
            if tok_at_ci(s, j, "secret"@) {
                assert(eq_ci(s[j + 0], "secret"@[0]));
            }
        }
        assert(!tok_at_ci(s, j, "token"@)) by {
            if tok_at_ci(s, j, "token"@) {
                assert(eq_ci(s[j + 0], "token"@[0]));
            }
        }
        assert(label_at(s, j) == 0);
    }
}

/// Text without `@` never matches an address.
proof fn lemma_email_no_hit(s: Seq<char>)
    requires
        forall|j: int| 0 <= j < s.len() ==> s[j] != '@',
    ensures
        forall|j: int| 0 <= j < s.len() ==> #[trigger] hit(2, s, j) is None,
{
    assert forall|j: int| 0 <= j < s.len() implies #[trigger] hit(2, s, j) is None by {
        if 0 <= j < s.len() && is_local_char(s[j]) && (j == 0 || !is_local_char(s[j - 1])) {
            let ll = run_len(s, j, CharClass::LocalChar);
            lemma_run_len_bounds(s, j, CharClass::LocalChar);
            if j + ll < s.len() {
                assert(s[j + ll] != '@');
            }
        }
    }
}

/// Text without `-` never matches a PEM block.
proof fn lemma_pem_no_hit(s: Seq<char>)
    requires
        forall|j: int| 0 <= j < s.len() ==> s[j] != '-',
    ensures
        forall|j: int| 0 <= j < s.len() ==> #[trigger] hit(4, s, j) is None,
{
    reveal_strlit("-----BEGIN ");
    assert forall|j: int| 0 <= j < s.len() implies #[trigger] hit(4, s, j) is None by {
        if tok_at(s, j, "-----BEGIN "@) {
            assert(s[j + 0] == "-----BEGIN "@[0]);
            assert(s[j] == '-');
        }
    }
}

/// Text with no four consecutive digits never matches a card number.
proof fn lemma_cc_no_hit(s: Seq<char>)
    requires
        forall|j: int| !#[trigger] four_digits(s, j),
    ensures
        forall|j: int| 0 <= j < s.len() ==> #[trigger] hit(5, s, j) is None,
{
}

/// A dotted quad that fills the whole text has no four consecutive digits:
/// each digit group is at most three long and a dot stands between groups.
proof fn lemma_quad_no_four_digits(s: Seq<char>)
    requires
        ip_hit(s, 0) matches Some(h) && h.0 == s.len(),
    ensures
        forall|j: int| !#[trigger] four_digits(s, j),
{
    let r1 = run_len(s, 0, CharClass::Digit);
    let p2 = r1 + 1;
    let r2 = run_len(s, p2, CharClass::Digit);
    let p3 = p2 + r2 + 1;
    let r3 = run_len(s, p3, CharClass::Digit);
    let p4 = p3 + r3 + 1;
    let r4 = run_len(s, p4, CharClass::Digit);
    let da = r1;
    let db = p2 + r2;
    let dc = p3 + r3;
    assert(s[da] == '.' && s[db] == '.' && s[dc] == '.');
    assert(s.len() == p4 + r4);
    assert forall|j: int| !#[trigger] four_digits(s, j) by {
        if 0 <= j && j + 4 <= s.len() {
            if j <= da < j + 4 {
                assert(!is_digit(s[da]));
            } else if j <= db < j + 4 {
                assert(!is_digit(s[db]));
            } else if j <= dc < j + 4 {
                assert(!is_digit(s[dc]));
            } else {
                assert(da < j || da >= j + 4);
                assert(da < j) by {
                    if da >= j + 4 {
                        assert(j + 4 <= da <= 3);
                    }
                }
                assert(db < j) by {
                    if db >= j + 4 {
                        assert(db <= da + 4);
                    }
                }
                assert(dc < j) by {
                    if dc >= j + 4 {
                        assert(dc <= db + 4);
                    }
                }
                assert(s.len() <= dc + 4);
                assert(false);
            }
        }
    }
}

/// The digits and dots of a whole-text quad carry no letters, no `@`, no
/// `-`.
proof fn lemma_quad_chars(s: Seq<char>)
    requires
        ip_hit(s, 0) matches Some(h) && h.0 == s.len(),
    ensures
        forall|j: int| 0 <= j < s.len() ==> is_digit(#[trigger] s[j]) || s[j] == '.',
{
    let r1 = run_len(s, 0, CharClass::Digit);
    let p2 = r1 + 1;
    let r2 = run_len(s, p2, CharClass::Digit);
    let p3 = p2 + r2 + 1;
    let r3 = run_len(s, p3, CharClass::Digit);
    let p4 = p3 + r3 + 1;
    let r4 = run_len(s, p4, CharClass::Digit);
    lemma_run_chars(s, 0, CharClass::Digit);
    lemma_run_chars(s, p2, CharClass::Digit);
    lemma_run_chars(s, p3, CharClass::Digit);
    lemma_run_chars(s, p4, CharClass::Digit);
    assert forall|j: int| 0 <= j < s.len() implies is_digit(#[trigger] s[j]) || s[j] == '.' by {
        if j < r1 {
        } else if j == r1 {
        } else if j < p2 + r2 {
        } else if j == p2 + r2 {
        } else if j < p3 + r3 {
        } else if j == p3 + r3 {
        }
    }
}

/// The address marker holds no letter-free hazards: no digits, no `@`, no
/// `-`, and no letters that could start a label... it passes the later
/// passes unchanged.
proof fn lemma_marker_chars()
    ensures
        forall|j: int|
            0 <= j < "[IP_REDACTED]"@.len() ==> !is_digit(#[trigger] "[IP_REDACTED]"@[j])
                && "[IP_REDACTED]"@[j] != '-',
{
    reveal_strlit("[IP_REDACTED]");
}

/// How the redaction treats a text that is exactly a well-formed dotted
/// quad: a publicly routable address becomes the address marker; loopback,
/// private, link-local and carrier-grade addresses, and quads with an octet
/// above 255, pass through unchanged. `out` is the ip pass's own answer for
/// the quad, so both cases are one statement: the whole five-pass redaction
/// agrees with it.
pub proof fn lemma_redact_quad(s: Seq<char>, l: int, out: Seq<char>)
    requires
        ip_hit(s, 0) == Some((l, out)),
        l == s.len(),
    ensures
        sanitize_spec(s) == out,
{
    lemma_quad_chars(s);
    lemma_quad_no_four_digits(s);
    // Pass 1: no letters, so no labels.
    assert forall|j: int| 0 <= j < s.len() implies !is_alpha(#[trigger] s[j]) by {}
    lemma_key_no_hit(s);
    lemma_no_hit_identity(1, s, 0);
    assert(pass_spec(1, s) =~= s);
    // Pass 2: no at sign, so no addresses.
    lemma_email_no_hit(s);
    lemma_no_hit_identity(2, s, 0);
    assert(pass_spec(2, s) =~= s);
    // Pass 3: the quad itself.
    lemma_ip_bounds(s, 0);
    assert(pass_from(3, s, 0) == out + pass_from(3, s, l));
    assert(pass_spec(3, s) =~= out);
    // Passes 4 and 5 leave the answer alone, whichever it is.
    let r1 = run_len(s, 0, CharClass::Digit);
    let p2 = r1 + 1;
    let r2 = run_len(s, p2, CharClass::Digit);
    let p3 = p2 + r2 + 1;
    let r3 = run_len(s, p3, CharClass::Digit);
    let p4 = p3 + r3 + 1;
    let r4 = run_len(s, p4, CharClass::Digit);
    if octets_public(
        digits_val(s, 0, r1),
        digits_val(s, p2, r2),
        digits_val(s, p3, r3),
        digits_val(s, p4, r4),
    ) {
        // The marker: no dashes, no digits.
        assert(out == "[IP_REDACTED]"@);
        lemma_marker_chars();
        lemma_pem_no_hit(out);
        lemma_no_hit_identity(4, out, 0);
        assert(pass_spec(4, out) =~= out);
        assert forall|j: int| !#[trigger] four_digits(out, j) by {
            if 0 <= j && j + 4 <= out.len() {
                assert(!is_digit(out[j]));
            }
        }
        lemma_cc_no_hit(out);
        lemma_no_hit_identity(5, out, 0);
        assert(pass_spec(5, out) =~= out);
    } else {
        // The quad itself: digits and dots only.
        assert(out == s.subrange(0, l));
        assert(out =~= s);
        lemma_pem_no_hit(s);
        lemma_no_hit_identity(4, s, 0);
        assert(pass_spec(4, s) =~= s);
        lemma_cc_no_hit(s);
        lemma_no_hit_identity(5, s, 0);
        assert(pass_spec(5, s) =~= s);
    }
}

} // verus!

verus! {

/// Text in which no detection rule matches anywhere passes through the
/// whole redaction unchanged.
pub proof fn lemma_unmatched_text_unchanged(s: Seq<char>)
    requires
        forall|p: int, j: int| 1 <= p <= 5 && 0 <= j < s.len() ==> #[trigger] hit(p, s, j) is None,
    ensures
        sanitize_spec(s) == s,
{
    assert forall|j: int| 0 <= j < s.len() implies #[trigger] hit(1, s, j) is None by {}
    lemma_no_hit_identity(1, s, 0);
    assert(pass_spec(1, s) =~= s);
    assert forall|j: int| 0 <= j < s.len() implies #[trigger] hit(2, s, j) is None by {}
    lemma_no_hit_identity(2, s, 0);
    assert(pass_spec(2, s) =~= s);
    assert forall|j: int| 0 <= j < s.len() implies #[trigger] hit(3, s, j) is None by {}
    lemma_no_hit_identity(3, s, 0);
    assert(pass_spec(3, s) =~= s);
    assert forall|j: int| 0 <= j < s.len() implies #[trigger] hit(4, s, j) is None by {}
    lemma_no_hit_identity(4, s, 0);
    assert(pass_spec(4, s) =~= s);
    assert forall|j: int| 0 <= j < s.len() implies #[trigger] hit(5, s, j) is None by {}
    lemma_no_hit_identity(5, s, 0);
    assert(pass_spec(5, s) =~= s);
}

} // verus!
