//! Character and string primitives shared by every module.

use vstd::prelude::*;

verus! {

/// `true` for the ASCII letters `A`-`Z` and `a`-`z`.
pub open spec fn spec_is_ascii_alpha(c: char) -> bool {
    ('a' <= c && c <= 'z') || ('A' <= c && c <= 'Z')
}

/// ASCII lowercase mapping: `A`-`Z` map to `a`-`z`, every other char is kept.
pub open spec fn spec_ascii_lower(c: char) -> char {
    if 'A' <= c && c <= 'Z' {
        ((c as u32) + 32) as char
    } else {
        c
    }
}

pub fn is_ascii_alpha(c: char) -> (r: bool)
    ensures
        r == spec_is_ascii_alpha(c),
{
    (c >= 'a' && c <= 'z') || (c >= 'A' && c <= 'Z')
}

pub fn ascii_lower(c: char) -> (r: char)
    ensures
        r == spec_ascii_lower(c),
{
    if c >= 'A' && c <= 'Z' {
        ((c as u8) + 32) as char
    } else {
        c
    }
}

/// Appends one char to a `String` (`String::push`).
#[verifier::external_body]
pub(crate) fn push_char(s: &mut String, c: char)
    ensures
        final(s)@ == old(s)@.push(c),
{
    s.push(c);
}

/// The chars of `s`, in order.
pub fn chars_of(s: &str) -> (v: Vec<char>)
    ensures
        v@ == s@,
{
    let mut v: Vec<char> = Vec::new();
    for c in it: s.chars()
        invariant
            v@ == it.seq().take(it.index() as int),
    {
        v.push(c);
    }
    v
}

/// A `String` holding exactly the chars of `v`.
pub fn string_of(v: &[char]) -> (s: String)
    ensures
        s@ == v@,
{
    let s = string_of_range(v, 0, v.len());
    assert(v@.subrange(0, v@.len() as int) == v@);
    s
}

/// A `String` holding the chars `v[lo..hi]`.
pub fn string_of_range(v: &[char], lo: usize, hi: usize) -> (s: String)
    requires
        lo <= hi <= v.len(),
    ensures
        s@ == v@.subrange(lo as int, hi as int),
{
    let mut s = String::new();
    let mut i: usize = lo;
    while i < hi
        invariant
            lo <= i <= hi <= v.len(),
            s@ == v@.subrange(lo as int, i as int),
        decreases hi - i,
    {
        push_char(&mut s, v[i]);
        assert(v@.subrange(lo as int, i as int + 1) == v@.subrange(lo as int, i as int).push(v@[i as int]));
        i += 1;
    }
    s
}

} // verus!

verus! {

/// The least index `i` in `[lo, hi)` with `p(s[i])`, or `hi` when there is none.
pub open spec fn first_in(s: Seq<char>, lo: int, hi: int, p: spec_fn(char) -> bool) -> int
    decreases hi - lo,
{
    if lo >= hi {
        hi
    } else if p(s[lo]) {
        lo
    } else {
        first_in(s, lo + 1, hi, p)
    }
}

/// `first_in` lands on the first matching index of the range.
pub proof fn lemma_first_in(s: Seq<char>, lo: int, hi: int, p: spec_fn(char) -> bool)
    requires
        0 <= lo <= hi <= s.len(),
    ensures
        lo <= first_in(s, lo, hi, p) <= hi,
        first_in(s, lo, hi, p) < hi ==> p(s[first_in(s, lo, hi, p)]),
        forall|j: int| lo <= j < first_in(s, lo, hi, p) ==> !p(#[trigger] s[j]),
    decreases hi - lo,
{
    if lo < hi && !p(s[lo]) {
        lemma_first_in(s, lo + 1, hi, p);
    }
}

/// The first char of the Unicode lowercase mapping (`char::to_lowercase`).
pub uninterp spec fn lowercase_head(c: char) -> char;

/// The first char of the lowercase mapping of `c`: an ASCII letter `A`-`Z`
/// maps to `a`-`z` and every other ASCII char to itself (the ASCII rows of
/// the Unicode case tables); beyond ASCII the mapping is named.
pub open spec fn lower_of(c: char) -> char {
    if 'A' <= c && c <= 'Z' {
        ((c as u32) + 32) as char
    } else if (c as u32) < 128 {
        c
    } else {
        lowercase_head(c)
    }
}

/// The first char of the lowercase mapping of `c`: `char::to_lowercase`
/// yields at least one char (the char itself when it has no mapping), and the
/// contract names that first char, spelling out its ASCII part.
#[verifier::external_body]
pub(crate) fn to_lowercase_head(c: char) -> (r: char)
    ensures
        r == lower_of(c),
        (c as u32) >= 128 ==> r == lowercase_head(c),
{
    c.to_lowercase().next().unwrap_or(c)
}

/// The first char of the Unicode uppercase mapping (`char::to_uppercase`).
pub uninterp spec fn uppercase_head(c: char) -> char;

/// The first char of the uppercase mapping of `c`: an ASCII letter `a`-`z`
/// maps to `A`-`Z` and every other ASCII char to itself; beyond ASCII the
/// mapping is named.
pub open spec fn upper_of(c: char) -> char {
    if 'a' <= c && c <= 'z' {
        ((c as u32) - 32) as char
    } else if (c as u32) < 128 {
        c
    } else {
        uppercase_head(c)
    }
}

/// The first char of the uppercase mapping of `c`: `char::to_uppercase`
/// yields at least one char (the char itself when it has no mapping), and the
/// contract names that first char, spelling out its ASCII part.
#[verifier::external_body]
pub(crate) fn to_uppercase_head(c: char) -> (r: char)
    ensures
        r == upper_of(c),
        (c as u32) >= 128 ==> r == uppercase_head(c),
{
    c.to_uppercase().next().unwrap_or(c)
}

/// The Unicode `Uppercase` property of a char (`char::is_uppercase`).
pub uninterp spec fn is_uppercase(c: char) -> bool;

/// Whether `c` has the Unicode `Uppercase` property: among ASCII chars,
/// exactly `A`-`Z`; beyond ASCII the property is named.
pub open spec fn is_upper(c: char) -> bool {
    if (c as u32) < 128 {
        'A' <= c && c <= 'Z'
    } else {
        is_uppercase(c)
    }
}

/// `char::is_uppercase`; the contract spells out the ASCII part and names
/// the rest without restating the Unicode property tables.
#[verifier::external_body]
pub(crate) fn char_is_uppercase(c: char) -> (r: bool)
    ensures
        r == is_upper(c),
        (c as u32) >= 128 ==> r == is_uppercase(c),
{
    c.is_uppercase()
}

} // verus!

verus! {

/// The greatest index `i` in `[0, hi)` with `p(s[i])`, or `-1`.
pub open spec fn last_in(s: Seq<char>, hi: int, p: spec_fn(char) -> bool) -> int
    decreases hi,
{
    if hi <= 0 {
        -1
    } else if p(s[hi - 1]) {
        hi - 1
    } else {
        last_in(s, hi - 1, p)
    }
}

/// `last_in` lands on the last matching index of the range.
pub proof fn lemma_last_in(s: Seq<char>, hi: int, p: spec_fn(char) -> bool)
    requires
        0 <= hi <= s.len(),
    ensures
        -1 <= last_in(s, hi, p) < hi,
        last_in(s, hi, p) >= 0 ==> p(s[last_in(s, hi, p)]),
        forall|j: int| last_in(s, hi, p) < j < hi ==> !p(#[trigger] s[j]),
    decreases hi,
{
    if hi > 0 && !p(s[hi - 1]) {
        lemma_last_in(s, hi - 1, p);
    }
}

/// Two texts whose chars agree on `p` over `[lo, hi)` find the same first
/// match there.
pub proof fn lemma_first_in_agree(s: Seq<char>, t: Seq<char>, lo: int, hi: int, p: spec_fn(char) -> bool)
    requires
        0 <= lo,
        hi <= s.len(),
        hi <= t.len(),
        forall|j: int| lo <= j < hi ==> p(#[trigger] s[j]) == p(t[j]),
    ensures
        first_in(s, lo, hi, p) == first_in(t, lo, hi, p),
    decreases hi - lo,
{
    if lo < hi {
        assert(p(s[lo]) == p(t[lo]));
        lemma_first_in_agree(s, t, lo + 1, hi, p);
    }
}

/// Two texts whose chars agree on `p` below `hi` find the same last match
/// there.
pub proof fn lemma_last_in_agree(s: Seq<char>, t: Seq<char>, hi: int, p: spec_fn(char) -> bool)
    requires
        hi <= s.len(),
        hi <= t.len(),
        forall|j: int| 0 <= j < hi ==> p(#[trigger] s[j]) == p(t[j]),
    ensures
        last_in(s, hi, p) == last_in(t, hi, p),
    decreases hi,
{
    if hi > 0 {
        assert(p(s[hi - 1]) == p(t[hi - 1]));
        lemma_last_in_agree(s, t, hi - 1, p);
    }
}

/// ASCII decimal digits `0`-`9`.
pub open spec fn spec_is_ascii_digit(c: char) -> bool {
    '0' <= c && c <= '9'
}

pub fn is_ascii_digit(c: char) -> (r: bool)
    ensures
        r == spec_is_ascii_digit(c),
{
    c >= '0' && c <= '9'
}

} // verus!

verus! {

/// Lexicographic order on strings by code point, shortest first on a common
/// prefix (the order of `str`'s `Ord`).
pub open spec fn lex_lt(a: Seq<char>, b: Seq<char>) -> bool
    decreases a.len(),
{
    if a.len() == 0 {
        b.len() > 0
    } else if b.len() == 0 {
        false
    } else if a[0] != b[0] {
        a[0] < b[0]
    } else {
        lex_lt(a.drop_first(), b.drop_first())
    }
}

/// No string precedes itself, and no two strings precede each other.
pub proof fn lemma_lex_asymmetric(a: Seq<char>, b: Seq<char>)
    ensures
        !lex_lt(a, a),
        lex_lt(a, b) ==> !lex_lt(b, a),
    decreases a.len(),
{
    if a.len() > 0 {
        lemma_lex_asymmetric(a.drop_first(), a.drop_first());
        if b.len() > 0 && a[0] == b[0] {
            lemma_lex_asymmetric(a.drop_first(), b.drop_first());
        }
    }
}

/// Of two different strings, one precedes the other.
pub proof fn lemma_lex_total(a: Seq<char>, b: Seq<char>)
    requires
        a != b,
    ensures
        lex_lt(a, b) || lex_lt(b, a),
    decreases a.len(),
{
    if a.len() > 0 && b.len() > 0 && a[0] == b[0] {
        if a.drop_first() == b.drop_first() {
            assert(a =~= seq![a[0]] + a.drop_first());
            assert(b =~= seq![b[0]] + b.drop_first());
        }
        lemma_lex_total(a.drop_first(), b.drop_first());
    }
    if a.len() == 0 && b.len() == 0 {
        assert(a =~= b);
    }
}

/// The order is transitive.
pub proof fn lemma_lex_transitive(a: Seq<char>, b: Seq<char>, c: Seq<char>)
    requires
        lex_lt(a, b),
        lex_lt(b, c),
    ensures
        lex_lt(a, c),
    decreases a.len(),
{
    if a.len() > 0 && b.len() > 0 && c.len() > 0 && a[0] == b[0] && b[0] == c[0] {
        lemma_lex_transitive(a.drop_first(), b.drop_first(), c.drop_first());
    }
}

/// `a` precedes `b` in the order [`lex_lt`].
pub fn chars_lt(a: &[char], b: &[char]) -> (r: bool)
    ensures
        r == lex_lt(a@, b@),
{
    let mut i: usize = 0;
    assert(a@.skip(0) =~= a@);
    assert(b@.skip(0) =~= b@);
    while i < a.len() && i < b.len()
        invariant
            i <= a@.len(),
            i <= b@.len(),
            lex_lt(a@, b@) == lex_lt(a@.skip(i as int), b@.skip(i as int)),
        decreases a@.len() - i,
    {
        if a[i] != b[i] {
            return a[i] < b[i];
        }
        assert(a@.skip(i as int).drop_first() =~= a@.skip(i as int + 1));
        assert(b@.skip(i as int).drop_first() =~= b@.skip(i as int + 1));
        i += 1;
    }
    i == a.len() && i < b.len()
}

/// The ASCII digit of `d` (for `d` below ten).
pub open spec fn digit_char(d: nat) -> char {
    if d == 0 {
        '0'
    } else if d == 1 {
        '1'
    } else if d == 2 {
        '2'
    } else if d == 3 {
        '3'
    } else if d == 4 {
        '4'
    } else if d == 5 {
        '5'
    } else if d == 6 {
        '6'
    } else if d == 7 {
        '7'
    } else if d == 8 {
        '8'
    } else {
        '9'
    }
}

/// The ASCII digit of `d` (for `d` below ten).
fn digit_of(d: u64) -> (r: char)
    requires
        d < 10,
    ensures
        r == digit_char(d as nat),
{
    if d == 0 {
        '0'
    } else if d == 1 {
        '1'
    } else if d == 2 {
        '2'
    } else if d == 3 {
        '3'
    } else if d == 4 {
        '4'
    } else if d == 5 {
        '5'
    } else if d == 6 {
        '6'
    } else if d == 7 {
        '7'
    } else if d == 8 {
        '8'
    } else {
        '9'
    }
}

/// The decimal representation of `n`, without leading zeros.
pub open spec fn decimal(n: nat) -> Seq<char>
    decreases n,
{
    if n < 10 {
        seq![digit_char(n)]
    } else {
        decimal(n / 10).push(digit_char(n % 10))
    }
}

/// Append the decimal representation of `n` to `out`.
pub fn push_decimal(out: &mut String, n: u64)
    ensures
        final(out)@ == old(out)@ + decimal(n as nat),
    decreases n,
{
    if n >= 10 {
        push_decimal(out, n / 10);
    }
    let c = digit_of(n % 10);
    push_char(out, c);
    assert(out@ =~= old(out)@ + decimal(n as nat));
}

} // verus!

verus! {

/// The Unicode `White_Space` property, which `char::is_whitespace` tests.
pub open spec fn spec_is_whitespace(c: char) -> bool {
    ('\u{9}' <= c && c <= '\u{d}') || c == ' ' || c == '\u{85}' || c == '\u{a0}' || c == '\u{1680}' || ('\u{2000}'
        <= c && c <= '\u{200a}') || c == '\u{2028}' || c == '\u{2029}' || c == '\u{202f}' || c == '\u{205f}' || c
        == '\u{3000}'
}

/// `true` for the chars with the Unicode `White_Space` property.
pub fn is_whitespace(c: char) -> (r: bool)
    ensures
        r == spec_is_whitespace(c),
{
    (c >= '\u{9}' && c <= '\u{d}') || c == ' ' || c == '\u{85}' || c == '\u{a0}' || c == '\u{1680}' || (c >= '\u{2000}'
        && c <= '\u{200a}') || c == '\u{2028}' || c == '\u{2029}' || c == '\u{202f}' || c == '\u{205f}' || c
        == '\u{3000}'
}

/// Chars other than whitespace.
pub open spec fn non_ws_pred() -> spec_fn(char) -> bool {
    |c: char| !spec_is_whitespace(c)
}

/// `s` without its leading and trailing whitespace.
pub open spec fn trim(s: Seq<char>) -> Seq<char> {
    let lo = first_in(s, 0, s.len() as int, non_ws_pred());
    let hi = last_in(s, s.len() as int, non_ws_pred()) + 1;
    if lo >= s.len() {
        Seq::empty()
    } else {
        s.subrange(lo, hi)
    }
}

/// The chars of `s` without leading and trailing whitespace.
pub fn trimmed_chars(s: &[char]) -> (r: Vec<char>)
    ensures
        r@ == trim(s@),
{
    let n = s.len();
    let mut lo: usize = 0;
    while lo < n && is_whitespace(s[lo])
        invariant
            lo <= n == s@.len(),
            first_in(s@, 0, n as int, non_ws_pred()) == first_in(s@, lo as int, n as int, non_ws_pred()),
        decreases n - lo,
    {
        lo += 1;
    }
    if lo >= n {
        return Vec::new();
    }
    let mut hi: usize = n;
    while hi > 0 && is_whitespace(s[hi - 1])
        invariant
            hi <= n == s@.len(),
            last_in(s@, n as int, non_ws_pred()) == last_in(s@, hi as int, non_ws_pred()),
        decreases hi,
    {
        hi -= 1;
    }
    proof {
        lemma_last_in(s@, n as int, non_ws_pred());
        lemma_last_in(s@, hi as int, non_ws_pred());
        lemma_first_in(s@, lo as int, n as int, non_ws_pred());
        assert(non_ws_pred()(s@[lo as int]));
    }
    let mut r: Vec<char> = Vec::new();
    let mut i: usize = lo;
    while i < hi
        invariant
            lo <= i <= hi <= n == s@.len(),
            r@ == s@.subrange(lo as int, i as int),
        decreases hi - i,
    {
        r.push(s[i]);
        assert(s@.subrange(lo as int, i as int + 1) == s@.subrange(lo as int, i as int).push(s@[i as int]));
        i += 1;
    }
    r
}

/// `s` with ASCII letters mapped to lowercase.
pub open spec fn lower_seq(s: Seq<char>) -> Seq<char> {
    s.map_values(|c: char| spec_ascii_lower(c))
}

/// The chars of `s` with ASCII letters mapped to lowercase.
pub fn ascii_lowercase(s: &[char]) -> (r: Vec<char>)
    ensures
        r@ == lower_seq(s@),
{
    let mut r: Vec<char> = Vec::new();
    let mut i: usize = 0;
    while i < s.len()
        invariant
            i <= s@.len(),
            r@ == lower_seq(s@.take(i as int)),
        decreases s@.len() - i,
    {
        r.push(ascii_lower(s[i]));
        assert(lower_seq(s@.take(i as int + 1)) =~= lower_seq(s@.take(i as int)).push(spec_ascii_lower(s@[i as int])));
        i += 1;
    }
    assert(s@.take(s@.len() as int) =~= s@);
    r
}

/// `s` trimmed of whitespace and lowercased (ASCII): how identifiers are
/// compared.
pub open spec fn normalized_ident(s: Seq<char>) -> Seq<char> {
    lower_seq(trim(s))
}

/// The chars of `s` trimmed of whitespace and lowercased (ASCII).
pub fn ident_chars(s: &str) -> (r: Vec<char>)
    ensures
        r@ == normalized_ident(s@),
{
    let chars = chars_of(s);
    let t = trimmed_chars(chars.as_slice());
    ascii_lowercase(t.as_slice())
}

/// `a` and `b` hold the same chars.
pub fn chars_eq(a: &[char], b: &str) -> (r: bool)
    ensures
        r == (a@ == b@),
{
    let bc = chars_of(b);
    if a.len() != bc.len() {
        return false;
    }
    let mut i: usize = 0;
    while i < a.len()
        invariant
            i <= a@.len() == bc@.len(),
            bc@ == b@,
            forall|j: int| 0 <= j < i ==> a@[j] == bc@[j],
        decreases a@.len() - i,
    {
        if a[i] != bc[i] {
            return false;
        }
        i += 1;
    }
    assert(a@ =~= bc@);
    true
}

} // verus!
