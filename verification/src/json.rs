//! JSON primitives for the wire codec: numbers, booleans, strings with
//! escaping, and fixed literal text. Each primitive has a specification-level
//! encoder and parser together with the proof that parsing inverts encoding.

use vstd::prelude::*;
use vstd::arithmetic::div_mod::lemma_fundamental_div_mod;

verus! {

/// `p` occurs in `s` starting at position `i`.
pub open spec fn starts_with(s: Seq<char>, i: int, p: Seq<char>) -> bool {
    &&& 0 <= i
    &&& i + p.len() <= s.len()
    &&& s.subrange(i, i + p.len()) == p
}

/// A prefix made of two parts occurs part by part.
pub proof fn lemma_starts_with_concat(s: Seq<char>, i: int, a: Seq<char>, b: Seq<char>)
    requires
        starts_with(s, i, a + b),
    ensures
        starts_with(s, i, a),
        starts_with(s, i + a.len(), b),
{
    assert(s.subrange(i, i + a.len()) =~= (a + b).subrange(0, a.len() as int));
    assert((a + b).subrange(0, a.len() as int) =~= a);
    assert(s.subrange(i + a.len(), i + a.len() + b.len()) =~= (a + b).subrange(
        a.len() as int,
        (a + b).len() as int,
    ));
    assert((a + b).subrange(a.len() as int, (a + b).len() as int) =~= b);
}

/// Characters of a prefix are the characters of the text it occurs in.
pub proof fn lemma_starts_with_index(s: Seq<char>, i: int, p: Seq<char>, k: int)
    requires
        starts_with(s, i, p),
        0 <= k < p.len(),
    ensures
        s[i + k] == p[k],
{
    assert(s.subrange(i, i + p.len())[k] == s[i + k]);
}

// ---------------------------------------------------------------------------
// Decimal digits
// ---------------------------------------------------------------------------
pub open spec fn is_digit(c: char) -> bool {
    48 <= c as int <= 57
}

pub open spec fn digit_val(c: char) -> int {
    c as int - 48
}

pub open spec fn digit_char(d: int) -> char {
    if d == 0 {
        '0'
    } else if d == 1 {
        '1'
    } else if d == 2 {
        '2'
    } else if d == 3 {
        '3'
    } else if d == 4 {
        '4'
    } else if d == 5 {
        '5'
    } else if d == 6 {
        '6'
    } else if d == 7 {
        '7'
    } else if d == 8 {
        '8'
    } else {
        '9'
    }
}

pub proof fn lemma_digit_char_val(d: int)
    requires
        0 <= d <= 9,
    ensures
        is_digit(digit_char(d)),
        digit_val(digit_char(d)) == d,
{
}

pub open spec fn pow10(n: nat) -> int
    decreases n,
{
    if n == 0 {
        1
    } else {
        10 * pow10((n - 1) as nat)
    }
}

/// The decimal digits of `n`, most significant first.
pub open spec fn dec_digits(n: nat) -> Seq<char>
    decreases n,
{
    if n < 10 {
        seq![digit_char(n as int)]
    } else {
        dec_digits(n / 10).push(digit_char((n % 10) as int))
    }
}

/// The value a sequence of digit characters denotes.
pub open spec fn val_of_digits(ds: Seq<char>) -> int
    decreases ds.len(),
{
    if ds.len() == 0 {
        0
    } else {
        val_of_digits(ds.drop_last()) * 10 + digit_val(ds.last())
    }
}

pub proof fn lemma_dec_digits_facts(n: nat)
    ensures
        dec_digits(n).len() >= 1,
        forall|k: int| 0 <= k < dec_digits(n).len() ==> is_digit(#[trigger] dec_digits(n)[k]),
        val_of_digits(dec_digits(n)) == n,
    decreases n,
{
    if n < 10 {
        lemma_digit_char_val(n as int);
        assert(dec_digits(n).drop_last() =~= Seq::<char>::empty());
        assert(val_of_digits(Seq::<char>::empty()) == 0);
    } else {
        lemma_dec_digits_facts(n / 10);
        lemma_digit_char_val((n % 10) as int);
        lemma_fundamental_div_mod(n as int, 10);
        assert(dec_digits(n).drop_last() =~= dec_digits(n / 10));
        assert(forall|k: int|
            0 <= k < dec_digits(n).len() - 1 ==> #[trigger] dec_digits(n)[k] == dec_digits(
                n / 10,
            )[k]);
    }
}

/// The greedy digit run: consumes digits while they last, folding them onto
/// the accumulator, and stops at the first non-digit.
pub open spec fn parse_digits(s: Seq<char>, i: int, acc: int) -> (int, int)
    decreases s.len() - i,
{
    if 0 <= i < s.len() && is_digit(s[i]) {
        parse_digits(s, i + 1, acc * 10 + digit_val(s[i]))
    } else {
        (acc, i)
    }
}

/// The digit run never loses what the accumulator already holds.
pub proof fn lemma_parse_digits_lower_bound(s: Seq<char>, i: int, acc: int)
    requires
        acc >= 0,
    ensures
        parse_digits(s, i, acc).0 >= acc,
        parse_digits(s, i, acc).0 >= 0,
    decreases s.len() - i,
{
    if 0 <= i < s.len() && is_digit(s[i]) {
        lemma_parse_digits_lower_bound(s, i + 1, acc * 10 + digit_val(s[i]));
    }
}

/// What the digit run computes over an explicit run of digits `s[i..j]`.
pub proof fn lemma_parse_digits_run(s: Seq<char>, i: int, j: int, acc: int)
    requires
        0 <= i <= j <= s.len(),
        forall|k: int| i <= k < j ==> is_digit(#[trigger] s[k]),
        j == s.len() || !is_digit(s[j]),
    ensures
        parse_digits(s, i, acc) == (
            acc * pow10((j - i) as nat) + val_of_digits(s.subrange(i, j)),
            j,
        ),
    decreases j - i,
{
    if i == j {
        assert(s.subrange(i, j) =~= Seq::<char>::empty());
    } else {
        let acc2 = acc * 10 + digit_val(s[i]);
        lemma_parse_digits_run(s, i + 1, j, acc2);
        let d = s.subrange(i, j);
        let d2 = s.subrange(i + 1, j);
        lemma_val_of_digits_head(d);
        assert(d.drop_first() =~= d2);
        assert(d[0] == s[i]);
        let m = (j - i - 1) as nat;
        assert(pow10(((j - i) as nat)) == 10 * pow10(m));
        assert(acc2 * pow10(m) == acc * (10 * pow10(m)) + digit_val(s[i]) * pow10(m))
            by (nonlinear_arith)
            requires
                acc2 == acc * 10 + digit_val(s[i]),
        ;
        assert(acc * (10 * pow10(m)) == acc * pow10((j - i) as nat)) by (nonlinear_arith)
            requires
                pow10((j - i) as nat) == 10 * pow10(m),
        ;
    }
}

/// Splitting off the leading digit of a run.
pub proof fn lemma_val_of_digits_head(ds: Seq<char>)
    requires
        ds.len() >= 1,
    ensures
        val_of_digits(ds) == digit_val(ds[0]) * pow10((ds.len() - 1) as nat) + val_of_digits(
            ds.drop_first(),
        ),
    decreases ds.len(),
{
    if ds.len() == 1 {
        assert(ds.drop_last() =~= Seq::<char>::empty());
        assert(ds.drop_first() =~= Seq::<char>::empty());
    } else {
        let a = ds.drop_last();
        lemma_val_of_digits_head(a);
        assert(a[0] == ds[0]);
        assert(a.drop_first() =~= ds.drop_first().drop_last());
        let m = (a.len() - 1) as nat;
        assert(val_of_digits(ds) == val_of_digits(a) * 10 + digit_val(ds.last()));
        assert(ds.drop_first().last() == ds.last());
        assert(val_of_digits(ds.drop_first()) == val_of_digits(ds.drop_first().drop_last()) * 10
            + digit_val(ds.last()));
        assert(digit_val(ds[0]) * pow10(m) * 10 == digit_val(ds[0]) * (10 * pow10(m)))
            by (nonlinear_arith);
        assert((digit_val(ds[0]) * pow10(m) + val_of_digits(a.drop_first())) * 10 == digit_val(
            ds[0],
        ) * pow10(m) * 10 + val_of_digits(a.drop_first()) * 10) by (nonlinear_arith);
    }
}

// ---------------------------------------------------------------------------
// Unsigned and signed integers
// ---------------------------------------------------------------------------
/// The decimal encoding of an unsigned integer.
pub open spec fn enc_u64(n: u64) -> Seq<char> {
    dec_digits(n as nat)
}

/// Parses an unsigned decimal integer: the greedy digit run, refused when it
/// exceeds the 64-bit range.
pub open spec fn spec_parse_u64(s: Seq<char>, i: int) -> Option<(u64, int)> {
    if 0 <= i < s.len() && is_digit(s[i]) {
        let (v, j) = parse_digits(s, i, 0);
        if 0 <= v <= u64::MAX {
            Some(((v as u64), j))
        } else {
            None
        }
    } else {
        None
    }
}

/// Parsing inverts encoding for unsigned integers, wherever the encoding
/// occurs, provided no further digit follows it.
pub proof fn lemma_parse_u64_rt(n: u64, s: Seq<char>, i: int)
    requires
        starts_with(s, i, enc_u64(n)),
        i + enc_u64(n).len() == s.len() || !is_digit(s[i + enc_u64(n).len()]),
    ensures
        spec_parse_u64(s, i) == Some((n, i + enc_u64(n).len())),
{
    let e = enc_u64(n);
    let j = i + e.len();
    lemma_dec_digits_facts(n as nat);
    assert(s.subrange(i, j) =~= e);
    assert(forall|k: int| i <= k < j ==> is_digit(#[trigger] s[k])) by {
        assert(forall|k: int| i <= k < j ==> #[trigger] s[k] == e[k - i]);
    }
    assert(s[i] == e[0]);
    lemma_parse_digits_run(s, i, j, 0);
    assert(val_of_digits(s.subrange(i, j)) == n as int);
}

/// The decimal encoding of a signed integer: a sign for negatives, then the
/// digits of the magnitude.
pub open spec fn enc_i64(n: i64) -> Seq<char> {
    if n < 0 {
        seq!['-'] + dec_digits((-(n as int)) as nat)
    } else {
        dec_digits(n as nat)
    }
}

/// Parses a signed decimal integer within the 64-bit range.
pub open spec fn spec_parse_i64(s: Seq<char>, i: int) -> Option<(i64, int)> {
    if 0 <= i < s.len() && s[i] == '-' {
        match spec_parse_u64(s, i + 1) {
            Some((mag, j)) => if mag as int <= 0x8000_0000_0000_0000 {
                Some(((-(mag as int)) as i64, j))
            } else {
                None
            },
            None => None,
        }
    } else {
        match spec_parse_u64(s, i) {
            Some((mag, j)) => if mag as int <= i64::MAX as int {
                Some(((mag as int) as i64, j))
            } else {
                None
            },
            None => None,
        }
    }
}

/// Parsing inverts encoding for signed integers.
pub proof fn lemma_parse_i64_rt(n: i64, s: Seq<char>, i: int)
    requires
        starts_with(s, i, enc_i64(n)),
        i + enc_i64(n).len() == s.len() || !is_digit(s[i + enc_i64(n).len()]),
    ensures
        spec_parse_i64(s, i) == Some((n, i + enc_i64(n).len())),
{
    if n < 0 {
        let mag = (-(n as int)) as u64;
        assert(enc_i64(n) =~= seq!['-'] + enc_u64(mag));
        lemma_starts_with_concat(s, i, seq!['-'], enc_u64(mag));
        lemma_starts_with_index(s, i, seq!['-'], 0);
        assert(s[i] == '-');
        lemma_parse_u64_rt(mag, s, i + 1);
        lemma_dec_digits_facts(mag as nat);
    } else {
        assert(enc_i64(n) =~= enc_u64(n as u64));
        lemma_parse_u64_rt(n as u64, s, i);
        lemma_dec_digits_facts(n as nat);
        lemma_starts_with_index(s, i, enc_i64(n), 0);
        assert(s[i] == enc_u64(n as u64)[0]);
        assert(is_digit(s[i]));
        assert(s[i] != '-');
    }
}

// ---------------------------------------------------------------------------
// Booleans and fixed literals
// ---------------------------------------------------------------------------
pub open spec fn enc_bool(b: bool) -> Seq<char> {
    if b {
        seq!['t', 'r', 'u', 'e']
    } else {
        seq!['f', 'a', 'l', 's', 'e']
    }
}

/// Fixed text at a fixed place: succeeds exactly when `lit` occurs at `i`.
pub open spec fn parse_lit(s: Seq<char>, i: int, lit: Seq<char>) -> Option<int> {
    if starts_with(s, i, lit) {
        Some(i + lit.len())
    } else {
        None
    }
}

pub open spec fn spec_parse_bool(s: Seq<char>, i: int) -> Option<(bool, int)> {
    if parse_lit(s, i, enc_bool(true)) is Some {
        Some((true, i + 4))
    } else if parse_lit(s, i, enc_bool(false)) is Some {
        Some((false, i + 5))
    } else {
        None
    }
}

/// Parsing inverts encoding for booleans.
pub proof fn lemma_parse_bool_rt(b: bool, s: Seq<char>, i: int)
    requires
        starts_with(s, i, enc_bool(b)),
    ensures
        spec_parse_bool(s, i) == Some((b, i + enc_bool(b).len())),
{
    if !b {
        if starts_with(s, i, enc_bool(true)) {
            assert(s.subrange(i, i + 4)[0] == s.subrange(i, i + 5)[0]);
            assert(false);
        }
    }
}

// ---------------------------------------------------------------------------
// Strings
// ---------------------------------------------------------------------------
pub open spec fn is_hex(c: char) -> bool {
    48 <= c as int <= 57 || 97 <= c as int <= 102
}

pub open spec fn hex_val(c: char) -> int {
    if 48 <= c as int <= 57 {
        c as int - 48
    } else {
        c as int - 87
    }
}

pub open spec fn hex_char(d: int) -> char {
    if d <= 9 {
        digit_char(d)
    } else if d == 10 {
        'a'
    } else if d == 11 {
        'b'
    } else if d == 12 {
        'c'
    } else if d == 13 {
        'd'
    } else if d == 14 {
        'e'
    } else {
        'f'
    }
}

pub proof fn lemma_hex_char_val(d: int)
    requires
        0 <= d <= 15,
    ensures
        is_hex(hex_char(d)),
        hex_val(hex_char(d)) == d,
{
}

/// A Unicode scalar value: what a `char` may hold.
pub open spec fn valid_scalar(v: int) -> bool {
    (0 <= v < 0xD800) || (0xE000 <= v <= 0x10FFFF)
}

/// The scalar value of a character.
pub open spec fn scalar_of(c: char) -> int {
    c as int
}

/// The character with a given scalar value.
pub open spec fn char_of(v: int) -> char {
    choose|c: char| scalar_of(c) == v
}

pub proof fn lemma_char_of_inverse(c: char)
    ensures
        char_of(c as int) == c,
{
    assert(scalar_of(c) == c as int);
}

/// How one character is written inside a JSON string: the quote, the
/// backslash and the common control characters get two-character escapes,
/// the remaining control characters a four-digit hexadecimal escape, and
/// everything else stands for itself.
pub open spec fn esc_char(c: char) -> Seq<char> {
    if c == '"' {
        seq!['\\', '"']
    } else if c == '\\' {
        seq!['\\', '\\']
    } else if c == '\n' {
        seq!['\\', 'n']
    } else if c == '\r' {
        seq!['\\', 'r']
    } else if c == '\t' {
        seq!['\\', 't']
    } else if 0 <= (c as int) && (c as int) < 32 {
        seq!['\\', 'u', '0', '0', hex_char(c as int / 16), hex_char(c as int % 16)]
    } else {
        seq![c]
    }
}

/// The body of an encoded JSON string, without the surrounding quotes.
pub open spec fn enc_str_body(t: Seq<char>) -> Seq<char>
    decreases t.len(),
{
    if t.len() == 0 {
        Seq::empty()
    } else {
        esc_char(t[0]) + enc_str_body(t.drop_first())
    }
}

/// A whole encoded JSON string.
pub open spec fn enc_string(t: Seq<char>) -> Seq<char> {
    seq!['"'] + enc_str_body(t) + seq!['"']
}

/// Appending one character to the text appends its escape to the encoding.
pub proof fn lemma_enc_str_body_push(t: Seq<char>, c: char)
    ensures
        enc_str_body(t.push(c)) == enc_str_body(t) + esc_char(c),
    decreases t.len(),
{
    if t.len() == 0 {
        assert(t.push(c)[0] == c);
        assert(t.push(c).drop_first() =~= Seq::<char>::empty());
        assert(enc_str_body(Seq::<char>::empty()) =~= Seq::<char>::empty());
        assert(enc_str_body(t.push(c)) =~= esc_char(c));
        assert(enc_str_body(t) + esc_char(c) =~= esc_char(c));
    } else {
        assert(t.push(c).drop_first() =~= t.drop_first().push(c));
        lemma_enc_str_body_push(t.drop_first(), c);
        assert(t.push(c)[0] == t[0]);
        assert(esc_char(t[0]) + (enc_str_body(t.drop_first()) + esc_char(c)) =~= (esc_char(t[0])
            + enc_str_body(t.drop_first())) + esc_char(c));
    }
}

/// What a two-character escape denotes, if it is one.
pub open spec fn unescape_short(e: char) -> Option<char> {
    if e == '"' {
        Some('"')
    } else if e == '\\' {
        Some('\\')
    } else if e == '/' {
        Some('/')
    } else if e == 'n' {
        Some('\n')
    } else if e == 'r' {
        Some('\r')
    } else if e == 't' {
        Some('\t')
    } else if e == 'b' {
        Some('\u{0008}')
    } else if e == 'f' {
        Some('\u{000C}')
    } else {
        None
    }
}

pub open spec fn cons_parsed(c: char, r: Option<(Seq<char>, int)>) -> Option<(Seq<char>, int)> {
    match r {
        Some((t, j)) => Some((seq![c] + t, j)),
        None => None,
    }
}

/// Parses the body of a JSON string up to and including the closing quote,
/// undoing the escapes that [`esc_char`] and the common JSON writers use.
pub open spec fn parse_str_body(s: Seq<char>, i: int) -> Option<(Seq<char>, int)>
    decreases s.len() - i,
{
    if i < 0 || i >= s.len() {
        None
    } else if s[i] == '"' {
        Some((Seq::empty(), i + 1))
    } else if s[i] == '\\' {
        if i + 1 >= s.len() {
            None
        } else if s[i + 1] == 'u' {
            if i + 5 >= s.len() {
                None
            } else if is_hex(s[i + 2]) && is_hex(s[i + 3]) && is_hex(s[i + 4]) && is_hex(
                s[i + 5],
            ) {
                let v = ((hex_val(s[i + 2]) * 16 + hex_val(s[i + 3])) * 16 + hex_val(s[i + 4]))
                    * 16 + hex_val(s[i + 5]);
                if valid_scalar(v) {
                    cons_parsed(char_of(v), parse_str_body(s, i + 6))
                } else {
                    None
                }
            } else {
                None
            }
        } else {
            match unescape_short(s[i + 1]) {
                Some(c) => cons_parsed(c, parse_str_body(s, i + 2)),
                None => None,
            }
        }
    } else {
        cons_parsed(s[i], parse_str_body(s, i + 1))
    }
}

/// Parses a whole JSON string, quotes included.
pub open spec fn spec_parse_string(s: Seq<char>, i: int) -> Option<(Seq<char>, int)> {
    if 0 <= i < s.len() && s[i] == '"' {
        parse_str_body(s, i + 1)
    } else {
        None
    }
}

/// Parsing inverts encoding for string bodies, wherever the encoding occurs.
pub proof fn lemma_parse_str_body_rt(t: Seq<char>, s: Seq<char>, i: int)
    requires
        starts_with(s, i, enc_str_body(t) + seq!['"']),
    ensures
        parse_str_body(s, i) == Some((t, i + enc_str_body(t).len() + 1)),
    decreases t.len(),
{
    if t.len() == 0 {
        assert(enc_str_body(t) + seq!['"'] =~= seq!['"']);
        lemma_starts_with_index(s, i, seq!['"'], 0);
        assert(s[i] == '"');
    } else {
        let c = t[0];
        let e = esc_char(c);
        assert(enc_str_body(t) + seq!['"'] =~= e + (enc_str_body(t.drop_first()) + seq!['"']));
        lemma_starts_with_concat(s, i, e, enc_str_body(t.drop_first()) + seq!['"']);
        lemma_parse_str_body_rt(t.drop_first(), s, i + e.len());
        assert forall|k: int| 0 <= k < e.len() implies s[i + k] == #[trigger] e[k] by {
            lemma_starts_with_index(s, i, e, k);
        }
        if c == '"' || c == '\\' || c == '\n' || c == '\r' || c == '\t' {
            assert(s[i] == '\\');
            assert(seq![c] + t.drop_first() =~= t);
        } else if 0 <= (c as int) && (c as int) < 32 {
            assert(s[i] == '\\' && s[i + 1] == 'u' && s[i + 2] == '0' && s[i + 3] == '0');
            assert(s[i + 4] == hex_char(c as int / 16) && s[i + 5] == hex_char(c as int % 16));
            lemma_hex_char_val(c as int / 16);
            lemma_hex_char_val(c as int % 16);
            lemma_digit_char_val(0);
            lemma_fundamental_div_mod(c as int, 16);
            let v = ((hex_val(s[i + 2]) * 16 + hex_val(s[i + 3])) * 16 + hex_val(s[i + 4])) * 16
                + hex_val(s[i + 5]);
            assert(v == c as int);
            assert(valid_scalar(v));
            lemma_char_of_inverse(c);
            assert(seq![c] + t.drop_first() =~= t);
        } else {
            assert(e[0] == c);
            assert(s[i] == c);
            assert(s[i] != '"' && s[i] != '\\');
            assert(seq![c] + t.drop_first() =~= t);
        }
    }
}

/// Parsing inverts encoding for whole strings.
pub proof fn lemma_parse_string_rt(t: Seq<char>, s: Seq<char>, i: int)
    requires
        starts_with(s, i, enc_string(t)),
    ensures
        spec_parse_string(s, i) == Some((t, i + enc_string(t).len())),
{
    assert(enc_string(t) =~= seq!['"'] + (enc_str_body(t) + seq!['"']));
    lemma_starts_with_concat(s, i, seq!['"'], enc_str_body(t) + seq!['"']);
    lemma_starts_with_index(s, i, seq!['"'], 0);
    assert(s[i] == '"');
    lemma_parse_str_body_rt(t, s, i + 1);
}

// ---------------------------------------------------------------------------
// Executable parsers
// ---------------------------------------------------------------------------
/// Relies on char::from_u32: it returns the character with the given scalar
/// value exactly when that value is a Unicode scalar value.
pub assume_specification[ char::from_u32 ](v: u32) -> (r: Option<char>)
    ensures
        r is Some <==> valid_scalar(v as int),
        r matches Some(c) ==> c as int == v as int,
;

/// Whether two pieces of text hold the same characters.
pub fn str_eq(a: &str, b: &str) -> (r: bool)
    ensures
        r == (a@ == b@),
{
    let n = a.unicode_len();
    if n != b.unicode_len() {
        return false;
    }
    let mut k: usize = 0;
    while k < n
        invariant
            k <= n,
            n == a@.len(),
            n == b@.len(),
            forall|m: int| 0 <= m < k ==> a@[m] == b@[m],
        decreases n - k,
    {
        if a.get_char(k) != b.get_char(k) {
            return false;
        }
        k = k + 1;
    }
    proof {
        assert(a@ =~= b@);
    }
    true
}

/// Whether a character is a decimal digit.
pub fn is_digit_char(c: char) -> (r: bool)
    ensures
        r == is_digit(c),
{
    let v = c as u32;
    48 <= v && v <= 57
}

/// Matches fixed literal text at a position.
pub fn expect_lit(s: &Vec<char>, i: usize, lit: &str) -> (r: Option<usize>)
    ensures
        match r {
            Some(j) => parse_lit(s@, i as int, lit@) == Some(j as int),
            None => parse_lit(s@, i as int, lit@) is None,
        },
{
    let len = s.len();
    let n = lit.unicode_len();
    if i > len || n > len - i {
        return None;
    }
    let mut k: usize = 0;
    while k < n
        invariant
            len == s@.len(),
            i + n <= len,
            n == lit@.len(),
            k <= n,
            forall|m: int| 0 <= m < k ==> s@[i + m] == lit@[m],
        decreases n - k,
    {
        if s[i + k] != lit.get_char(k) {
            proof {
                if starts_with(s@, i as int, lit@) {
                    lemma_starts_with_index(s@, i as int, lit@, k as int);
                }
            }
            return None;
        }
        k = k + 1;
    }
    proof {
        assert(s@.subrange(i as int, i + n) =~= lit@);
    }
    Some(i + n)
}

/// Parses an unsigned decimal integer.
pub fn parse_u64_at(s: &Vec<char>, i: usize) -> (r: Option<(u64, usize)>)
    ensures
        match r {
            Some(p) => spec_parse_u64(s@, i as int) == Some((p.0, p.1 as int)),
            None => spec_parse_u64(s@, i as int) is None,
        },
{
    if i >= s.len() {
        return None;
    }
    let mut j: usize = i;
    let mut acc: u128 = 0;
    while j < s.len() && is_digit_char(s[j])
        invariant
            i <= j <= s@.len(),
            0 <= acc <= u64::MAX as u128,
            parse_digits(s@, i as int, 0) == parse_digits(s@, j as int, acc as int),
            j > i ==> i < s@.len() && is_digit(s@[i as int]),
        decreases s@.len() - j,
    {
        let d = (s[j] as u32) - 48;
        proof {
            assert(parse_digits(s@, j as int, acc as int) == parse_digits(
                s@,
                j + 1,
                (acc as int) * 10 + digit_val(s@[j as int]),
            ));
        }
        acc = acc * 10 + (d as u128);
        j = j + 1;
        if acc > (u64::MAX as u128) {
            proof {
                lemma_parse_digits_lower_bound(s@, j as int, acc as int);
            }
            return None;
        }
    }
    if j == i {
        return None;
    }
    Some((acc as u64, j))
}

/// Parses a signed decimal integer.
pub fn parse_i64_at(s: &Vec<char>, i: usize) -> (r: Option<(i64, usize)>)
    ensures
        match r {
            Some(p) => spec_parse_i64(s@, i as int) == Some((p.0, p.1 as int)),
            None => spec_parse_i64(s@, i as int) is None,
        },
{
    if i < s.len() && s[i] == '-' {
        match parse_u64_at(s, i + 1) {
            Some((mag, j)) => {
                if mag <= i64::MAX as u64 {
                    Some((-(mag as i64), j))
                } else if mag == 0x8000_0000_0000_0000u64 {
                    Some((i64::MIN, j))
                } else {
                    None
                }
            },
            None => None,
        }
    } else {
        proof {
            if 0 <= (i as int) && (i as int) < s@.len() {
                assert(s@[i as int] != '-');
            }
        }
        match parse_u64_at(s, i) {
            Some((mag, j)) => {
                if mag <= i64::MAX as u64 {
                    Some((mag as i64, j))
                } else {
                    None
                }
            },
            None => None,
        }
    }
}

/// Parses a boolean literal.
pub fn parse_bool_at(s: &Vec<char>, i: usize) -> (r: Option<(bool, usize)>)
    ensures
        match r {
            Some(p) => spec_parse_bool(s@, i as int) == Some((p.0, p.1 as int)),
            None => spec_parse_bool(s@, i as int) is None,
        },
{
    proof {
        reveal_strlit("true");
        reveal_strlit("false");
        assert("true"@ =~= enc_bool(true));
        assert("false"@ =~= enc_bool(false));
    }
    match expect_lit(s, i, "true") {
        Some(j) => Some((true, j)),
        None => {
            match expect_lit(s, i, "false") {
                Some(j) => Some((false, j)),
                None => None,
            }
        },
    }
}

/// Prepending already-parsed text to the rest of a string-body parse.
pub open spec fn cons_all(pre: Seq<char>, r: Option<(Seq<char>, int)>) -> Option<
    (Seq<char>, int),
> {
    match r {
        Some((t, j)) => Some((pre + t, j)),
        None => None,
    }
}

pub proof fn lemma_cons_all_push(pre: Seq<char>, c: char, r: Option<(Seq<char>, int)>)
    ensures
        cons_all(pre, cons_parsed(c, r)) == cons_all(pre.push(c), r),
{
    match r {
        Some((t, j)) => {
            assert(pre + (seq![c] + t) =~= pre.push(c) + t);
        },
        None => {},
    }
}

/// What a two-character escape denotes, executably.
pub fn unescape_short_char(e: char) -> (r: Option<char>)
    ensures
        r == unescape_short(e),
{
    if e == '"' {
        Some('"')
    } else if e == '\\' {
        Some('\\')
    } else if e == '/' {
        Some('/')
    } else if e == 'n' {
        Some('\n')
    } else if e == 'r' {
        Some('\r')
    } else if e == 't' {
        Some('\t')
    } else if e == 'b' {
        Some('\u{0008}')
    } else if e == 'f' {
        Some('\u{000C}')
    } else {
        None
    }
}

/// Whether a character is a lowercase hexadecimal digit.
pub fn is_hex_char(c: char) -> (r: bool)
    ensures
        r == is_hex(c),
{
    let v = c as u32;
    (48 <= v && v <= 57) || (97 <= v && v <= 102)
}

/// The value of a hexadecimal digit.
pub fn hex_val_char(c: char) -> (r: u32)
    requires
        is_hex(c),
    ensures
        r as int == hex_val(c),
{
    let v = c as u32;
    if v <= 57 {
        v - 48
    } else {
        v - 87
    }
}

/// Parses a JSON string, quotes and escapes included.
pub fn parse_string_at(s: &Vec<char>, i: usize) -> (r: Option<(Vec<char>, usize)>)
    ensures
        match r {
            Some(p) => spec_parse_string(s@, i as int) == Some((p.0@, p.1 as int)),
            None => spec_parse_string(s@, i as int) is None,
        },
{
    if i >= s.len() || s[i] != '"' {
        return None;
    }
    let mut j: usize = i + 1;
    let mut acc: Vec<char> = Vec::new();
    loop
        invariant
            i + 1 <= j <= s@.len(),
            s@[i as int] == '"',
            i < s@.len(),
            parse_str_body(s@, i + 1) == cons_all(acc@, parse_str_body(s@, j as int)),
        decreases s@.len() - j,
    {
        if j >= s.len() {
            return None;
        }
        let c = s[j];
        if c == '"' {
            return Some((acc, j + 1));
        } else if c == '\\' {
            if s.len() - j <= 1 {
                return None;
            }
            let e = s[j + 1];
            if e == 'u' {
                if s.len() - j <= 5 {
                    return None;
                }
                if !(is_hex_char(s[j + 2]) && is_hex_char(s[j + 3]) && is_hex_char(s[j + 4])
                    && is_hex_char(s[j + 5])) {
                    return None;
                }
                let v = ((hex_val_char(s[j + 2]) * 16 + hex_val_char(s[j + 3])) * 16
                    + hex_val_char(s[j + 4])) * 16 + hex_val_char(s[j + 5]);
                match char::from_u32(v) {
                    Some(ch) => {
                        proof {
                            lemma_char_of_inverse(ch);
                            lemma_cons_all_push(acc@, ch, parse_str_body(s@, j + 6));
                        }
                        acc.push(ch);
                        j = j + 6;
                    },
                    None => {
                        return None;
                    },
                }
            } else {
                match unescape_short_char(e) {
                    Some(ch) => {
                        proof {
                            lemma_cons_all_push(acc@, ch, parse_str_body(s@, j + 2));
                        }
                        acc.push(ch);
                        j = j + 2;
                    },
                    None => {
                        return None;
                    },
                }
            }
        } else {
            proof {
                lemma_cons_all_push(acc@, c, parse_str_body(s@, j + 1));
            }
            acc.push(c);
            j = j + 1;
        }
    }
}

// ---------------------------------------------------------------------------
// Executable encoders
// ---------------------------------------------------------------------------
/// Appends fixed literal text.
pub fn push_lit(out: &mut Vec<char>, lit: &str)
    ensures
        final(out)@ == old(out)@ + lit@,
{
    let ghost base = out@;
    let n = lit.unicode_len();
    let mut k: usize = 0;
    while k < n
        invariant
            k <= n,
            n == lit@.len(),
            out@ == base + lit@.take(k as int),
        decreases n - k,
    {
        out.push(lit.get_char(k));
        proof {
            assert(out@ =~= base + lit@.take(k + 1));
        }
        k = k + 1;
    }
    proof {
        assert(lit@.take(n as int) =~= lit@);
    }
}

/// The character of a decimal digit.
pub fn digit_char_of(d: u64) -> (c: char)
    requires
        d <= 9,
    ensures
        c == digit_char(d as int),
{
    if d == 0 {
        '0'
    } else if d == 1 {
        '1'
    } else if d == 2 {
        '2'
    } else if d == 3 {
        '3'
    } else if d == 4 {
        '4'
    } else if d == 5 {
        '5'
    } else if d == 6 {
        '6'
    } else if d == 7 {
        '7'
    } else if d == 8 {
        '8'
    } else {
        '9'
    }
}

/// Appends the decimal encoding of an unsigned integer.
pub fn push_u64(out: &mut Vec<char>, n: u64)
    ensures
        final(out)@ == old(out)@ + enc_u64(n),
    decreases n,
{
    if n >= 10 {
        push_u64(out, n / 10);
        out.push(digit_char_of(n % 10));
        proof {
            assert(out@ =~= old(out)@ + enc_u64(n));
        }
    } else {
        out.push(digit_char_of(n));
        proof {
            assert(out@ =~= old(out)@ + enc_u64(n));
        }
    }
}

/// Appends the decimal encoding of a signed integer.
pub fn push_i64(out: &mut Vec<char>, n: i64)
    ensures
        final(out)@ == old(out)@ + enc_i64(n),
{
    if n < 0 {
        out.push('-');
        let mag: u64 = if n == i64::MIN {
            0x8000_0000_0000_0000u64
        } else {
            (-n) as u64
        };
        push_u64(out, mag);
        proof {
            assert(mag as int == -(n as int));
            assert(out@ =~= old(out)@ + enc_i64(n));
        }
    } else {
        push_u64(out, n as u64);
        proof {
            assert(enc_i64(n) =~= enc_u64(n as u64));
        }
    }
}

/// Appends a boolean literal.
pub fn push_bool(out: &mut Vec<char>, b: bool)
    ensures
        final(out)@ == old(out)@ + enc_bool(b),
{
    proof {
        reveal_strlit("true");
        reveal_strlit("false");
        assert("true"@ =~= enc_bool(true));
        assert("false"@ =~= enc_bool(false));
    }
    if b {
        push_lit(out, "true");
    } else {
        push_lit(out, "false");
    }
}

/// The character of a hexadecimal digit.
pub fn hex_char_of(d: u32) -> (c: char)
    requires
        d <= 15,
    ensures
        c == hex_char(d as int),
{
    if d <= 9 {
        digit_char_of(d as u64)
    } else if d == 10 {
        'a'
    } else if d == 11 {
        'b'
    } else if d == 12 {
        'c'
    } else if d == 13 {
        'd'
    } else if d == 14 {
        'e'
    } else {
        'f'
    }
}

/// Appends the escape of one string character.
pub fn push_esc_char(out: &mut Vec<char>, c: char)
    ensures
        final(out)@ == old(out)@ + esc_char(c),
{
    if c == '"' {
        out.push('\\');
        out.push('"');
        proof {
            assert(out@ =~= old(out)@ + esc_char(c));
        }
    } else if c == '\\' {
        out.push('\\');
        out.push('\\');
        proof {
            assert(out@ =~= old(out)@ + esc_char(c));
        }
    } else if c == '\n' {
        out.push('\\');
        out.push('n');
        proof {
            assert(out@ =~= old(out)@ + esc_char(c));
        }
    } else if c == '\r' {
        out.push('\\');
        out.push('r');
        proof {
            assert(out@ =~= old(out)@ + esc_char(c));
        }
    } else if c == '\t' {
        out.push('\\');
        out.push('t');
        proof {
            assert(out@ =~= old(out)@ + esc_char(c));
        }
    } else {
        let v = c as u32;
        if v < 32 {
            out.push('\\');
            out.push('u');
            out.push('0');
            out.push('0');
            out.push(hex_char_of(v / 16));
            out.push(hex_char_of(v % 16));
            proof {
                assert(out@ =~= old(out)@ + esc_char(c));
            }
        } else {
            out.push(c);
            proof {
                assert(out@ =~= old(out)@ + esc_char(c));
            }
        }
    }
}

/// Appends a whole encoded JSON string, quotes included.
pub fn push_string(out: &mut Vec<char>, t: &str)
    ensures
        final(out)@ == old(out)@ + enc_string(t@),
{
    out.push('"');
    let ghost base = out@;
    let n = t.unicode_len();
    let mut k: usize = 0;
    while k < n
        invariant
            k <= n,
            n == t@.len(),
            out@ == base + enc_str_body(t@.take(k as int)),
        decreases n - k,
    {
        let ghost prev = out@;
        let c = t.get_char(k);
        push_esc_char(out, c);
        proof {
            assert(t@.take(k + 1) =~= t@.take(k as int).push(c));
            lemma_enc_str_body_push(t@.take(k as int), c);
            assert(out@ =~= base + enc_str_body(t@.take(k + 1)));
        }
        k = k + 1;
    }
    out.push('"');
    proof {
        assert(t@.take(n as int) =~= t@);
        assert(out@ =~= old(out)@ + enc_string(t@));
    }
}

} // verus!
