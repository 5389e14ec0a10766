//! Character classes, decimal rendering and the few std string operations
//! that the parser needs.
use vstd::prelude::*;

verus! {

pub open spec fn is_ws_char(c: char) -> bool {
    c == ' ' || c == '\t' || c == '\n' || c == '\x0C' || c == '\r'
}

pub open spec fn is_alpha_char(c: char) -> bool {
    ('a' <= c && c <= 'z') || ('A' <= c && c <= 'Z')
}

pub open spec fn is_digit_char(c: char) -> bool {
    '0' <= c && c <= '9'
}

pub open spec fn is_ident_start_char(c: char) -> bool {
    is_alpha_char(c) || c == '_'
}

pub open spec fn is_ident_char(c: char) -> bool {
    is_alpha_char(c) || is_digit_char(c) || c == '_'
}

/// `char::is_ascii_whitespace`: space, tab, line feed, form feed, carriage return.
pub fn is_ascii_whitespace(c: char) -> (r: bool)
    ensures
        r == is_ws_char(c),
{
    c == ' ' || c == '\t' || c == '\n' || c == '\x0C' || c == '\r'
}

pub fn is_ascii_alphabetic(c: char) -> (r: bool)
    ensures
        r == is_alpha_char(c),
{
    ('a' <= c && c <= 'z') || ('A' <= c && c <= 'Z')
}

pub fn is_ascii_digit(c: char) -> (r: bool)
    ensures
        r == is_digit_char(c),
{
    '0' <= c && c <= '9'
}

pub fn is_identifier_char(c: char) -> (r: bool)
    ensures
        r == is_ident_char(c),
{
    is_ascii_alphabetic(c) || is_ascii_digit(c) || c == '_'
}

/// The character of a decimal digit `d` (0 to 9).
pub open spec fn digit_char(d: int) -> char {
    if d == 0 { '0' }
    else if d == 1 { '1' }
    else if d == 2 { '2' }
    else if d == 3 { '3' }
    else if d == 4 { '4' }
    else if d == 5 { '5' }
    else if d == 6 { '6' }
    else if d == 7 { '7' }
    else if d == 8 { '8' }
    else { '9' }
}

/// The decimal digits of a natural number, most significant first.
pub open spec fn nat_decimal(n: nat) -> Seq<char>
    decreases n,
{
    if n < 10 {
        seq![digit_char(n as int)]
    } else {
        nat_decimal(n / 10) + seq![digit_char((n % 10) as int)]
    }
}

/// How `{}` formats an integer: a minus sign for negative numbers, then the digits.
pub open spec fn decimal(n: int) -> Seq<char> {
    if n < 0 {
        seq!['-'] + nat_decimal((-n) as nat)
    } else {
        nat_decimal(n as nat)
    }
}

/// The value of a sequence of decimal digit characters.
pub open spec fn digits_value(d: Seq<char>) -> int
    decreases d.len(),
{
    if d.len() == 0 {
        0
    } else {
        digits_value(d.drop_last()) * 10 + (d.last() as int - '0' as int)
    }
}

/// Reading back the decimal digits of a natural number gives the number: the digits
/// that `{}` writes are the digits that a numeral is read by, most significant first.
pub proof fn lemma_decimal_round_trip(n: nat)
    ensures
        digits_value(nat_decimal(n)) == n,
        forall|i: int| 0 <= i < nat_decimal(n).len() ==> is_digit_char(#[trigger] nat_decimal(n)[i]),
        nat_decimal(n).len() > 0,
    decreases n,
{
    lemma_digit_char((n % 10) as int);
    if n < 10 {
        let d = nat_decimal(n);
        assert(d.drop_last() =~= Seq::<char>::empty());
        assert(digits_value(d.drop_last()) == 0);
    } else {
        lemma_decimal_round_trip(n / 10);
        let hi = nat_decimal(n / 10);
        let d = nat_decimal(n);
        assert(d.drop_last() =~= hi);
        assert((n / 10) * 10 + n % 10 == n) by (nonlinear_arith);
        assert forall|i: int| 0 <= i < d.len() implies is_digit_char(#[trigger] d[i]) by {
            if i < hi.len() {
                assert(d[i] == hi[i]);
            }
        }
    }
}

proof fn lemma_digit_char(d: int)
    requires
        0 <= d < 10,
    ensures
        digit_char(d) as int - '0' as int == d,
        is_digit_char(digit_char(d)),
{
}

/// A negative number is written as a minus sign and the digits of its magnitude, and
/// reads back as itself.
pub proof fn lemma_signed_decimal_round_trip(n: int)
    ensures
        is_numeral(decimal(n)),
        numeral_value(decimal(n)) == n,
{
    if n < 0 {
        lemma_decimal_round_trip((-n) as nat);
        assert(decimal(n).drop_first() =~= nat_decimal((-n) as nat));
    } else {
        lemma_decimal_round_trip(n as nat);
        assert(nat_decimal(n as nat)[0] != '-');
    }
}

/// At least one character, each a decimal digit.
pub open spec fn all_digits(d: Seq<char>) -> bool {
    &&& d.len() > 0
    &&& forall|i: int| 0 <= i < d.len() ==> is_digit_char(#[trigger] d[i])
}

/// A numeral: an optional minus sign followed by at least one decimal digit.
pub open spec fn is_numeral(t: Seq<char>) -> bool {
    all_digits(if t.len() > 0 && t[0] == '-' { t.drop_first() } else { t })
}

/// The value that a numeral denotes.
pub open spec fn numeral_value(t: Seq<char>) -> int {
    if t.len() > 0 && t[0] == '-' {
        -digits_value(t.drop_first())
    } else {
        digits_value(t)
    }
}

/// `"{line}:{column}: {msg}"`: where a message points in the source.
pub(crate) fn located_message(line: i32, column: i32, msg: &str) -> (r: String)
    ensures
        r@ == decimal(line as int) + ":"@ + decimal(column as int) + ": "@ + msg@,
{
    let l = int_to_text(line);
    let a = concat(l.as_str(), ":");
    let c = int_to_text(column);
    let b = concat(a.as_str(), c.as_str());
    let d = concat(b.as_str(), ": ");
    let r = concat(d.as_str(), msg);
    r
}

/// `String::push`: appends one character.
#[verifier::external_body]
pub(crate) fn push_char(s: &mut String, c: char)
    ensures
        final(s)@ == old(s)@.push(c),
{
    s.push(c)
}

/// What `str::parse` accepts as an integer: an optional `+` or `-` sign (`-` only
/// where `signed`), then at least one ASCII decimal digit, and nothing else.
pub open spec fn int_text(t: Seq<char>, signed: bool) -> bool {
    all_digits(if t.len() > 0 && (t[0] == '+' || (signed && t[0] == '-')) { t.drop_first() } else { t })
}

/// The value of such a text.
pub open spec fn int_text_value(t: Seq<char>) -> int {
    if t.len() > 0 && t[0] == '-' {
        -digits_value(t.drop_first())
    } else if t.len() > 0 && t[0] == '+' {
        digits_value(t.drop_first())
    } else {
        digits_value(t)
    }
}

/// A numeral is an integer text, and denotes the same value.
pub proof fn lemma_numeral_is_int_text(t: Seq<char>)
    requires
        is_numeral(t),
    ensures
        int_text(t, true),
        int_text_value(t) == numeral_value(t),
{
    if !(t.len() > 0 && t[0] == '-') {
        assert(all_digits(t));
        assert(is_digit_char(t[0]));
    }
}

/// `str::parse::<i32>`. Its documentation: the text must be an optional sign followed
/// by digits, and the value must fit in `i32`; anything else is an error. The text of
/// the error is not stated here.
#[verifier::external_body]
pub(crate) fn parse_i32(text: &str) -> (r: Result<i32, String>)
    ensures
        r is Ok <==> (int_text(text@, true) && i32::MIN <= int_text_value(text@) <= i32::MAX),
        r matches Ok(v) ==> v as int == int_text_value(text@),
{
    match text.parse::<i32>() {
        Ok(v) => Ok(v),
        Err(e) => Err(e.to_string()),
    }
}

/// `str::parse::<usize>`. Its documentation: the text must be an optional `+`
/// followed by digits, and the value must fit in `usize`; anything else is an error.
#[verifier::external_body]
pub(crate) fn parse_usize(text: &str) -> (r: Option<usize>)
    ensures
        r is Some <==> (int_text(text@, false) && int_text_value(text@) <= usize::MAX),
        r matches Some(v) ==> v as int == int_text_value(text@),
{
    text.parse::<usize>().ok()
}

/// The text of one decimal digit.
fn digit_text(d: u64) -> (r: &'static str)
    requires
        d < 10,
    ensures
        r@ == seq![digit_char(d as int)],
{
    proof {
        reveal_strlit("0");
        reveal_strlit("1");
        reveal_strlit("2");
        reveal_strlit("3");
        reveal_strlit("4");
        reveal_strlit("5");
        reveal_strlit("6");
        reveal_strlit("7");
        reveal_strlit("8");
        reveal_strlit("9");
    }
    if d == 0 { "0" }
    else if d == 1 { "1" }
    else if d == 2 { "2" }
    else if d == 3 { "3" }
    else if d == 4 { "4" }
    else if d == 5 { "5" }
    else if d == 6 { "6" }
    else if d == 7 { "7" }
    else if d == 8 { "8" }
    else { "9" }
}

/// The decimal digits of a natural number.
fn nat_text(n: u64) -> (r: String)
    ensures
        r@ == nat_decimal(n as nat),
    decreases n,
{
    if n < 10 {
        String::from_str(digit_text(n))
    } else {
        let high = nat_text(n / 10);
        let r = concat(high.as_str(), digit_text(n % 10));
        r
    }
}

/// A `usize` as `{}` formats it: its decimal digits.
pub(crate) fn usize_to_text(n: usize) -> (r: String)
    ensures
        r@ == nat_decimal(n as nat),
{
    nat_text(n as u64)
}

/// An integer as `{}` formats it: a minus sign for negative numbers, then the
/// decimal digits.
pub(crate) fn int_to_text(v: i32) -> (r: String)
    ensures
        r@ == decimal(v as int),
{
    if v < 0 {
        proof {
            reveal_strlit("-");
        }
        let wide: i64 = v as i64;
        let digits = nat_text((-wide) as u64);
        concat("-", digits.as_str())
    } else {
        nat_text(v as u64)
    }
}

/// The two texts one after the other.
pub(crate) fn concat(a: &str, b: &str) -> (r: String)
    ensures
        r@ == a@ + b@,
{
    let s = String::from_str(a);
    s.concat(b)
}

/// Whether two texts hold the same characters.
pub fn same_text(a: &str, b: &str) -> (r: bool)
    ensures
        r == (a@ == b@),
{
    let mut x: Vec<char> = Vec::new();
    for c in it: a.chars()
        invariant
            x@ == it.seq().take(it.index() as int),
    {
        x.push(c);
    }
    let mut y: Vec<char> = Vec::new();
    for c in it: b.chars()
        invariant
            y@ == it.seq().take(it.index() as int),
    {
        y.push(c);
    }
    assert(x@ == a@);
    assert(y@ == b@);
    if x.len() != y.len() {
        return false;
    }
    let mut i: usize = 0;
    while i < x.len()
        invariant
            x@ == a@,
            y@ == b@,
            x.len() == y.len(),
            i <= x.len(),
            forall|j: int| 0 <= j < i ==> x@[j] == y@[j],
        decreases x.len() - i,
    {
        if x[i] != y[i] {
            return false;
        }
        i += 1;
    }
    assert(x@ =~= y@);
    true
}

} // verus!
