//! Building text a character at a time, so that what a message says can be
//! stated exactly.

use vstd::prelude::*;
use vstd::utf8::{decode_utf8, valid_utf8};

verus! {

/// `String::push`: appends one character to the end of the string.
pub assume_specification[ String::push ](s: &mut String, c: char)
    ensures
        final(s)@ == old(s)@.push(c),
;

/// What `String::from_utf8_lossy` makes of bytes that are not text.
pub uninterp spec fn lossy_text(bytes: Seq<u8>) -> Seq<char>;

/// Bytes as text: what they encode, where they encode something.
pub open spec fn text_of(bytes: Seq<u8>) -> Seq<char> {
    if valid_utf8(bytes) {
        decode_utf8(bytes)
    } else {
        lossy_text(bytes)
    }
}

/// `String::from_utf8_lossy`: valid UTF-8 comes back as the text it encodes,
/// and anything else as text that depends on the bytes alone.
#[verifier::external_body]
pub(crate) fn text_lossy(bytes: &[u8]) -> (r: String)
    ensures
        r@ == (if valid_utf8(bytes@) {
            decode_utf8(bytes@)
        } else {
            lossy_text(bytes@)
        }),
{
    String::from_utf8_lossy(bytes).into_owned()
}

/// `std::str::from_utf8`: the text that valid UTF-8 encodes, and nothing for
/// bytes that are not valid UTF-8.
#[verifier::external_body]
pub(crate) fn text_in(bytes: &[u8]) -> (r: Option<String>)
    ensures
        r is Some <==> valid_utf8(bytes@),
        r matches Some(text) ==> text@ == decode_utf8(bytes@),
{
    match std::str::from_utf8(bytes) {
        Ok(text) => Some(text.to_owned()),
        Err(_) => None,
    }
}

/// The characters of a string, in order.
pub fn chars_of(s: &str) -> (r: Vec<char>)
    ensures
        r@ == s@,
{
    let mut out: Vec<char> = Vec::new();
    for c in it: s.chars()
        invariant
            it.seq() == s@,
            out@ == s@.take(it.index() as int),
    {
        out.push(c);
        assert(out@ =~= s@.take(it.index() as int + 1));
    }
    assert(s@.take(s@.len() as int) =~= s@);
    out
}

/// A character's code point.
pub fn code_of(c: char) -> (r: u32)
    ensures
        r as int == c as int,
{
    proof {
        vstd::utf8::char_is_scalar(c);
        assert(0 <= c as int <= 0x10ffff);
    }
    c as u32
}

/// The text made of these characters.
pub fn string_of(chars: &[char]) -> (r: String)
    ensures
        r@ == chars@,
{
    let mut out: String = String::new();
    push_chars(&mut out, chars);
    assert(out@ =~= chars@);
    out
}

pub fn push_chars(out: &mut String, chars: &[char])
    ensures
        final(out)@ == old(out)@ + chars@,
{
    let mut i: usize = 0;
    while i < chars.len()
        invariant
            i <= chars@.len(),
            out@ == old(out)@ + chars@.take(i as int),
        decreases chars@.len() - i,
    {
        out.push(chars[i]);
        assert(out@ =~= old(out)@ + chars@.take(i + 1));
        i = i + 1;
    }
    assert(chars@.take(chars@.len() as int) =~= chars@);
}

/// A copy of some bytes.
pub fn copied(bytes: &[u8]) -> (r: Vec<u8>)
    ensures
        r@ == bytes@,
{
    let mut out: Vec<u8> = Vec::new();
    out.extend_from_slice(bytes);
    assert(out@ =~= bytes@);
    out
}

/// Whether two runs of bytes are the same.
pub fn same_bytes(a: &[u8], b: &[u8]) -> (r: bool)
    ensures
        r == (a@ == b@),
{
    if a.len() != b.len() {
        return false;
    }
    let mut i: usize = 0;
    while i < a.len()
        invariant
            i <= a@.len(),
            a@.len() == b@.len(),
            a@.take(i as int) == b@.take(i as int),
        decreases a@.len() - i,
    {
        if a[i] != b[i] {
            return false;
        }
        assert(a@.take(i + 1) =~= a@.take(i as int).push(a@[i as int]));
        assert(b@.take(i + 1) =~= b@.take(i as int).push(b@[i as int]));
        i = i + 1;
    }
    assert(a@.take(a@.len() as int) =~= a@);
    assert(b@.take(b@.len() as int) =~= b@);
    true
}

/// A number in decimal, most significant digit first, as ASCII bytes.
pub open spec fn digits(n: nat) -> Seq<u8>
    decreases n,
{
    if n < 10 {
        seq![(48 + n) as u8]
    } else {
        digits(n / 10).push((48 + n % 10) as u8)
    }
}

/// A number in decimal, as text.
pub open spec fn decimal(n: nat) -> Seq<char>
    decreases n,
{
    if n < 10 {
        seq![(48 + n) as char]
    } else {
        decimal(n / 10).push((48 + n % 10) as char)
    }
}

/// The ASCII character of a decimal digit.
fn digit_char(d: u8) -> (r: char)
    requires
        d < 10,
    ensures
        r == (48 + d) as char,
{
    (48 + d) as char
}

pub fn push_digits(out: &mut Vec<u8>, n: u64)
    ensures
        final(out)@ == old(out)@ + digits(n as nat),
    decreases n,
{
    if n >= 10 {
        push_digits(out, n / 10);
    }
    out.push(48 + (n % 10) as u8);
    assert(out@ =~= old(out)@ + digits(n as nat));
}

pub fn push_decimal(out: &mut String, n: u128)
    ensures
        final(out)@ == old(out)@ + decimal(n as nat),
    decreases n,
{
    if n >= 10 {
        push_decimal(out, n / 10);
    }
    out.push(digit_char((n % 10) as u8));
    assert(out@ =~= old(out)@ + decimal(n as nat));
}

/// A number that may be negative, as text.
pub open spec fn signed_decimal(n: int) -> Seq<char> {
    if n < 0 {
        seq!['-'] + decimal((-n) as nat)
    } else {
        decimal(n as nat)
    }
}

pub fn push_signed(out: &mut String, n: i64)
    ensures
        final(out)@ == old(out)@ + signed_decimal(n as int),
{
    if n < 0 {
        out.push('-');
        push_decimal(out, (-(n as i128)) as u128);
    } else {
        push_decimal(out, n as u128);
    }
    assert(out@ =~= old(out)@ + signed_decimal(n as int));
}

/// A number in decimal, in a string of its own.
pub fn decimal_text(n: u128) -> (r: String)
    ensures
        r@ == decimal(n as nat),
{
    let mut out: String = String::new();
    push_decimal(&mut out, n);
    assert(out@ =~= decimal(n as nat));
    out
}

pub fn signed_text(n: i64) -> (r: String)
    ensures
        r@ == signed_decimal(n as int),
{
    let mut out: String = String::new();
    push_signed(&mut out, n);
    assert(out@ =~= signed_decimal(n as int));
    out
}

/// What `str`'s `Debug` makes of a text.
pub uninterp spec fn quoted(s: Seq<char>) -> Seq<char>;

/// `<str as Debug>::fmt` through `format!`: the text in double quotes, with
/// what cannot be shown escaped. It depends on the text alone.
#[verifier::external_body]
pub(crate) fn quote(s: &str) -> (r: String)
    ensures
        r@ == quoted(s@),
{
    format!("{:?}", s)
}

/// A number under a hundred in two digits.
pub open spec fn two_digits(n: nat) -> Seq<char> {
    seq![(48 + n / 10) as char, (48 + n % 10) as char]
}

pub fn push_two_digits(out: &mut String, n: u8)
    requires
        n < 100,
    ensures
        final(out)@ == old(out)@ + two_digits(n as nat),
{
    out.push(digit_char(n / 10));
    out.push(digit_char(n % 10));
    assert(out@ =~= old(out)@ + two_digits(n as nat));
}

pub open spec fn is_digit(b: u8) -> bool {
    48 <= b <= 57
}

/// The value of a run of decimal digits.
pub open spec fn value_of(s: Seq<u8>) -> nat
    decreases s.len(),
{
    if s.len() == 0 {
        0
    } else {
        value_of(s.drop_last()) * 10 + (s.last() - 48) as nat
    }
}

/// A number without the plus it may start with.
pub open spec fn without_plus(s: Seq<u8>) -> Seq<u8> {
    if s.len() > 0 && s[0] == 43 {
        s.skip(1)
    } else {
        s
    }
}

pub open spec fn all_digits(s: Seq<u8>) -> bool {
    forall|i: int| 0 <= i < s.len() ==> is_digit(#[trigger] s[i])
}

/// What a run of bytes reads as: digits only, at least one of them, an
/// optional plus in front, and no more than `max`.
pub open spec fn number_in(s: Seq<u8>, max: nat) -> Option<nat> {
    let ds = without_plus(s);
    if ds.len() > 0 && all_digits(ds) && value_of(ds) <= max {
        Some(value_of(ds))
    } else {
        None
    }
}

proof fn lemma_value_grows(s: Seq<u8>, i: int)
    requires
        0 <= i <= s.len(),
        all_digits(s),
    ensures
        value_of(s.take(i)) <= value_of(s),
    decreases s.len() - i,
{
    if i < s.len() {
        lemma_value_grows(s, i + 1);
        assert(s.take(i + 1).drop_last() =~= s.take(i));
    } else {
        assert(s.take(i) =~= s);
    }
}

/// Reads an unsigned number that must not pass `max`.
pub fn parse_number(s: &[u8], max: u64) -> (r: Option<u64>)
    ensures
        r matches Some(n) ==> number_in(s@, max as nat) == Some(n as nat),
        r is None ==> number_in(s@, max as nat) is None,
{
    let from: usize = if s.len() > 0 && s[0] == 43 {
        1
    } else {
        0
    };
    let ghost ds = s@.skip(from as int);
    assert(ds =~= without_plus(s@));
    if from == s.len() {
        return None;
    }
    let mut n: u64 = 0;
    let mut i: usize = from;
    while i < s.len()
        invariant
            from <= i <= s@.len(),
            from < s@.len(),
            ds == s@.skip(from as int),
            ds == without_plus(s@),
            forall|k: int| 0 <= k < i - from ==> is_digit(#[trigger] ds[k]),
            n == value_of(ds.take(i - from)),
            n <= max,
        decreases s@.len() - i,
    {
        let b: u8 = s[i];
        assert(b == ds[i - from]);
        if b < 48 || b > 57 {
            assert(!is_digit(ds[i - from]));
            return None;
        }
        let d: u64 = (b - 48) as u64;
        assert(ds.take(i - from + 1).drop_last() =~= ds.take(i - from));
        if d > max || n > max / 10 || n * 10 > max - d {
            proof {
                if all_digits(ds) {
                    lemma_value_grows(ds, i - from + 1);
                }
            }
            return None;
        }
        n = n * 10 + d;
        i = i + 1;
    }
    assert(ds.take(ds.len() as int) =~= ds);
    Some(n)
}

/// What is written in decimal reads back as the same number.
pub proof fn law_digits_read_back(n: nat, max: nat)
    requires
        n <= max,
    ensures
        number_in(digits(n), max) == Some(n),
{
    lemma_digits(n);
}

/// A decimal is digits only, with at least one of them, and is worth itself.
pub proof fn lemma_digits(n: nat)
    ensures
        digits(n).len() > 0,
        all_digits(digits(n)),
        value_of(digits(n)) == n,
    decreases n,
{
    if n >= 10 {
        lemma_digits(n / 10);
        assert(digits(n).drop_last() =~= digits(n / 10));
    } else {
        assert(digits(n).drop_last() =~= Seq::<u8>::empty());
        assert(value_of(Seq::<u8>::empty()) == 0);
    }
}

/// The number that decimal digits denote.
pub open spec fn number(s: Seq<char>) -> nat
    decreases s.len(),
{
    if s.len() == 0 {
        0
    } else {
        (10 * number(s.drop_last()) + (s.last() as int - 48)) as nat
    }
}

/// Every character is a decimal digit.
pub open spec fn decimal_digits(s: Seq<char>) -> bool {
    forall|i: int| 0 <= i < s.len() ==> 48 <= #[trigger] s[i] as int <= 57
}

/// A number is written in the digits that denote it, without zeros in front.
pub proof fn law_a_number_is_written_as_what_it_is(n: nat)
    ensures
        decimal_digits(decimal(n)),
        number(decimal(n)) == n,
        decimal(n).len() >= 1,
        digits(n).len() == decimal(n).len(),
        forall|i: int|
            0 <= i < decimal(n).len() ==> #[trigger] digits(n)[i] as int == decimal(n)[i] as int,
        n > 0 ==> decimal(n)[0] as int != 48,
        n < 100 ==> two_digits(n).len() == 2 && decimal_digits(two_digits(n)) && number(two_digits(n))
            == n,
        signed_decimal(n as int) == decimal(n),
        n > 0 ==> signed_decimal(-n) == seq!['-'] + decimal(n),
    decreases n,
{
    reveal_with_fuel(number, 3);
    if n >= 10 {
        law_a_number_is_written_as_what_it_is(n / 10);
        assert(decimal(n).drop_last() =~= decimal(n / 10));
        assert(decimal(n)[0] == decimal(n / 10)[0]);
        assert forall|i: int| 0 <= i < decimal(n).len() implies 48 <= #[trigger] decimal(n)[i] as int
            <= 57 by {
            if i < decimal(n / 10).len() {
                assert(decimal(n)[i] == decimal(n / 10)[i]);
            }
        }
    } else {
        assert(decimal(n).drop_last() =~= Seq::empty());
    }
    if n < 100 {
        let t = two_digits(n);
        assert(t.drop_last().drop_last() =~= Seq::empty());
        assert(t.drop_last().last() == t[0]);
    }
}

/// What is read as a number is what its digits denote: digits and nothing
/// else, with or without a plus in front, and nothing above the limit.
pub proof fn law_a_number_is_read_as_what_it_denotes(s: Seq<char>, bytes: Seq<u8>, max: nat)
    requires
        bytes.len() == s.len(),
        forall|i: int| 0 <= i < s.len() ==> #[trigger] bytes[i] as int == s[i] as int,
    ensures
        s.len() > 0 && decimal_digits(s) && number(s) <= max ==> number_in(bytes, max) == Some(
            number(s),
        ) && number_in(seq![43u8] + bytes, max) == Some(number(s)),
        s.len() > 0 && decimal_digits(s) && number(s) > max ==> number_in(bytes, max) is None,
        s.len() == 0 ==> number_in(bytes, max) is None,
        s.len() > 0 && !decimal_digits(s) && s[0] as int != 43 ==> number_in(bytes, max) is None,
{
    if s.len() > 0 && decimal_digits(s) {
        assert(48 <= s[0] as int <= 57);
        assert(bytes[0] as int == s[0] as int);
        assert forall|i: int| 0 <= i < bytes.len() implies is_digit(#[trigger] bytes[i]) by {
            assert(48 <= s[i] as int <= 57);
        }
        lemma_same_value(s, bytes);
        assert((seq![43u8] + bytes).skip(1) =~= bytes);
    }
    if s.len() > 0 && !decimal_digits(s) && s[0] as int != 43 {
        let i = choose|i: int| 0 <= i < s.len() && !(48 <= #[trigger] s[i] as int <= 57);
        assert(bytes[0] as int == s[0] as int);
        assert(!is_digit(bytes[i]));
    }
}

proof fn lemma_same_value(s: Seq<char>, bytes: Seq<u8>)
    requires
        bytes.len() == s.len(),
        decimal_digits(s),
        forall|i: int| 0 <= i < s.len() ==> #[trigger] bytes[i] as int == s[i] as int,
    ensures
        value_of(bytes) == number(s),
    decreases s.len(),
{
    if s.len() > 0 {
        let (t, b) = (s.drop_last(), bytes.drop_last());
        assert forall|i: int| 0 <= i < t.len() implies 48 <= #[trigger] t[i] as int <= 57 by {
            assert(t[i] == s[i]);
        }
        assert forall|i: int| 0 <= i < t.len() implies #[trigger] b[i] as int == t[i] as int by {
            assert(b[i] == bytes[i] && t[i] == s[i]);
        }
        lemma_same_value(t, b);
        assert(bytes[s.len() - 1] as int == s[s.len() - 1] as int);
        assert(48 <= s[s.len() - 1] as int <= 57);
    }
}

/// Text that was written as UTF-8 reads back as it was.
pub proof fn law_text_reads_back(s: Seq<char>)
    ensures
        text_of(vstd::utf8::encode_utf8(s)) == s,
{
    vstd::utf8::encode_utf8_valid_utf8(s);
    vstd::utf8::encode_utf8_decode_utf8(s);
}

} // verus!
