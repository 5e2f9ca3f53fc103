use vstd::prelude::*;
use vstd::std_specs::iter::IteratorSpec;

verus! {

/// Whether `char::is_numeric` holds of a character outside ASCII.
pub uninterp spec fn numeric_beyond_ascii(c: char) -> bool;

/// Whether `char::is_alphanumeric` holds of a character outside ASCII.
pub uninterp spec fn alphanumeric_beyond_ascii(c: char) -> bool;

/// Whether `char::is_whitespace` holds of a character outside ASCII.
pub uninterp spec fn whitespace_beyond_ascii(c: char) -> bool;

/// `char::is_whitespace`: in ASCII, exactly tab, line feed, vertical tab, form feed,
/// carriage return and space.
pub open spec fn whitespace(c: char) -> bool {
    if is_ascii_char(c) {
        ('\t' <= c && c <= '\r') || c == ' '
    } else {
        whitespace_beyond_ascii(c)
    }
}

/// Whether a character is ASCII.
pub open spec fn is_ascii_char(c: char) -> bool {
    (c as u32) < 128
}

/// Whether a character is an ASCII letter.
pub open spec fn is_ascii_letter(c: char) -> bool {
    ('a' <= c && c <= 'z') || ('A' <= c && c <= 'Z')
}

/// `char::is_numeric`: in ASCII, exactly the digits `0` to `9`.
pub open spec fn numeric(c: char) -> bool {
    if is_ascii_char(c) {
        is_ascii_digit(c)
    } else {
        numeric_beyond_ascii(c)
    }
}

/// `char::is_alphanumeric`: in ASCII, exactly the letters and the digits.
pub open spec fn alphanumeric(c: char) -> bool {
    if is_ascii_char(c) {
        is_ascii_letter(c) || is_ascii_digit(c)
    } else {
        alphanumeric_beyond_ascii(c)
    }
}

/// Whether `char::is_uppercase` holds of a character.
pub uninterp spec fn uppercase(c: char) -> bool;

/// The characters that `char::to_uppercase` maps a character to.
pub uninterp spec fn upper_char(c: char) -> Seq<char>;

/// The characters that `char::to_lowercase` maps a character to.
pub uninterp spec fn lower_char(c: char) -> Seq<char>;

/// What `str::to_uppercase` makes of a text.
pub uninterp spec fn upper_str(s: Seq<char>) -> Seq<char>;

/// What `str::to_lowercase` makes of a text.
pub uninterp spec fn lower_str(s: Seq<char>) -> Seq<char>;

/// Relies on `char::is_numeric`: numbers in Unicode's sense, which in ASCII are the
/// digits.
#[verifier::external_body]
pub(crate) fn is_numeric(c: char) -> (r: bool)
    ensures
        r == if is_ascii_char(c) {
            is_ascii_digit(c)
        } else {
            numeric_beyond_ascii(c)
        },
{
    c.is_numeric()
}

/// Relies on `char::is_alphanumeric`: letters and numbers in Unicode's sense, which in
/// ASCII are the letters and the digits.
#[verifier::external_body]
pub(crate) fn is_alphanumeric(c: char) -> (r: bool)
    ensures
        r == if is_ascii_char(c) {
            is_ascii_letter(c) || is_ascii_digit(c)
        } else {
            alphanumeric_beyond_ascii(c)
        },
{
    c.is_alphanumeric()
}

/// Relies on `char::is_whitespace`: Unicode's White_Space, which in ASCII is tab, line
/// feed, vertical tab, form feed, carriage return and space.
#[verifier::external_body]
pub(crate) fn is_whitespace(c: char) -> (r: bool)
    ensures
        r == if is_ascii_char(c) {
            ('\t' <= c && c <= '\r') || c == ' '
        } else {
            whitespace_beyond_ascii(c)
        },
{
    c.is_whitespace()
}

/// Relies on `char::is_uppercase`.
#[verifier::external_body]
pub(crate) fn is_uppercase(c: char) -> (r: bool)
    ensures
        r == uppercase(c),
{
    c.is_uppercase()
}

/// Relies on `char::to_uppercase`: the upper-case form of one character, as a text.
#[verifier::external_body]
pub(crate) fn char_to_upper(c: char) -> (r: String)
    ensures
        r@ == upper_char(c),
{
    c.to_uppercase().collect()
}

/// Relies on `char::to_lowercase`: the lower-case form of one character, as a text.
#[verifier::external_body]
pub(crate) fn char_to_lower(c: char) -> (r: String)
    ensures
        r@ == lower_char(c),
{
    c.to_lowercase().collect()
}

/// Relies on `str::to_uppercase`.
#[verifier::external_body]
pub(crate) fn str_to_upper(s: &str) -> (r: String)
    ensures
        r@ == upper_str(s@),
{
    s.to_uppercase()
}

/// Relies on `str::to_lowercase`.
#[verifier::external_body]
pub(crate) fn str_to_lower(s: &str) -> (r: String)
    ensures
        r@ == lower_str(s@),
{
    s.to_lowercase()
}

/// Relies on `String::push`: appends one character.
#[verifier::external_body]
pub(crate) fn push_char(s: &mut String, c: char)
    ensures
        final(s)@ == old(s)@.push(c),
{
    s.push(c)
}

/// The characters of a text, in order.
pub fn chars_of(s: &str) -> (r: Vec<char>)
    ensures
        r@ == s@,
{
    let mut it = s.chars();
    let mut r: Vec<char> = Vec::new();
    loop
        invariant
            r@ + it.remaining() == s@,
            it.decrease() is Some,
        decreases it.decrease()->0,
    {
        match it.next() {
            Some(c) => {
                r.push(c);
            },
            None => {
                return r;
            },
        }
    }
}

/// The decimal digit for a value below ten.
pub open spec fn digit_char(d: int) -> char {
    if d == 0 {
        '0'
    } else if d == 1 {
        '1'
    } else if d == 2 {
        '2'
    } else if d == 3 {
        '3'
    } else if d == 4 {
        '4'
    } else if d == 5 {
        '5'
    } else if d == 6 {
        '6'
    } else if d == 7 {
        '7'
    } else if d == 8 {
        '8'
    } else {
        '9'
    }
}

/// The decimal notation of a number, without sign or leading zeros.
pub open spec fn decimal(n: nat) -> Seq<char>
    decreases n,
{
    if n < 10 {
        seq![digit_char(n as int)]
    } else {
        decimal(n / 10).push(digit_char((n % 10) as int))
    }
}

/// Whether a character is one of the ASCII digits `0` to `9`.
pub open spec fn is_ascii_digit(c: char) -> bool {
    '0' <= c && c <= '9'
}

/// The value of an ASCII digit.
pub open spec fn digit_value(c: char) -> int {
    (c as u32) as int - ('0' as u32) as int
}

/// Whether every character of `s` is an ASCII digit.
pub open spec fn all_ascii_digits(s: Seq<char>) -> bool {
    forall|i: int| 0 <= i < s.len() ==> is_ascii_digit(#[trigger] s[i])
}

/// The number that a run of ASCII digits stands for (no digits: zero).
pub open spec fn decimal_value(s: Seq<char>) -> nat
    decreases s.len(),
{
    if s.len() == 0 {
        0
    } else {
        (decimal_value(s.drop_last()) * 10 + digit_value(s.last())) as nat
    }
}

fn digit_of(d: usize) -> (r: char)
    requires
        d < 10,
    ensures
        r == digit_char(d as int),
{
    if d == 0 {
        '0'
    } else if d == 1 {
        '1'
    } else if d == 2 {
        '2'
    } else if d == 3 {
        '3'
    } else if d == 4 {
        '4'
    } else if d == 5 {
        '5'
    } else if d == 6 {
        '6'
    } else if d == 7 {
        '7'
    } else if d == 8 {
        '8'
    } else {
        '9'
    }
}

/// Writes a number in decimal.
pub fn decimal_string(n: usize) -> (r: String)
    ensures
        r@ == decimal(n as nat),
    decreases n,
{
    if n < 10 {
        let mut s = String::new();
        push_char(&mut s, digit_of(n));
        s
    } else {
        let mut s = decimal_string(n / 10);
        push_char(&mut s, digit_of(n % 10));
        s
    }
}

proof fn lemma_decimal_value_grows(s: Seq<char>, k: int)
    requires
        0 <= k <= s.len(),
        all_ascii_digits(s),
    ensures
        decimal_value(s.take(k)) <= decimal_value(s),
    decreases s.len() - k,
{
    if k < s.len() {
        let t = s.take(k + 1);
        assert(t.drop_last() =~= s.take(k));
        assert(is_ascii_digit(s[k]));
        lemma_decimal_value_grows(s, k + 1);
    } else {
        assert(s.take(k) =~= s);
    }
}

/// Reads a run of characters as a decimal number. Anything but a non-empty run of
/// ASCII digits whose value fits in `usize` reads as zero.
pub fn parse_index(s: &Vec<char>) -> (r: usize)
    ensures
        r == (if s@.len() > 0 && all_ascii_digits(s@) && decimal_value(s@) <= usize::MAX {
            decimal_value(s@)
        } else {
            0
        }),
{
    if s.len() == 0 {
        return 0;
    }
    let mut acc: usize = 0;
    let mut i: usize = 0;
    while i < s.len()
        invariant
            0 <= i <= s@.len(),
            acc == decimal_value(s@.take(i as int)),
            all_ascii_digits(s@.take(i as int)),
        decreases s@.len() - i,
    {
        let c = s[i];
        if !('0' <= c && c <= '9') {
            proof {
                assert(!is_ascii_digit(s@[i as int]));
            }
            return 0;
        }
        let d = (c as u32 - '0' as u32) as usize;
        proof {
            assert(s@.take(i + 1).drop_last() =~= s@.take(i as int));
            assert(s@.take(i + 1).last() == c);
        }
        let next = match acc.checked_mul(10) {
            Some(m) => m.checked_add(d),
            None => None,
        };
        match next {
            Some(v) => {
                acc = v;
            },
            None => {
                proof {
                    if all_ascii_digits(s@) {
                        lemma_decimal_value_grows(s@, i + 1);
                    }
                }
                return 0;
            },
        }
        i = i + 1;
        proof {
            assert forall|j: int| 0 <= j < i implies is_ascii_digit(#[trigger] s@.take(i as int)[j]) by {
                if j < i - 1 {
                    assert(s@.take(i as int)[j] == s@.take(i - 1)[j]);
                }
            }
        }
    }
    proof {
        assert(s@.take(i as int) =~= s@);
    }
    acc
}

} // verus!
