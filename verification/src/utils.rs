//! Characters and strings: what the tokenizer needs below the level of
//! lexemes.
use vstd::prelude::*;
use vstd::std_specs::iter::IteratorSpec;
use crate::errors::CreateError;
use crate::errors::ErrorView;
use crate::errors::FORMAT;

verus! {

/// The characters of a text.
pub fn to_chars(data: &str) -> (out: Vec<char>)
    ensures
        out@ == data@,
{
    let mut out: Vec<char> = Vec::new();
    let mut iter = data.chars();
    loop
        invariant
            out@ + iter.remaining() == data@,
            iter.obeys_prophetic_iter_laws(),
        decreases data@.len() - out@.len(),
    {
        match iter.next() {
            Some(c) => {
                out.push(c);
                proof {
                    assert(out@ + iter.remaining() =~= data@);
                }
            },
            None => {
                proof {
                    assert(out@ =~= data@);
                }
                return out;
            },
        }
    }
}

/// `String::from_iter` of the standard library on a vector of characters:
/// the string is made of the characters in order.
#[verifier::external_body]
fn collect_string(chars: Vec<char>) -> (out: String)
    ensures
        out@ == chars@,
{
    String::from_iter(chars)
}

/// The string made of the characters of `chars` from `from` up to `to`; the
/// empty string where the bounds do not fit.
pub fn string_of(chars: &Vec<char>, from: usize, to: usize) -> (out: String)
    ensures
        out@ == piece(chars@, from as int, to as int),
{
    let mut part: Vec<char> = Vec::new();
    if from <= to && to <= chars.len() {
        let mut i: usize = from;
        while i < to
            invariant
                from <= i <= to <= chars.len(),
                part@ == chars@.subrange(from as int, i as int),
            decreases to - i,
        {
            part.push(chars[i]);
            proof {
                assert(part@ =~= chars@.subrange(from as int, i + 1));
            }
            i = i + 1;
        }
    } else {
        proof {
            assert(part@ =~= Seq::empty());
        }
    }
    collect_string(part)
}

/// The items of `s` from `from` on; none where `from` is past the end.
pub open spec fn rest(s: Seq<char>, from: int) -> Seq<char> {
    if 0 <= from <= s.len() {
        s.skip(from)
    } else {
        Seq::empty()
    }
}

/// The items of `s` from `from` up to `to`; none where the bounds do not fit.
pub open spec fn piece(s: Seq<char>, from: int, to: int) -> Seq<char> {
    if 0 <= from <= to <= s.len() {
        s.subrange(from, to)
    } else {
        Seq::empty()
    }
}

/// The characters that separate lexemes: those with the Unicode property
/// White_Space.
pub open spec fn spec_is_whitespace(c: char) -> bool {
    let u = c as u32;
    ||| 0x09 <= u <= 0x0d
    ||| u == 0x20
    ||| u == 0x85
    ||| u == 0xa0
    ||| u == 0x1680
    ||| 0x2000 <= u <= 0x200a
    ||| u == 0x2028
    ||| u == 0x2029
    ||| u == 0x202f
    ||| u == 0x205f
    ||| u == 0x3000
}

/// Whether a character separates lexemes.
pub fn is_whitespace(c: char) -> (out: bool)
    ensures
        out == spec_is_whitespace(c),
{
    let u: u32 = c as u32;
    (0x09 <= u && u <= 0x0d) || u == 0x20 || u == 0x85 || u == 0xa0 || u == 0x1680 || (0x2000 <= u && u
        <= 0x200a) || u == 0x2028 || u == 0x2029 || u == 0x202f || u == 0x205f || u == 0x3000
}

/// The character for a decimal digit.
pub open spec fn spec_digit(d: nat) -> char {
    ((d + 0x30) as u8) as char
}

/// The decimal digits of a number.
pub open spec fn spec_decimal(n: nat) -> Seq<char>
    decreases n,
{
    if n < 10 {
        seq![spec_digit(n)]
    } else {
        spec_decimal(n / 10).push(spec_digit(n % 10))
    }
}

/// The decimal digits of a number.
pub fn decimal(n: usize) -> (out: Vec<char>)
    ensures
        out@ == spec_decimal(n as nat),
    decreases n,
{
    if n < 10 {
        let mut out: Vec<char> = Vec::new();
        out.push((n as u8 + 0x30) as char);
        proof {
            assert(out@ =~= seq![spec_digit(n as nat)]);
        }
        out
    } else {
        let mut out = decimal(n / 10);
        out.push(((n % 10) as u8 + 0x30) as char);
        out
    }
}

/// The diagnostic of a text that ends where a character was expected.
pub open spec fn spec_expected_char() -> ErrorView {
    ErrorView { code: FORMAT, message: "Expected char in string"@ }
}

/// The character that an escape stands for: `s` is a space, `n` a line feed,
/// `r` a carriage return, and every other character itself.
pub open spec fn unescaped(c: char) -> char {
    if c == 's' {
        ' '
    } else if c == 'n' {
        '\n'
    } else if c == 'r' {
        '\r'
    } else {
        c
    }
}

/// The code of the character at the start of `s` and the number of characters
/// that encode it: two for an escape, which a backslash opens, else one.
/// `None` where `s` is empty or ends in the backslash.
pub open spec fn spec_read_char(s: Seq<char>) -> Option<(usize, nat)> {
    if s.len() == 0 {
        None
    } else if s[0] == '\\' {
        if s.len() == 1 {
            None
        } else {
            Some((unescaped(s[1]) as usize, 2))
        }
    } else {
        Some((s[0] as usize, 1))
    }
}

fn unescape(c: char) -> (out: char)
    ensures
        out == unescaped(c),
{
    if c == 's' {
        ' '
    } else if c == 'n' {
        '\n'
    } else if c == 'r' {
        '\r'
    } else {
        c
    }
}

/// Reads the character at `at`, which may be escaped, and gives its code and
/// the position after it; error 2 where the characters end too early.
pub fn read_char(chars: &Vec<char>, at: usize) -> (out: Result<(usize, usize), CreateError>)
    ensures
        match spec_read_char(rest(chars@, at as int)) {
            Some((code, used)) => out is Ok && out->Ok_0 == (code, (at + used) as usize) && at + used
                <= chars@.len(),
            None => out is Err && out->Err_0@ == spec_expected_char(),
        },
{
    if at >= chars.len() {
        return Err(CreateError::new(FORMAT, "Expected char in string"));
    }
    let chr = chars[at];
    if chr == '\\' {
        if at + 1 >= chars.len() {
            Err(CreateError::new(FORMAT, "Expected char in string"))
        } else {
            Ok((unescape(chars[at + 1]) as usize, at + 2))
        }
    } else {
        Ok((chr as usize, at + 1))
    }
}

/// The number that a run of digits, with an optional plus sign before it,
/// denotes.
pub open spec fn digits_value(s: Seq<char>) -> nat
    decreases s.len(),
{
    if s.len() == 0 {
        0
    } else {
        digits_value(s.drop_last()) * 10 + ((s.last() as u32 - 0x30) as nat)
    }
}

/// Whether every character is a decimal digit.
pub open spec fn all_digits(s: Seq<char>) -> bool {
    forall|i: int| 0 <= i < s.len() ==> 0x30 <= (#[trigger] s[i]) as u32 <= 0x39
}

/// The position that an index lexeme denotes: digits, a plus sign allowed
/// before them, whose value fits the machine word.
pub open spec fn spec_parse_index(s: Seq<char>) -> Option<usize> {
    let digits = if s.len() > 0 && s[0] == '+' {
        s.skip(1)
    } else {
        s
    };
    if digits.len() > 0 && all_digits(digits) && digits_value(digits) <= usize::MAX {
        Some(digits_value(digits) as usize)
    } else {
        None
    }
}

proof fn lemma_digits_grow(s: Seq<char>, k: int)
    requires
        0 <= k <= s.len(),
        all_digits(s),
    ensures
        digits_value(s.subrange(0, k)) <= digits_value(s),
    decreases s.len() - k,
{
    if k < s.len() {
        lemma_digits_grow(s, k + 1);
        let t = s.subrange(0, k + 1);
        assert(t.drop_last() =~= s.subrange(0, k));
        assert(t.last() == s[k]);
    } else {
        assert(s.subrange(0, k) =~= s);
    }
}

/// Reads the characters from `from` on as a position.
pub fn parse_index(chars: &Vec<char>, from: usize) -> (out: Option<usize>)
    ensures
        out == spec_parse_index(rest(chars@, from as int)),
{
    if from > chars.len() {
        return None;
    }
    let ghost s = chars@.skip(from as int);
    let start: usize = if from < chars.len() && chars[from] == '+' {
        from + 1
    } else {
        from
    };
    let ghost digits = chars@.skip(start as int);
    proof {
        if start == from + 1 {
            assert(s.skip(1) =~= digits);
        }
    }
    if start >= chars.len() {
        return None;
    }
    let mut value: usize = 0;
    let mut i: usize = start;
    proof {
        assert(digits.subrange(0, 0) =~= Seq::empty());
    }
    while i < chars.len()
        invariant
            start <= i <= chars.len(),
            start < chars.len(),
            digits == chars@.skip(start as int),
            spec_parse_index(rest(chars@, from as int)) == if all_digits(digits) && digits_value(digits)
                <= usize::MAX {
                Some(digits_value(digits) as usize)
            } else {
                None::<usize>
            },
            all_digits(digits.subrange(0, i - start)),
            value == digits_value(digits.subrange(0, i - start)),
        decreases chars.len() - i,
    {
        let u: u32 = chars[i] as u32;
        let ghost next = digits.subrange(0, i - start + 1);
        proof {
            assert(next.drop_last() =~= digits.subrange(0, i - start));
            assert(next.last() == chars@[i as int]);
        }
        if u < 0x30 || u > 0x39 {
            proof {
                assert(digits[i - start] == chars@[i as int]);
                assert(!all_digits(digits));
            }
            return None;
        }
        let d: usize = (u - 0x30) as usize;
        if value > (usize::MAX - d) / 10 {
            proof {
                assert(digits_value(next) > usize::MAX);
                if all_digits(digits) {
                    lemma_digits_grow(digits, i - start + 1);
                }
            }
            return None;
        }
        value = value * 10 + d;
        proof {
            assert forall|j: int| 0 <= j < next.len() implies 0x30 <= (#[trigger] next[j]) as u32 <= 0x39 by {
                if j < next.len() - 1 {
                    assert(digits.subrange(0, i - start)[j] == next[j]);
                }
            }
        }
        i = i + 1;
    }
    proof {
        assert(digits.subrange(0, i - start) =~= digits);
    }
    Some(value)
}

} // verus!
