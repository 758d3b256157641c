//! Character-sequence helpers shared by the tokenizer and the interpreter:
//! equality of character vectors, appending string literals, rendering a
//! count in decimal, and parsing a signed 32-bit integer from characters.

use vstd::prelude::*;
use vstd::std_specs::iter::IteratorSpec;

verus! {

broadcast use vstd::string::next_postcondition;

/// Compares two character vectors element by element.
pub fn chars_eq(a: &Vec<char>, b: &Vec<char>) -> (r: bool)
    ensures
        r == (a@ == b@),
{
    if a.len() != b.len() {
        return false;
    }
    let mut i: usize = 0;
    while i < a.len()
        invariant
            a@.len() == b@.len(),
            0 <= i <= a@.len(),
            forall|j: int| 0 <= j < i ==> a@[j] == b@[j],
        decreases a@.len() - i,
    {
        if a[i] != b[i] {
            return false;
        }
        i = i + 1;
    }
    proof {
        assert(a@ =~= b@);
    }
    true
}

/// Appends a copy of `src` to `out`.
pub fn append_chars(out: &mut Vec<char>, src: &Vec<char>)
    ensures
        final(out)@ == old(out)@ + src@,
{
    let mut i: usize = 0;
    while i < src.len()
        invariant
            0 <= i <= src@.len(),
            out@ == old(out)@ + src@.subrange(0, i as int),
        decreases src@.len() - i,
    {
        out.push(src[i]);
        i = i + 1;
    }
    proof {
        assert(src@.subrange(0, src@.len() as int) =~= src@);
    }
}

/// Appends the characters of a string slice to `out`.
pub fn append_str(out: &mut Vec<char>, s: &str)
    ensures
        final(out)@ == old(out)@ + s@,
{
    proof {
        vstd::string::axiom_spec_iter(s);
    }
    let mut it = s.chars();
    loop
        invariant
            it.obeys_prophetic_iter_laws(),
            it.decrease() is Some,
            out@ + it.remaining() == old(out)@ + s@,
        decreases it.decrease().unwrap(),
    {
        match it.next() {
            Some(c) => {
                out.push(c);
            },
            None => {
                proof {
                    assert(it.remaining() =~= Seq::<char>::empty());
                    assert(out@ + it.remaining() =~= out@);
                }
                return ;
            },
        }
    }
}

/// The characters of a string slice, as a vector.
pub fn str_to_chars(s: &str) -> (r: Vec<char>)
    ensures
        r@ == s@,
{
    let mut out: Vec<char> = Vec::new();
    append_str(&mut out, s);
    out
}

/// The characters of `s`, as a fresh vector.
pub fn copy_chars(s: &Vec<char>) -> (r: Vec<char>)
    ensures
        r@ == s@,
{
    let mut out: Vec<char> = Vec::new();
    append_chars(&mut out, s);
    out
}

/// The decimal digit character for a value below ten.
pub open spec fn digit_char(d: int) -> char
    recommends
        0 <= d < 10,
{
    if d == 0 {
        '0'
    } else if d == 1 {
        '1'
    } else if d == 2 {
        '2'
    } else if d == 3 {
        '3'
    } else if d == 4 {
        '4'
    } else if d == 5 {
        '5'
    } else if d == 6 {
        '6'
    } else if d == 7 {
        '7'
    } else if d == 8 {
        '8'
    } else {
        '9'
    }
}

/// The decimal digit characters of `n`, most significant first.
pub open spec fn dec_digits(n: nat) -> Seq<char>
    decreases n,
{
    if n < 10 {
        seq![digit_char(n as int)]
    } else {
        dec_digits(n / 10).push(digit_char((n % 10) as int))
    }
}

fn digit_char_exec(d: usize) -> (r: char)
    requires
        0 <= d < 10,
    ensures
        r == digit_char(d as int),
{
    if d == 0 {
        '0'
    } else if d == 1 {
        '1'
    } else if d == 2 {
        '2'
    } else if d == 3 {
        '3'
    } else if d == 4 {
        '4'
    } else if d == 5 {
        '5'
    } else if d == 6 {
        '6'
    } else if d == 7 {
        '7'
    } else if d == 8 {
        '8'
    } else {
        '9'
    }
}

/// Renders `n` in decimal, most significant digit first.
pub fn dec_chars(n: usize) -> (r: Vec<char>)
    ensures
        r@ == dec_digits(n as nat),
    decreases n,
{
    if n < 10 {
        let mut out: Vec<char> = Vec::new();
        out.push(digit_char_exec(n));
        out
    } else {
        let mut out = dec_chars(n / 10);
        out.push(digit_char_exec(n % 10));
        out
    }
}

/// True of a decimal digit character.
pub open spec fn is_dec_digit(c: char) -> bool {
    48 <= c as u32 <= 57
}

/// The numeric value of a decimal digit character.
pub open spec fn digit_val(c: char) -> int
    recommends
        is_dec_digit(c),
{
    c as u32 - 48
}

/// True when every character of `s` is a decimal digit.
pub open spec fn all_dec_digits(s: Seq<char>) -> bool {
    forall|i: int| 0 <= i < s.len() ==> is_dec_digit(#[trigger] s[i])
}

/// The value of a run of decimal digit characters, most significant first.
pub open spec fn digits_val(s: Seq<char>) -> int
    decreases s.len(),
{
    if s.len() == 0 {
        0
    } else {
        digits_val(s.drop_last()) * 10 + digit_val(s.last())
    }
}

/// A run of decimal digits has a value of at least zero.
pub proof fn lemma_digits_val_nonneg(s: Seq<char>)
    requires
        all_dec_digits(s),
    ensures
        digits_val(s) >= 0,
    decreases s.len(),
{
    if s.len() > 0 {
        assert(all_dec_digits(s.drop_last()));
        lemma_digits_val_nonneg(s.drop_last());
    }
}

/// Extending a digit run to the right never shrinks its value: the value of
/// the whole run is at least the value of any prefix.
pub proof fn lemma_digits_val_prefix(s: Seq<char>, k: int)
    requires
        all_dec_digits(s),
        0 <= k <= s.len(),
    ensures
        digits_val(s) >= digits_val(s.subrange(0, k)),
    decreases s.len() - k,
{
    if k < s.len() {
        let t = s.subrange(0, k + 1);
        assert(all_dec_digits(t));
        assert(t.drop_last() =~= s.subrange(0, k));
        lemma_digits_val_nonneg(s.subrange(0, k));
        assert(digits_val(t) == digits_val(s.subrange(0, k)) * 10 + digit_val(s[k]));
        lemma_digits_val_prefix(s, k + 1);
    } else {
        assert(s.subrange(0, k) =~= s);
    }
}

/// The sign that an optional leading sign character gives: `-1` for `'-'`,
/// otherwise `1`.
pub open spec fn sign_of(s: Seq<char>) -> int {
    if s.len() >= 1 && s[0] == '-' {
        -1
    } else {
        1
    }
}

/// The characters after an optional leading sign character.
pub open spec fn digits_part(s: Seq<char>) -> Seq<char> {
    if s.len() >= 1 && (s[0] == '-' || s[0] == '+') {
        s.subrange(1, s.len() as int)
    } else {
        s
    }
}

/// What `str::parse::<i32>` accepts: an optional sign followed by at least
/// one decimal digit, whose signed value fits in 32 bits.
pub open spec fn parse_i32_spec(s: Seq<char>) -> Option<int> {
    let ds = digits_part(s);
    if ds.len() >= 1 && all_dec_digits(ds) && i32::MIN <= sign_of(s) * digits_val(ds)
        <= i32::MAX {
        Some(sign_of(s) * digits_val(ds))
    } else {
        None
    }
}

/// Parses a signed decimal integer, exactly as `parse_i32_spec` describes.
pub fn parse_i32(s: &Vec<char>) -> (r: Option<i32>)
    ensures
        match parse_i32_spec(s@) {
            Some(v) => r matches Some(x) && x as int == v,
            None => r is None,
        },
{
    let ghost whole = s@;
    let mut i: usize = 0;
    let mut neg: bool = false;
    if s.len() >= 1 && (s[0] == '-' || s[0] == '+') {
        neg = s[0] == '-';
        i = 1;
    }
    let ghost start: int = i as int;
    let ghost ds = digits_part(whole);
    proof {
        assert(ds =~= whole.subrange(start, whole.len() as int));
    }
    if i >= s.len() {
        // no digits at all
        return None;
    }
    let mut acc: u64 = 0;
    while i < s.len()
        invariant
            start <= i <= s@.len(),
            start < s@.len(),
            ds == digits_part(s@),
            ds == s@.subrange(start, s@.len() as int),
            neg == (s@.len() >= 1 && s@[0] == '-'),
            start == if s@.len() >= 1 && (s@[0] == '-' || s@[0] == '+') {
                1int
            } else {
                0int
            },
            all_dec_digits(s@.subrange(start, i as int)),
            acc as int == digits_val(s@.subrange(start, i as int)),
            acc <= 0x8000_0000,
        decreases s@.len() - i,
    {
        let c = s[i];
        let u: u32 = c as u32;
        if !(48 <= u && u <= 57) {
            proof {
                assert(ds[i - start] == s@[i as int]);
                assert(!all_dec_digits(ds));
            }
            return None;
        }
        let d: u64 = (u - 48) as u64;
        let na: u64 = acc * 10 + d;
        proof {
            let p = s@.subrange(start, i as int);
            let q = s@.subrange(start, i as int + 1);
            assert(q.drop_last() =~= p);
            assert(q.last() == s@[i as int]);
            assert(digits_val(q) == na as int);
        }
        if na > 0x8000_0000 {
            proof {
                // Whatever follows, the value no longer fits in 32 bits:
                // either a later character is not a digit, or the full run's
                // value is at least this prefix's value, which is already
                // out of range for both signs.
                if all_dec_digits(ds) {
                    let q = s@.subrange(start, i as int + 1);
                    assert(q =~= ds.subrange(0, i as int + 1 - start));
                    lemma_digits_val_prefix(ds, i as int + 1 - start);
                    assert(digits_val(ds) >= na as int);
                    assert(na as int > 0x8000_0000);
                    let dv = digits_val(ds);
                    assert(1 * dv > i32::MAX && -1 * dv < i32::MIN) by (nonlinear_arith)
                        requires
                            dv > 0x8000_0000,
                    ;
                }
                assert(parse_i32_spec(s@) is None);
            }
            return None;
        }
        acc = na;
        i = i + 1;
    }
    proof {
        assert(s@.subrange(start, i as int) =~= ds);
        assert(all_dec_digits(ds));
        assert(digits_val(ds) == acc as int);
        assert(ds.len() >= 1);
    }
    if neg {
        proof {
            assert(sign_of(whole) == -1);
            assert(i32::MIN <= -1 * digits_val(ds) <= i32::MAX);
            assert(parse_i32_spec(whole) == Some(-1 * digits_val(ds)));
        }
        if acc == 0x8000_0000 {
            Some(i32::MIN)
        } else {
            Some(-(acc as i32))
        }
    } else {
        proof {
            assert(sign_of(whole) == 1);
        }
        if acc >= 0x8000_0000 {
            proof {
                assert(1 * digits_val(ds) > i32::MAX);
                assert(parse_i32_spec(whole) is None);
            }
            return None;
        }
        proof {
            assert(i32::MIN <= 1 * digits_val(ds) <= i32::MAX);
            assert(parse_i32_spec(whole) == Some(1 * digits_val(ds)));
        }
        Some(acc as i32)
    }
}

} // verus!
