//! Compact JSON texts without the signs of zeros, so that values that compare as the same have the
//! same text.

use vstd::prelude::*;
use vstd::string::StringExecFns;

verus! {

/// Where a reader of a JSON text stands: whether inside of a string, and whether behind a backslash
/// in it.
pub open spec fn reading(text: Seq<char>, i: int) -> (bool, bool)
    decreases i,
{
    if i <= 0 {
        (false, false)
    } else {
        let (inside, escaped) = reading(text, i - 1);
        let c = text[i - 1];
        if !inside {
            (c == '"', false)
        } else if escaped {
            (true, false)
        } else if c == '\\' {
            (true, true)
        } else {
            (c != '"', false)
        }
    }
}

/// Whether a character is a decimal digit.
pub open spec fn is_digit(c: char) -> bool {
    '0' <= c <= '9'
}

/// Whether the sign of a zero stands at a place of a compact JSON text.
pub open spec fn zero_sign(text: Seq<char>, i: int) -> bool {
    &&& !reading(text, i).0
    &&& i + 3 < text.len()
    &&& text[i] == '-'
    &&& text[i + 1] == '0'
    &&& text[i + 2] == '.'
    &&& text[i + 3] == '0'
    &&& i + 4 < text.len() ==> !is_digit(text[i + 4])
}

/// The first characters of a compact JSON text, without the signs of zeros.
pub open spec fn unsigned(text: Seq<char>, n: nat) -> Seq<char>
    decreases n,
{
    if n == 0 {
        Seq::empty()
    } else if zero_sign(text, n - 1) {
        unsigned(text, (n - 1) as nat)
    } else {
        unsigned(text, (n - 1) as nat).push(text[n - 1])
    }
}

/// A compact JSON text, without the signs of zeros.
pub open spec fn unsigned_zeros(text: Seq<char>) -> Seq<char> {
    unsigned(text, text.len())
}

fn characters(text: &str) -> (all: Vec<char>)
    ensures
        all@ == text@,
{
    let mut all: Vec<char> = Vec::new();
    for c in iter: text.chars()
        invariant
            iter.seq() == text@,
            all@ == text@.take(iter.index() as int),
    {
        all.push(c);
        assert(text@.take(iter.index() + 1) =~= text@.take(iter.index() as int).push(c));
    }
    assert(text@.take(text@.len() as int) =~= text@);
    all
}

fn sign_of_zero(all: &Vec<char>, i: usize) -> (sign: bool)
    requires
        i < all@.len(),
        !reading(all@, i as int).0,
    ensures
        sign == zero_sign(all@, i as int),
{
    if all.len() - i < 4 {
        return false;
    }
    if all[i] != '-' || all[i + 1] != '0' || all[i + 2] != '.' || all[i + 3] != '0' {
        return false;
    }
    if all.len() - i == 4 {
        return true;
    }
    let next = all[i + 4];
    !('0' <= next && next <= '9')
}

/// A compact JSON text, without the signs of zeros.
pub fn without_zero_signs(text: &str) -> (plain: String)
    ensures
        plain@ == unsigned_zeros(text@),
{
    let all = characters(text);
    let mut plain = String::new();
    let mut from: usize = 0;
    let mut inside: bool = false;
    let mut escaped: bool = false;
    let mut i: usize = 0;
    while i < all.len()
        invariant
            all@ == text@,
            from <= i <= all@.len(),
            (inside, escaped) == reading(text@, i as int),
            plain@ + text@.subrange(from as int, i as int) == unsigned(text@, i as nat),
        decreases all@.len() - i,
    {
        let c = all[i];
        let ghost before = plain@;
        let mut sign: bool = false;
        if !inside {
            sign = sign_of_zero(&all, i);
        }
        if sign {
            plain.append(text.substring_char(from, i));
            from = i + 1;
            assert(plain@ + text@.subrange(i + 1, i + 1) =~= plain@);
        } else {
            proof {
                assert(text@.subrange(from as int, i + 1) =~= text@.subrange(
                    from as int,
                    i as int,
                ).push(c));
                assert(plain@ + text@.subrange(from as int, i + 1) =~= (plain@ + text@.subrange(
                    from as int,
                    i as int,
                )).push(c));
            }
        }
        if !inside {
            inside = c == '"';
        } else if escaped {
            escaped = false;
        } else if c == '\\' {
            escaped = true;
        } else {
            inside = c != '"';
        }
        i = i + 1;
    }
    plain.append(text.substring_char(from, all.len()));
    plain
}

} // verus!
