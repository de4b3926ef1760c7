//! Ordinal order on strings, comparison by code point and independent of
//! locale, and numbers written as text.

use vstd::prelude::*;
use vstd::std_specs::iter::IteratorSpec;

verus! {

/// `String::push` appends one character to the end of the string.
pub assume_specification[ String::push ](text: &mut String, c: char)
    ensures
        final(text)@ == old(text)@.push(c),
;

/// `a` comes before `b`, or equals it, in ordinal order: at the first position
/// where the two differ the code point of `a` is the smaller one, and a string
/// comes before every string that it is a proper prefix of.
pub open spec fn ordinal_le(a: Seq<char>, b: Seq<char>) -> bool
    decreases a.len(),
{
    if a.len() == 0 {
        true
    } else if b.len() == 0 {
        false
    } else if a[0] != b[0] {
        (a[0] as u32) < (b[0] as u32)
    } else {
        ordinal_le(a.drop_first(), b.drop_first())
    }
}

/// `a` comes strictly before `b` in ordinal order.
pub open spec fn ordinal_lt(a: Seq<char>, b: Seq<char>) -> bool {
    ordinal_le(a, b) && a != b
}

/// Every string is ordered before or equal to itself.
pub proof fn ordinal_le_reflexive(a: Seq<char>)
    ensures
        ordinal_le(a, a),
    decreases a.len(),
{
    if a.len() > 0 {
        ordinal_le_reflexive(a.drop_first());
    }
}

/// Two strings ordered both ways are the same string.
pub proof fn ordinal_le_antisymmetric(a: Seq<char>, b: Seq<char>)
    requires
        ordinal_le(a, b),
        ordinal_le(b, a),
    ensures
        a == b,
    decreases a.len(),
{
    if a.len() == 0 || b.len() == 0 {
        assert(a =~= b);
    } else {
        ordinal_le_antisymmetric(a.drop_first(), b.drop_first());
        assert(a =~= seq![a[0]] + a.drop_first());
        assert(b =~= seq![b[0]] + b.drop_first());
    }
}

/// Ordinal order is transitive.
pub proof fn ordinal_le_transitive(a: Seq<char>, b: Seq<char>, c: Seq<char>)
    requires
        ordinal_le(a, b),
        ordinal_le(b, c),
    ensures
        ordinal_le(a, c),
    decreases a.len(),
{
    if a.len() > 0 && b.len() > 0 && c.len() > 0 && a[0] == b[0] && b[0] == c[0] {
        ordinal_le_transitive(a.drop_first(), b.drop_first(), c.drop_first());
    }
}

/// Any two strings are ordered one way or the other.
pub proof fn ordinal_le_total(a: Seq<char>, b: Seq<char>)
    ensures
        ordinal_le(a, b) || ordinal_le(b, a),
    decreases a.len(),
{
    if a.len() > 0 && b.len() > 0 {
        if a[0] == b[0] {
            ordinal_le_total(a.drop_first(), b.drop_first());
        } else {
            vstd::utf8::char_u32_cast(a[0], a[0] as u32);
            vstd::utf8::char_u32_cast(b[0], b[0] as u32);
        }
    }
}

/// Compares two strings in ordinal order.
pub fn ordinal_str_le(a: &str, b: &str) -> (r: bool)
    ensures
        r == ordinal_le(a@, b@),
{
    let mut left = a.chars();
    let mut right = b.chars();
    loop
        invariant
            left.obeys_prophetic_iter_laws(),
            right.obeys_prophetic_iter_laws(),
            left.decrease() is Some,
            ordinal_le(a@, b@) == ordinal_le(left.remaining(), right.remaining()),
        decreases left.decrease()->0,
    {
        let x = left.next();
        let y = right.next();
        match x {
            None => {
                return true;
            },
            Some(p) => {
                match y {
                    None => {
                        return false;
                    },
                    Some(q) => {
                        if p != q {
                            return (p as u32) < (q as u32);
                        }
                    },
                }
            },
        }
    }
}

/// Tells whether two strings hold the same characters.
pub fn same_text(a: &str, b: &str) -> (r: bool)
    ensures
        r == (a@ == b@),
{
    let both = ordinal_str_le(a, b) && ordinal_str_le(b, a);
    proof {
        if both {
            ordinal_le_antisymmetric(a@, b@);
        }
        if a@ == b@ {
            ordinal_le_reflexive(a@);
        }
    }
    both
}

/// The character that writes the digit `d`.
pub open spec fn digit(d: nat) -> char {
    if d == 0 {
        '0'
    } else if d == 1 {
        '1'
    } else if d == 2 {
        '2'
    } else if d == 3 {
        '3'
    } else if d == 4 {
        '4'
    } else if d == 5 {
        '5'
    } else if d == 6 {
        '6'
    } else if d == 7 {
        '7'
    } else if d == 8 {
        '8'
    } else {
        '9'
    }
}

/// The number `n` written in decimal, without leading zeros.
pub open spec fn decimal(n: nat) -> Seq<char>
    decreases n,
{
    if n < 10 {
        seq![digit(n)]
    } else {
        decimal(n / 10).push(digit(n % 10))
    }
}

/// Appends a number in decimal.
pub fn append_decimal(out: &mut String, n: usize)
    ensures
        final(out)@ == old(out)@ + decimal(n as nat),
    decreases n,
{
    let ghost before = out@;
    if n >= 10 {
        append_decimal(out, n / 10);
    }
    let d = n % 10;
    let c = if d == 0 {
        '0'
    } else if d == 1 {
        '1'
    } else if d == 2 {
        '2'
    } else if d == 3 {
        '3'
    } else if d == 4 {
        '4'
    } else if d == 5 {
        '5'
    } else if d == 6 {
        '6'
    } else if d == 7 {
        '7'
    } else if d == 8 {
        '8'
    } else {
        '9'
    };
    out.push(c);
    assert(out@ =~= before + decimal(n as nat));
}

} // verus!
