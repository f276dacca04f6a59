use vstd::prelude::*;

verus! {

/// Relies on std's `String::push_str`: appends the slice's characters.
#[verifier::external_body]
pub fn push_str(s: &mut String, t: &str)
    ensures
        final(s)@ == old(s)@ + t@,
{
    s.push_str(t);
}

/// Relies on std's `String::push`: appends the one character.
#[verifier::external_body]
pub fn push_char(s: &mut String, c: char)
    ensures
        final(s)@ == old(s)@.push(c),
{
    s.push(c);
}

/// The decimal digit character for `d`.
pub open spec fn digit_char(d: int) -> char {
    if d == 0 {
        '0'
    } else if d == 1 {
        '1'
    } else if d == 2 {
        '2'
    } else if d == 3 {
        '3'
    } else if d == 4 {
        '4'
    } else if d == 5 {
        '5'
    } else if d == 6 {
        '6'
    } else if d == 7 {
        '7'
    } else if d == 8 {
        '8'
    } else {
        '9'
    }
}

/// The decimal digits of `n`, most significant first.
pub open spec fn dec_nat(n: nat) -> Seq<char>
    decreases n,
{
    if n < 10 {
        seq![digit_char(n as int)]
    } else {
        dec_nat(n / 10).push(digit_char((n % 10) as int))
    }
}

/// The decimal rendering of `v`: a minus sign and the digits of its
/// magnitude for negative values, just the digits otherwise. This is how the
/// host renders its integers.
pub open spec fn dec_int(v: int) -> Seq<char> {
    if v < 0 {
        seq!['-'] + dec_nat((-v) as nat)
    } else {
        dec_nat(v as nat)
    }
}

fn digit_char_exec(d: u128) -> (c: char)
    requires
        d < 10,
    ensures
        c == digit_char(d as int),
{
    if d == 0 {
        '0'
    } else if d == 1 {
        '1'
    } else if d == 2 {
        '2'
    } else if d == 3 {
        '3'
    } else if d == 4 {
        '4'
    } else if d == 5 {
        '5'
    } else if d == 6 {
        '6'
    } else if d == 7 {
        '7'
    } else if d == 8 {
        '8'
    } else {
        '9'
    }
}

fn push_dec_nat(s: &mut String, n: u128)
    ensures
        final(s)@ == old(s)@ + dec_nat(n as nat),
    decreases n,
{
    if n < 10 {
        push_char(s, digit_char_exec(n));
        assert(s@ =~= old(s)@ + dec_nat(n as nat));
    } else {
        push_dec_nat(s, n / 10);
        push_char(s, digit_char_exec(n % 10));
        assert(s@ =~= old(s)@ + dec_nat(n as nat));
    }
}

/// Render `v` in decimal, as the host's textual form of an integer.
pub fn int_to_decimal(v: i128) -> (r: String)
    ensures
        r@ == dec_int(v as int),
{
    let mut s = String::new();
    if v < 0 {
        // `-v` can overflow when `v` is the smallest value, so shift by one
        // before negating.
        let m: u128 = ((-(v + 1)) as u128) + 1;
        assert(m == -(v as int));
        push_char(&mut s, '-');
        push_dec_nat(&mut s, m);
        assert(s@ =~= dec_int(v as int));
    } else {
        push_dec_nat(&mut s, v as u128);
        assert(s@ =~= dec_int(v as int));
    }
    s
}

} // verus!
