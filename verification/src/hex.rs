//! Lower-case hexadecimal rendering of bytes and integers, used for content
//! hashes, publish slugs and generated secret codes.

use vstd::prelude::*;

verus! {

/// The lower-case hex digit for a value below 16.
pub open spec fn hex_char_of(d: u8) -> char {
    if d == 0 {
        '0'
    } else if d == 1 {
        '1'
    } else if d == 2 {
        '2'
    } else if d == 3 {
        '3'
    } else if d == 4 {
        '4'
    } else if d == 5 {
        '5'
    } else if d == 6 {
        '6'
    } else if d == 7 {
        '7'
    } else if d == 8 {
        '8'
    } else if d == 9 {
        '9'
    } else if d == 10 {
        'a'
    } else if d == 11 {
        'b'
    } else if d == 12 {
        'c'
    } else if d == 13 {
        'd'
    } else if d == 14 {
        'e'
    } else {
        'f'
    }
}

/// Two lower-case hex digits for every byte, most significant digit first.
pub open spec fn hex_of(data: Seq<u8>) -> Seq<char>
    decreases data.len(),
{
    if data.len() == 0 {
        Seq::<char>::empty()
    } else {
        seq![hex_char_of(data.first() / 16), hex_char_of(data.first() % 16)] + hex_of(
            data.drop_first(),
        )
    }
}

/// The unpadded lower-case hex rendering of an integer: no leading zero
/// digits, and a single digit for values below 16.
pub open spec fn u64_hex_of(n: u64) -> Seq<char>
    decreases n,
{
    if n < 16 {
        seq![hex_char_of(n as u8)]
    } else {
        u64_hex_of(n / 16) + seq![hex_char_of((n % 16) as u8)]
    }
}

/// The unpadded hex rendering of one byte, as `u64_hex_of` gives it.
pub open spec fn byte_hex_of(b: u8) -> Seq<char> {
    if b < 16 {
        seq![hex_char_of(b)]
    } else {
        seq![hex_char_of(b / 16), hex_char_of(b % 16)]
    }
}

/// Relies on String::push: appends exactly the one character.
#[verifier::external_body]
pub fn push_char(s: &mut String, c: char)
    ensures
        final(s)@ == old(s)@ + seq![c],
{
    s.push(c);
}

fn hex_digit(d: u8) -> (c: char)
    requires
        d < 16,
    ensures
        c == hex_char_of(d),
{
    if d == 0 {
        '0'
    } else if d == 1 {
        '1'
    } else if d == 2 {
        '2'
    } else if d == 3 {
        '3'
    } else if d == 4 {
        '4'
    } else if d == 5 {
        '5'
    } else if d == 6 {
        '6'
    } else if d == 7 {
        '7'
    } else if d == 8 {
        '8'
    } else if d == 9 {
        '9'
    } else if d == 10 {
        'a'
    } else if d == 11 {
        'b'
    } else if d == 12 {
        'c'
    } else if d == 13 {
        'd'
    } else if d == 14 {
        'e'
    } else {
        'f'
    }
}

/// Renders a byte slice as its padded lower-case hex string.
pub fn to_hex(data: &[u8]) -> (r: String)
    ensures
        r@ == hex_of(data@),
{
    let mut r = String::new();
    let n = data.len();
    let mut i: usize = 0;
    assert(data@.skip(0) == data@);
    while i < n
        invariant
            n == data@.len(),
            i <= n,
            hex_of(data@) == r@ + hex_of(data@.skip(i as int)),
        decreases n - i,
    {
        let b = data[i];
        proof {
            let rest = data@.skip(i as int);
            assert(rest.first() == data@[i as int]);
            assert(rest.drop_first() =~= data@.skip(i as int + 1));
        }
        push_char(&mut r, hex_digit(b / 16));
        push_char(&mut r, hex_digit(b % 16));
        i = i + 1;
        proof {
            assert(hex_of(data@) =~= r@ + hex_of(data@.skip(i as int)));
        }
    }
    assert(data@.skip(n as int) =~= Seq::<u8>::empty());
    assert(r@ =~= hex_of(data@));
    r
}

/// Appends the unpadded hex rendering of one byte.
pub fn push_byte_hex(s: &mut String, b: u8)
    ensures
        final(s)@ == old(s)@ + byte_hex_of(b),
{
    if b < 16 {
        push_char(s, hex_digit(b));
    } else {
        push_char(s, hex_digit(b / 16));
        push_char(s, hex_digit(b % 16));
    }
}

/// Renders an integer as its unpadded lower-case hex string.
pub fn u64_to_hex(n: u64) -> (r: String)
    ensures
        r@ == u64_hex_of(n),
    decreases n,
{
    if n < 16 {
        let mut s = String::new();
        push_char(&mut s, hex_digit(n as u8));
        assert(s@ =~= u64_hex_of(n));
        s
    } else {
        assert(n / 16 < n) by (nonlinear_arith)
            requires
                n >= 16,
        ;
        let mut s = u64_to_hex(n / 16);
        push_char(&mut s, hex_digit((n % 16) as u8));
        assert(s@ =~= u64_hex_of(n));
        s
    }
}

} // verus!
