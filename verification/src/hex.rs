//! Lowercase hexadecimal rendering of byte strings, used for source-chain
//! transaction hashes and sender addresses.

use vstd::prelude::*;

use crate::trusted::push_char;

verus! {

/// The lowercase hexadecimal digit character of a value below sixteen.
pub open spec fn hex_digit_of(d: nat) -> char
    recommends
        d < 16,
{
    if d == 0 {
        '0'
    } else if d == 1 {
        '1'
    } else if d == 2 {
        '2'
    } else if d == 3 {
        '3'
    } else if d == 4 {
        '4'
    } else if d == 5 {
        '5'
    } else if d == 6 {
        '6'
    } else if d == 7 {
        '7'
    } else if d == 8 {
        '8'
    } else if d == 9 {
        '9'
    } else if d == 10 {
        'a'
    } else if d == 11 {
        'b'
    } else if d == 12 {
        'c'
    } else if d == 13 {
        'd'
    } else if d == 14 {
        'e'
    } else {
        'f'
    }
}

/// The two hexadecimal digits of one byte, high digit first.
pub open spec fn hex_of_byte(b: u8) -> Seq<char> {
    seq![hex_digit_of((b / 16) as nat), hex_digit_of((b % 16) as nat)]
}

/// The hexadecimal digits of a byte string.
pub open spec fn hex_digits(s: Seq<u8>) -> Seq<char>
    decreases s.len(),
{
    if s.len() == 0 {
        Seq::empty()
    } else {
        hex_digits(s.drop_last()) + hex_of_byte(s.last())
    }
}

/// The `0x`-prefixed lowercase hexadecimal rendering of a byte string.
pub open spec fn hex_with_prefix(s: Seq<u8>) -> Seq<char> {
    seq!['0', 'x'] + hex_digits(s)
}

/// The lowercase hexadecimal digit character of a byte value below sixteen.
fn hex_digit_char(d: u8) -> (c: char)
    requires
        d < 16,
    ensures
        c == hex_digit_of(d as nat),
{
    if d == 0 {
        '0'
    } else if d == 1 {
        '1'
    } else if d == 2 {
        '2'
    } else if d == 3 {
        '3'
    } else if d == 4 {
        '4'
    } else if d == 5 {
        '5'
    } else if d == 6 {
        '6'
    } else if d == 7 {
        '7'
    } else if d == 8 {
        '8'
    } else if d == 9 {
        '9'
    } else if d == 10 {
        'a'
    } else if d == 11 {
        'b'
    } else if d == 12 {
        'c'
    } else if d == 13 {
        'd'
    } else if d == 14 {
        'e'
    } else {
        'f'
    }
}

/// Renders a byte string as `0x`-prefixed lowercase hexadecimal.
pub fn to_hex_string(bytes: &[u8]) -> (r: String)
    ensures
        r@ == hex_with_prefix(bytes@),
{
    let mut s = String::new();
    push_char(&mut s, '0');
    push_char(&mut s, 'x');
    proof {
        assert(bytes@.subrange(0, 0) =~= Seq::<u8>::empty());
        assert(s@ =~= seq!['0', 'x'] + hex_digits(bytes@.subrange(0, 0)));
    }
    let n = bytes.len();
    let mut i: usize = 0;
    while i < n
        invariant
            0 <= i <= n,
            n == bytes@.len(),
            s@ == seq!['0', 'x'] + hex_digits(bytes@.subrange(0, i as int)),
        decreases n - i,
    {
        let b = bytes[i];
        push_char(&mut s, hex_digit_char(b / 16));
        push_char(&mut s, hex_digit_char(b % 16));
        proof {
            let taken = bytes@.subrange(0, i + 1);
            assert(taken.drop_last() =~= bytes@.subrange(0, i as int));
            assert(taken.last() == bytes@[i as int]);
            assert(hex_digits(taken) == hex_digits(bytes@.subrange(0, i as int)) + hex_of_byte(
                bytes@[i as int],
            ));
            assert(s@ =~= seq!['0', 'x'] + hex_digits(taken));
        }
        i = i + 1;
    }
    proof {
        assert(bytes@.subrange(0, n as int) =~= bytes@);
    }
    s
}

} // verus!
