//! Decimal representation of token amounts.
//!
//! Deposit amounts are 256-bit integers on the source chain and are carried
//! through the store as decimal strings, so the numeric meaning of such a
//! string is the central specification here: `dec_val` gives the value of a
//! digit string, `dec_of` the canonical digit string of a value, and the
//! executable functions parse and compare amounts against those definitions.

use vstd::prelude::*;
use vstd::string::StrSliceExecFns;

verus! {

/// Whether `c` is one of the characters `'0'` through `'9'`.
pub open spec fn is_dec_digit(c: char) -> bool {
    48 <= (c as u32) && (c as u32) <= 57
}

/// The numeric value of a digit character.
pub open spec fn dec_digit_val(c: char) -> nat
    recommends
        is_dec_digit(c),
{
    ((c as u32) - 48) as nat
}

/// Whether every character of `s` is a decimal digit.
pub open spec fn all_dec_digits(s: Seq<char>) -> bool {
    forall|i: int| 0 <= i < s.len() ==> is_dec_digit(#[trigger] s[i])
}

/// The numeric value of a string of decimal digits, most significant first.
pub open spec fn dec_val(s: Seq<char>) -> nat
    decreases s.len(),
{
    if s.len() == 0 {
        0
    } else {
        dec_val(s.drop_last()) * 10 + dec_digit_val(s.last())
    }
}

/// A canonical decimal string: nonempty, digits only, and no leading zero
/// except for the single-digit string holding zero itself.
pub open spec fn is_canonical_dec(s: Seq<char>) -> bool {
    &&& s.len() > 0
    &&& all_dec_digits(s)
    &&& (s.len() > 1 ==> s[0] != '0')
}

/// The digit character of a value below ten.
pub open spec fn dec_char_of(d: nat) -> char
    recommends
        d < 10,
{
    if d == 0 {
        '0'
    } else if d == 1 {
        '1'
    } else if d == 2 {
        '2'
    } else if d == 3 {
        '3'
    } else if d == 4 {
        '4'
    } else if d == 5 {
        '5'
    } else if d == 6 {
        '6'
    } else if d == 7 {
        '7'
    } else if d == 8 {
        '8'
    } else {
        '9'
    }
}

/// The table of digit characters matches `is_dec_digit` and `dec_digit_val`.
pub proof fn lemma_dec_char(d: nat)
    requires
        d < 10,
    ensures
        is_dec_digit(dec_char_of(d)),
        dec_digit_val(dec_char_of(d)) == d,
{
}

/// The canonical decimal string of a natural number.
pub open spec fn dec_of(n: nat) -> Seq<char>
    decreases n,
{
    if n < 10 {
        seq![dec_char_of(n)]
    } else {
        dec_of(n / 10).push(dec_char_of(n % 10))
    }
}

/// The integer value of a big-endian byte string.
pub open spec fn be_val(s: Seq<u8>) -> nat
    decreases s.len(),
{
    if s.len() == 0 {
        0
    } else {
        be_val(s.drop_last()) * 256 + (s.last() as nat)
    }
}

/// Two hundred fifty-six to the `n`th power.
pub open spec fn pow256(n: nat) -> nat
    decreases n,
{
    if n == 0 {
        1
    } else {
        256 * pow256((n - 1) as nat)
    }
}

/// `pow256` is positive.
pub proof fn lemma_pow256_pos(n: nat)
    ensures
        pow256(n) >= 1,
    decreases n,
{
    if n > 0 {
        lemma_pow256_pos((n - 1) as nat);
    }
}

/// Splitting a byte string splits its value by a power of two hundred
/// fifty-six.
pub proof fn lemma_be_val_concat(u: Seq<u8>, v: Seq<u8>)
    ensures
        be_val(u + v) == be_val(u) * pow256(v.len()) + be_val(v),
    decreases v.len(),
{
    if v.len() == 0 {
        assert(u + v =~= u);
        assert(pow256(v.len()) == 1);
        assert(be_val(v) == 0);
    } else {
        let v0 = v.drop_last();
        let d = v.last() as nat;
        lemma_be_val_concat(u, v0);
        assert((u + v).drop_last() =~= u + v0);
        assert((u + v).last() == v.last());
        assert(be_val(u + v) == be_val(u + v0) * 256 + d);
        assert((be_val(u) * pow256(v0.len()) + be_val(v0)) * 256 + d == be_val(u) * (256 * pow256(
            v0.len(),
        )) + (be_val(v0) * 256 + d)) by (nonlinear_arith);
        assert(pow256(v.len()) == 256 * pow256(v0.len()));
        assert(be_val(v) == be_val(v0) * 256 + d);
        assert(be_val(u + v) == be_val(u) * pow256(v.len()) + be_val(v));
    }
}

/// A byte string of zeros has value zero.
pub proof fn lemma_be_val_zero(s: Seq<u8>)
    requires
        forall|i: int| 0 <= i < s.len() ==> s[i] == 0,
    ensures
        be_val(s) == 0,
    decreases s.len(),
{
    if s.len() > 0 {
        lemma_be_val_zero(s.drop_last());
    }
}

/// A byte string whose bytes are all zero except possibly the last has the
/// last byte as its value.
pub proof fn lemma_be_val_low_byte(s: Seq<u8>)
    requires
        s.len() >= 1,
        forall|i: int| 0 <= i < s.len() - 1 ==> s[i] == 0,
    ensures
        be_val(s) == s.last(),
{
    lemma_be_val_zero(s.drop_last());
}

/// A nonzero byte anywhere above the last position pushes the value to at
/// least two hundred fifty-six.
pub proof fn lemma_be_val_high_byte(s: Seq<u8>, j: int)
    requires
        0 <= j < s.len() - 1,
        s[j] != 0,
    ensures
        be_val(s) >= 256,
{
    let u = s.subrange(0, j + 1);
    let v = s.subrange(j + 1, s.len() as int);
    assert(s =~= u + v);
    lemma_be_val_concat(u, v);
    assert(u.last() == s[j]);
    assert(be_val(u) == be_val(u.drop_last()) * 256 + u.last());
    assert(be_val(u) >= 1);
    assert(v.len() >= 1);
    lemma_pow256_pos((v.len() - 1) as nat);
    assert(pow256(v.len()) == 256 * pow256((v.len() - 1) as nat));
    assert(pow256(v.len()) >= 256);
    assert(be_val(u) * pow256(v.len()) >= 256) by (nonlinear_arith)
        requires
            be_val(u) >= 1,
            pow256(v.len()) >= 256,
    ;
}

/// Ten to the `n`th power.
pub open spec fn pow10(n: nat) -> nat
    decreases n,
{
    if n == 0 {
        1
    } else {
        10 * pow10((n - 1) as nat)
    }
}

/// `pow10` is positive and monotone.
pub proof fn lemma_pow10_mono(m: nat, n: nat)
    requires
        m <= n,
    ensures
        1 <= pow10(m) <= pow10(n),
    decreases n,
{
    if n > 0 {
        if m == n {
            lemma_pow10_mono((m - 1) as nat, (n - 1) as nat);
        } else {
            lemma_pow10_mono(m, (n - 1) as nat);
        }
    }
}

/// A digit string's value is below ten to its length.
pub proof fn lemma_dec_val_bound(s: Seq<char>)
    requires
        all_dec_digits(s),
    ensures
        dec_val(s) < pow10(s.len()),
    decreases s.len(),
{
    if s.len() > 0 {
        lemma_dec_val_bound(s.drop_last());
        assert(is_dec_digit(s.last()));
        assert(dec_val(s.drop_last()) * 10 + dec_digit_val(s.last()) < pow10(s.len())) by {
            assert(dec_val(s.drop_last()) + 1 <= pow10((s.len() - 1) as nat));
            assert((dec_val(s.drop_last()) + 1) * 10 <= pow10((s.len() - 1) as nat) * 10)
                by (nonlinear_arith)
                requires
                    dec_val(s.drop_last()) + 1 <= pow10((s.len() - 1) as nat),
            ;
        }
    }
}

/// Splitting a digit string splits its value by a power of ten.
pub proof fn lemma_dec_val_concat(u: Seq<char>, v: Seq<char>)
    ensures
        dec_val(u + v) == dec_val(u) * pow10(v.len()) + dec_val(v),
    decreases v.len(),
{
    if v.len() == 0 {
        assert(u + v =~= u);
        assert(pow10(v.len()) == 1);
        assert(dec_val(v) == 0);
        assert(dec_val(u + v) == dec_val(u) * pow10(v.len()) + dec_val(v));
    } else {
        let v0 = v.drop_last();
        let d = dec_digit_val(v.last());
        lemma_dec_val_concat(u, v0);
        assert((u + v).drop_last() =~= u + v0);
        assert((u + v).last() == v.last());
        assert(dec_val(u + v) == dec_val(u + v0) * 10 + d);
        assert((dec_val(u) * pow10(v0.len()) + dec_val(v0)) * 10 + d == dec_val(u) * (10 * pow10(
            v0.len(),
        )) + (dec_val(v0) * 10 + d)) by (nonlinear_arith);
        assert(pow10(v.len()) == 10 * pow10(v0.len()));
        assert(dec_val(v) == dec_val(v0) * 10 + d);
        assert(dec_val(u + v) == dec_val(u) * (10 * pow10(v0.len())) + dec_val(v));
        assert(dec_val(u) * (10 * pow10(v0.len())) == dec_val(u) * pow10(v.len()));
        assert(dec_val(u + v) == dec_val(u) * pow10(v.len()) + dec_val(v));
    }
}

/// A digit string without a leading zero has a value of at least ten to one
/// less than its length.
pub proof fn lemma_dec_val_leading(s: Seq<char>)
    requires
        all_dec_digits(s),
        s.len() >= 1,
        s[0] != '0',
    ensures
        dec_val(s) >= pow10((s.len() - 1) as nat),
    decreases s.len(),
{
    if s.len() == 1 {
        assert(is_dec_digit(s[0]));
        assert((s[0] as u32) != ('0' as u32)) by {
            if (s[0] as u32) == ('0' as u32) {
                vstd::utf8::char_u32_cast(s[0], s[0] as u32);
                vstd::utf8::char_u32_cast('0', '0' as u32);
            }
        }
    } else {
        let s0 = s.drop_last();
        assert(s0[0] == s[0]);
        lemma_dec_val_leading(s0);
        assert(dec_val(s0) * 10 >= pow10((s0.len() - 1) as nat) * 10) by (nonlinear_arith)
            requires
                dec_val(s0) >= pow10((s0.len() - 1) as nat),
        ;
    }
}

/// `dec_of` yields a canonical digit string whose value is the given number.
pub proof fn lemma_dec_of_val(n: nat)
    ensures
        is_canonical_dec(dec_of(n)),
        dec_val(dec_of(n)) == n,
    decreases n,
{
    if n < 10 {
        lemma_dec_char(n);
        assert(dec_val(dec_of(n)) == dec_val(seq![dec_char_of(n)].drop_last()) * 10
            + dec_digit_val(dec_char_of(n)));
        assert(seq![dec_char_of(n)].drop_last() =~= Seq::<char>::empty());
    } else {
        lemma_dec_of_val(n / 10);
        lemma_dec_char(n % 10);
        let w = dec_of(n / 10);
        assert(dec_of(n) == w.push(dec_char_of(n % 10)));
        assert(dec_of(n).drop_last() =~= w);
        assert(dec_val(dec_of(n)) == dec_val(w) * 10 + n % 10);
        assert(dec_val(w) * 10 + n % 10 == n) by (nonlinear_arith)
            requires
                dec_val(w) == n / 10,
        ;
        assert(is_dec_digit(dec_of(n)[dec_of(n).len() - 1]));
        assert(dec_of(n)[0] == w[0]);
        if w.len() == 1 {
            assert(w.drop_last() =~= Seq::<char>::empty());
            assert(w.last() == w[0]);
            assert(dec_val(Seq::<char>::empty()) == 0);
            assert(dec_val(w) == dec_val(w.drop_last()) * 10 + dec_digit_val(w.last()));
            assert(dec_val(w) == dec_digit_val(w[0]));
            if w[0] == '0' {
                assert(dec_digit_val('0') == 0);
                assert(false);
            }
        }
        assert(dec_of(n)[0] != '0');
    }
}

/// The value of a one-digit string is that digit.
pub proof fn lemma_dec_val_single(c: char)
    ensures
        dec_val(seq![c]) == dec_digit_val(c),
{
    assert(seq![c].drop_last() =~= Seq::<char>::empty());
    assert(dec_val(Seq::<char>::empty()) == 0);
    assert(dec_val(seq![c]) == dec_val(seq![c].drop_last()) * 10 + dec_digit_val(seq![c].last()));
}

/// Among equal-length digit strings with a common prefix, the one with the
/// smaller digit at the first difference has the smaller value.
pub proof fn lemma_dec_lex(a: Seq<char>, b: Seq<char>, i: int)
    requires
        all_dec_digits(a),
        all_dec_digits(b),
        a.len() == b.len(),
        0 <= i < a.len(),
        a.subrange(0, i) == b.subrange(0, i),
        dec_digit_val(a[i]) < dec_digit_val(b[i]),
    ensures
        dec_val(a) < dec_val(b),
{
    let n = a.len() as int;
    let m = (n - i - 1) as nat;
    let pre = a.subrange(0, i);
    let sa = a.subrange(i, n);
    let sb = b.subrange(i, n);
    let ra = a.subrange(i + 1, n);
    let rb = b.subrange(i + 1, n);
    let da = dec_digit_val(a[i]);
    let db = dec_digit_val(b[i]);
    assert(a =~= pre + sa);
    assert(b =~= pre + sb);
    lemma_dec_val_concat(pre, sa);
    lemma_dec_val_concat(pre, sb);
    assert(sa =~= seq![a[i]] + ra);
    assert(sb =~= seq![b[i]] + rb);
    lemma_dec_val_concat(seq![a[i]], ra);
    lemma_dec_val_concat(seq![b[i]], rb);
    lemma_dec_val_single(a[i]);
    lemma_dec_val_single(b[i]);
    assert(all_dec_digits(ra));
    lemma_dec_val_bound(ra);
    assert(dec_val(sa) == da * pow10(m) + dec_val(ra));
    assert(dec_val(sb) == db * pow10(m) + dec_val(rb));
    assert(da * pow10(m) + dec_val(ra) < db * pow10(m)) by (nonlinear_arith)
        requires
            dec_val(ra) < pow10(m),
            da < db,
    ;
    assert(dec_val(sa) < dec_val(sb));
    assert(dec_val(pre) * pow10(sa.len()) + dec_val(sa) < dec_val(pre) * pow10(sb.len()) + dec_val(
        sb,
    ));
}

/// Parses a decimal string into a `u128`.
///
/// Returns `Some` exactly when the string is nonempty, holds only decimal
/// digits, and its value fits in a `u128`; the value is then `dec_val` of the
/// string. Leading zeros are accepted, as the chain-side parser accepts them.
pub fn parse_u128(s: &str) -> (r: Option<u128>)
    ensures
        r is Some <==> (s@.len() > 0 && all_dec_digits(s@) && dec_val(s@) <= u128::MAX),
        r is Some ==> r->0 == dec_val(s@),
{
    let n = s.unicode_len();
    if n == 0 {
        return None;
    }
    let mut acc: u128 = 0;
    let mut i: usize = 0;
    while i < n
        invariant
            0 <= i <= n,
            n == s@.len(),
            all_dec_digits(s@.subrange(0, i as int)),
            acc == dec_val(s@.subrange(0, i as int)),
        decreases n - i,
    {
        let c = s.get_char(i);
        let u = c as u32;
        if u < 48 || u > 57 {
            proof {
                assert(!is_dec_digit(s@[i as int]));
            }
            return None;
        }
        let d = (u - 48) as u128;
        proof {
            assert(is_dec_digit(s@[i as int]));
            assert(d == dec_digit_val(s@[i as int]));
        }
        if acc > (u128::MAX - d) / 10 {
            proof {
                let taken = s@.subrange(0, i + 1);
                assert(taken.drop_last() =~= s@.subrange(0, i as int));
                assert(taken.last() == s@[i as int]);
                assert(dec_val(taken) == acc * 10 + d);
                assert(acc * 10 + d > u128::MAX) by (nonlinear_arith)
                    requires
                        acc > (u128::MAX - d) / 10,
                        0 <= d <= 9,
                        acc >= 0,
                ;
                if all_dec_digits(s@) {
                    let rest = s@.subrange(i + 1, n as int);
                    assert(s@ =~= taken + rest);
                    lemma_dec_val_concat(taken, rest);
                    lemma_pow10_mono(0, rest.len());
                    assert(dec_val(taken) * pow10(rest.len()) >= dec_val(taken) * 1)
                        by (nonlinear_arith)
                        requires
                            pow10(rest.len()) >= 1,
                            dec_val(taken) >= 0,
                    ;
                    assert(dec_val(s@) > u128::MAX);
                }
            }
            return None;
        }
        proof {
            assert(acc * 10 + d <= u128::MAX) by (nonlinear_arith)
                requires
                    acc <= (u128::MAX - d) / 10,
                    0 <= d <= 9,
                    acc >= 0,
            ;
            let taken = s@.subrange(0, i + 1);
            assert(taken.drop_last() =~= s@.subrange(0, i as int));
            assert(taken.last() == s@[i as int]);
        }
        acc = acc * 10 + d;
        i = i + 1;
    }
    proof {
        assert(s@.subrange(0, n as int) =~= s@);
    }
    Some(acc)
}

/// Decides whether a string is a canonical decimal.
pub fn check_canonical_dec(s: &str) -> (r: bool)
    ensures
        r == is_canonical_dec(s@),
{
    let n = s.unicode_len();
    if n == 0 {
        return false;
    }
    let c0 = s.get_char(0);
    if n > 1 && (c0 as u32) == 48 {
        proof {
            vstd::utf8::char_u32_cast(c0, c0 as u32);
            vstd::utf8::char_u32_cast('0', '0' as u32);
            assert(s@[0] == '0');
        }
        return false;
    }
    let mut i: usize = 0;
    while i < n
        invariant
            0 <= i <= n,
            n == s@.len(),
            forall|k: int| 0 <= k < i ==> is_dec_digit(#[trigger] s@[k]),
        decreases n - i,
    {
        let c = s.get_char(i);
        let u = c as u32;
        if u < 48 || u > 57 {
            proof {
                assert(!is_dec_digit(s@[i as int]));
            }
            return false;
        }
        i = i + 1;
    }
    proof {
        if s@.len() > 1 {
            if s@[0] == '0' {
                assert((c0 as u32) == ('0' as u32));
            }
        }
    }
    true
}

/// Compares two canonical decimal strings by numeric value.
pub fn dec_le(a: &str, b: &str) -> (r: bool)
    requires
        is_canonical_dec(a@),
        is_canonical_dec(b@),
    ensures
        r == (dec_val(a@) <= dec_val(b@)),
{
    let la = a.unicode_len();
    let lb = b.unicode_len();
    if la < lb {
        proof {
            lemma_dec_val_bound(a@);
            lemma_dec_val_leading(b@);
            lemma_pow10_mono(la as nat, (lb - 1) as nat);
        }
        return true;
    }
    if lb < la {
        proof {
            lemma_dec_val_bound(b@);
            lemma_dec_val_leading(a@);
            lemma_pow10_mono(lb as nat, (la - 1) as nat);
        }
        return false;
    }
    let mut i: usize = 0;
    while i < la
        invariant
            0 <= i <= la,
            la == a@.len(),
            la == b@.len(),
            is_canonical_dec(a@),
            is_canonical_dec(b@),
            a@.subrange(0, i as int) == b@.subrange(0, i as int),
        decreases la - i,
    {
        let ca = a.get_char(i);
        let cb = b.get_char(i);
        let ua = ca as u32;
        let ub = cb as u32;
        if ua != ub {
            proof {
                assert(is_dec_digit(a@[i as int]));
                assert(is_dec_digit(b@[i as int]));
                if ua < ub {
                    lemma_dec_lex(a@, b@, i as int);
                } else {
                    lemma_dec_lex(b@, a@, i as int);
                }
            }
            return ua < ub;
        }
        proof {
            vstd::utf8::char_u32_cast(ca, ua);
            vstd::utf8::char_u32_cast(cb, ub);
            assert(ca == cb);
            assert(a@.subrange(0, i + 1) =~= a@.subrange(0, i as int).push(a@[i as int]));
            assert(b@.subrange(0, i + 1) =~= b@.subrange(0, i as int).push(b@[i as int]));
        }
        i = i + 1;
    }
    proof {
        assert(a@.subrange(0, la as int) =~= a@);
        assert(b@.subrange(0, la as int) =~= b@);
        assert(a@ == b@);
    }
    true
}

} // verus!
