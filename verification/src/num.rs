//! Decimal rendering and parsing of unsigned numbers, plain and
//! zero-padded, with round-trip lemmas.

use vstd::prelude::*;
use vstd::string::*;

verus! {

/// The character for one decimal digit value.
pub open spec fn digit_char(d: int) -> char {
    if d == 0 {
        '0'
    } else if d == 1 {
        '1'
    } else if d == 2 {
        '2'
    } else if d == 3 {
        '3'
    } else if d == 4 {
        '4'
    } else if d == 5 {
        '5'
    } else if d == 6 {
        '6'
    } else if d == 7 {
        '7'
    } else if d == 8 {
        '8'
    } else {
        '9'
    }
}

/// Whether `c` is a decimal digit.
pub open spec fn is_digit(c: char) -> bool {
    '0' as u32 <= c as u32 <= '9' as u32
}

/// The value of a digit character.
pub open spec fn digit_val(c: char) -> int {
    c as u32 - '0' as u32
}

/// Whether every character of `s` is a decimal digit.
pub open spec fn all_digits(s: Seq<char>) -> bool {
    forall|i: int| 0 <= i < s.len() ==> is_digit(#[trigger] s[i])
}

/// The decimal rendering of `n`, without leading zeroes (a single `0` for
/// zero).
pub open spec fn spec_dec_digits(n: nat) -> Seq<char>
    decreases n,
{
    if n < 10 {
        seq![digit_char(n as int)]
    } else {
        spec_dec_digits(n / 10).push(digit_char((n % 10) as int))
    }
}

/// The decimal rendering of `n` zero-padded to exactly `width` digits
/// (the value taken modulo ten to the `width`).
pub open spec fn spec_padded(n: nat, width: nat) -> Seq<char>
    decreases width,
{
    if width == 0 {
        Seq::empty()
    } else {
        spec_padded(n / 10, (width - 1) as nat).push(digit_char((n % 10) as int))
    }
}

/// The number named by a digit string, most significant digit first.
pub open spec fn digits_val(s: Seq<char>) -> nat
    decreases s.len(),
{
    if s.len() == 0 {
        0
    } else {
        (digits_val(s.drop_last()) * 10 + digit_val(s.last())) as nat
    }
}

/// Ten to the `w`.
pub open spec fn pow10(w: nat) -> nat
    decreases w,
{
    if w == 0 {
        1
    } else {
        10 * pow10((w - 1) as nat)
    }
}

/// A digit character values its digit.
pub proof fn lemma_digit_char_val(d: int)
    requires
        0 <= d < 10,
    ensures
        is_digit(digit_char(d)),
        digit_val(digit_char(d)) == d,
{
}

/// Appends one digit character to `out`.
fn push_digit(out: &mut String, d: usize)
    requires
        d < 10,
    ensures
        final(out)@ == old(out)@.push(digit_char(d as int)),
{
    let table = "0123456789";
    proof {
        reveal_strlit("0123456789");
    }
    let piece = table.substring_char(d, d + 1);
    assert(piece@ =~= seq![digit_char(d as int)]);
    out.append(piece);
    proof {
        assert(out@ =~= old(out)@.push(digit_char(d as int)));
    }
}

/// The decimal rendering of `n`, without leading zeroes.
pub fn fmt_usize(n: usize) -> (r: String)
    ensures
        r@ == spec_dec_digits(n as nat),
    decreases n,
{
    if n < 10 {
        let mut r = String::new();
        push_digit(&mut r, n);
        proof {
            assert(r@ =~= seq![digit_char(n as int)]);
        }
        r
    } else {
        assert(n / 10 < n);
        let mut r = fmt_usize(n / 10);
        push_digit(&mut r, n % 10);
        r
    }
}

/// The decimal rendering of `n`, zero-padded to `width` digits.
pub fn fmt_padded(n: usize, width: usize) -> (r: String)
    ensures
        r@ == spec_padded(n as nat, width as nat),
    decreases width,
{
    if width == 0 {
        let r = String::new();
        proof {
            assert(r@ =~= spec_padded(n as nat, 0));
        }
        r
    } else {
        let mut r = fmt_padded(n / 10, width - 1);
        push_digit(&mut r, n % 10);
        r
    }
}

/// What the plain rendering looks like: nonempty, all digits, valued `n`,
/// and without a leading zero unless it is the single digit of zero.
pub proof fn lemma_dec_digits(n: nat)
    ensures
        spec_dec_digits(n).len() >= 1,
        all_digits(spec_dec_digits(n)),
        digits_val(spec_dec_digits(n)) == n,
        spec_dec_digits(n)[0] == '0' <==> n == 0,
        n < 10 <==> spec_dec_digits(n).len() == 1,
    decreases n,
{
    if n < 10 {
        lemma_digit_char_val(n as int);
        let u = seq![digit_char(n as int)];
        assert(u.len() == 1);
        assert(u.last() == digit_char(n as int));
        assert(u.drop_last() =~= Seq::<char>::empty());
        assert(digits_val(Seq::<char>::empty()) == 0);
        assert(digits_val(u) == (digits_val(u.drop_last()) * 10 + digit_val(u.last())) as nat);
        assert(digits_val(u) == n);
    } else {
        lemma_dec_digits(n / 10);
        lemma_digit_char_val((n % 10) as int);
        let t = spec_dec_digits(n / 10);
        let w = t.push(digit_char((n % 10) as int));
        assert(w.last() == digit_char((n % 10) as int));
        assert(w.drop_last() =~= t);
        assert(digits_val(w) == digits_val(t) * 10 + (n % 10));
        assert(n == (n / 10) * 10 + (n % 10)) by (nonlinear_arith);
        assert(digits_val(w) == n);
        assert(forall|i: int| 0 <= i < t.len() ==> w[i] == #[trigger] t[i]);
    }
}

/// What the padded rendering looks like: `width` digits valuing `n`, for
/// any `n` below ten to the `width`.
pub proof fn lemma_padded(n: nat, width: nat)
    requires
        n < pow10(width),
    ensures
        spec_padded(n, width).len() == width,
        all_digits(spec_padded(n, width)),
        digits_val(spec_padded(n, width)) == n,
    decreases width,
{
    if width == 0 {
    } else {
        assert(n / 10 < pow10((width - 1) as nat)) by (nonlinear_arith)
            requires
                n < pow10(width),
                pow10(width) == 10 * pow10((width - 1) as nat),
        ;
        lemma_padded(n / 10, (width - 1) as nat);
        lemma_digit_char_val((n % 10) as int);
        let t = spec_padded(n / 10, (width - 1) as nat);
        let w = t.push(digit_char((n % 10) as int));
        assert(w.last() == digit_char((n % 10) as int));
        assert(w.drop_last() =~= t);
        assert(digits_val(w) == digits_val(t) * 10 + (n % 10));
        assert(n == (n / 10) * 10 + (n % 10)) by (nonlinear_arith);
        assert(digits_val(w) == n);
        assert(forall|i: int| 0 <= i < t.len() ==> w[i] == #[trigger] t[i]);
    }
}

/// The value of a digit string only grows as more digits follow.
pub proof fn lemma_digits_val_prefix(s: Seq<char>, i: int)
    requires
        0 <= i <= s.len(),
        forall|j: int| i <= j < s.len() ==> is_digit(#[trigger] s[j]),
    ensures
        digits_val(s.subrange(0, i)) <= digits_val(s),
    decreases s.len() - i,
{
    if i < s.len() {
        lemma_digits_val_prefix(s, i + 1);
        let a = s.subrange(0, i);
        let b = s.subrange(0, i + 1);
        assert(b.drop_last() =~= a);
        assert(is_digit(b.last()));
        assert(digits_val(b) == digits_val(a) * 10 + digit_val(b.last()));
        assert(digits_val(a) <= digits_val(b)) by (nonlinear_arith)
            requires
                digits_val(b) == digits_val(a) * 10 + digit_val(b.last()),
                digit_val(b.last()) >= 0,
                digits_val(a) >= 0,
        ;
    } else {
        assert(s.subrange(0, i) =~= s);
    }
}

/// The small powers of ten, spelled out.
pub proof fn lemma_pow10_small()
    ensures
        pow10(0) == 1,
        pow10(1) == 10,
        pow10(2) == 100,
        pow10(3) == 1000,
        pow10(4) == 10000,
{
    assert(pow10(0) == 1);
    assert(pow10(1) == 10);
    assert(pow10(2) == 100);
    assert(pow10(3) == 1000);
    assert(pow10(4) == 10000);
}

/// A digit string of width `w` values below ten to the `w`.
pub proof fn lemma_digits_val_bound(s: Seq<char>)
    requires
        all_digits(s),
    ensures
        digits_val(s) < pow10(s.len()),
    decreases s.len(),
{
    if s.len() > 0 {
        let t = s.drop_last();
        assert(all_digits(t)) by {
            assert(forall|i: int| 0 <= i < t.len() ==> t[i] == #[trigger] s[i]);
        }
        lemma_digits_val_bound(t);
        assert(is_digit(s.last()));
        assert(digits_val(t) * 10 + digit_val(s.last()) < pow10(s.len())) by (nonlinear_arith)
            requires
                digits_val(t) < pow10((s.len() - 1) as nat),
                pow10(s.len()) == 10 * pow10((s.len() - 1) as nat),
                digit_val(s.last()) < 10,
        ;
    }
}

/// Parses a whole string of decimal digits into a number. `Some` exactly
/// when the string is nonempty, holds digits alone, and its value fits.
pub fn parse_usize(s: &str) -> (r: Option<usize>)
    ensures
        match r {
            Some(v) => s@.len() > 0 && all_digits(s@) && v as nat == digits_val(s@),
            None => !(s@.len() > 0 && all_digits(s@) && digits_val(s@) <= usize::MAX),
        },
{
    let n = s.unicode_len();
    if n == 0 {
        return None;
    }
    let mut acc: usize = 0;
    let mut i: usize = 0;
    while i < n
        invariant
            0 <= i <= n,
            n == s@.len(),
            acc as nat == digits_val(s@.subrange(0, i as int)),
            forall|j: int| 0 <= j < i ==> is_digit(#[trigger] s@[j]),
        decreases n - i,
    {
        let c = s.get_char(i);
        let v = c as u32;
        if v < 48 || v > 57 {
            assert(!is_digit(s@[i as int]));
            return None;
        }
        let d = (v - 48) as usize;
        assert(d as int == digit_val(s@[i as int]));
        let ghost pre = s@.subrange(0, i as int);
        let ghost ext = s@.subrange(0, i + 1);
        proof {
            assert(ext.drop_last() =~= pre);
            assert(ext.last() == s@[i as int]);
        }
        if acc > (usize::MAX - d) / 10 {
            proof {
                assert(acc * 10 + d > usize::MAX) by (nonlinear_arith)
                    requires
                        acc > (usize::MAX - d) / 10,
                        0 <= d < 10,
                ;
                assert(digits_val(ext) > usize::MAX);
                if all_digits(s@) {
                    lemma_digits_val_prefix(s@, i + 1);
                }
            }
            return None;
        }
        proof {
            assert(acc * 10 + d <= usize::MAX) by (nonlinear_arith)
                requires
                    acc <= (usize::MAX - d) / 10,
                    0 <= d < 10,
            ;
        }
        acc = acc * 10 + d;
        i += 1;
    }
    proof {
        assert(s@.subrange(0, n as int) =~= s@);
    }
    Some(acc)
}

} // verus!
