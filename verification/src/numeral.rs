//! Decimal and hexadecimal digit helpers shared by the codec and the
//! timestamp formatter.

use vstd::prelude::*;

verus! {

/// The decimal digit character for a value below ten.
pub open spec fn dec_digit(n: int) -> char {
    if n == 0 { '0' }
    else if n == 1 { '1' }
    else if n == 2 { '2' }
    else if n == 3 { '3' }
    else if n == 4 { '4' }
    else if n == 5 { '5' }
    else if n == 6 { '6' }
    else if n == 7 { '7' }
    else if n == 8 { '8' }
    else { '9' }
}

/// Numeric value of a decimal digit character; ten when it is no digit.
pub open spec fn dec_val(c: char) -> int {
    if c == '0' { 0 }
    else if c == '1' { 1 }
    else if c == '2' { 2 }
    else if c == '3' { 3 }
    else if c == '4' { 4 }
    else if c == '5' { 5 }
    else if c == '6' { 6 }
    else if c == '7' { 7 }
    else if c == '8' { 8 }
    else if c == '9' { 9 }
    else { 10 }
}

pub open spec fn is_dec_digit(c: char) -> bool {
    dec_val(c) < 10
}

pub proof fn lemma_dec_digit_val(n: int)
    requires
        0 <= n < 10,
    ensures
        dec_val(dec_digit(n)) == n,
        is_dec_digit(dec_digit(n)),
{
}

/// Executable counterpart of [`dec_digit`].
pub fn dec_digit_exec(n: u32) -> (c: char)
    requires
        n < 10,
    ensures
        c == dec_digit(n as int),
{
    if n == 0 { '0' }
    else if n == 1 { '1' }
    else if n == 2 { '2' }
    else if n == 3 { '3' }
    else if n == 4 { '4' }
    else if n == 5 { '5' }
    else if n == 6 { '6' }
    else if n == 7 { '7' }
    else if n == 8 { '8' }
    else { '9' }
}

/// Executable counterpart of [`dec_val`].
pub fn dec_val_exec(c: char) -> (n: u32)
    ensures
        n == dec_val(c),
{
    if c == '0' { 0 }
    else if c == '1' { 1 }
    else if c == '2' { 2 }
    else if c == '3' { 3 }
    else if c == '4' { 4 }
    else if c == '5' { 5 }
    else if c == '6' { 6 }
    else if c == '7' { 7 }
    else if c == '8' { 8 }
    else if c == '9' { 9 }
    else { 10 }
}

} // verus!

verus! {

/// The hexadecimal digit character (lower case) for a value below sixteen.
pub open spec fn hex_digit(n: int) -> char {
    if n < 10 { dec_digit(n) }
    else if n == 10 { 'a' }
    else if n == 11 { 'b' }
    else if n == 12 { 'c' }
    else if n == 13 { 'd' }
    else if n == 14 { 'e' }
    else { 'f' }
}

/// Numeric value of a hexadecimal digit character (either case); sixteen when
/// it is no such digit.
pub open spec fn hex_val(c: char) -> int {
    if dec_val(c) < 10 { dec_val(c) }
    else if c == 'a' || c == 'A' { 10 }
    else if c == 'b' || c == 'B' { 11 }
    else if c == 'c' || c == 'C' { 12 }
    else if c == 'd' || c == 'D' { 13 }
    else if c == 'e' || c == 'E' { 14 }
    else if c == 'f' || c == 'F' { 15 }
    else { 16 }
}

pub open spec fn is_hex_digit(c: char) -> bool {
    hex_val(c) < 16
}

pub proof fn lemma_hex_digit_val(n: int)
    requires
        0 <= n < 16,
    ensures
        hex_val(hex_digit(n)) == n,
        is_hex_digit(hex_digit(n)),
{
}

pub fn hex_digit_exec(n: u32) -> (c: char)
    requires
        n < 16,
    ensures
        c == hex_digit(n as int),
{
    if n < 10 { dec_digit_exec(n) }
    else if n == 10 { 'a' }
    else if n == 11 { 'b' }
    else if n == 12 { 'c' }
    else if n == 13 { 'd' }
    else if n == 14 { 'e' }
    else { 'f' }
}

pub fn hex_val_exec(c: char) -> (n: u32)
    ensures
        n == hex_val(c),
{
    let d = dec_val_exec(c);
    if d < 10 { d }
    else if c == 'a' || c == 'A' { 10 }
    else if c == 'b' || c == 'B' { 11 }
    else if c == 'c' || c == 'C' { 12 }
    else if c == 'd' || c == 'D' { 13 }
    else if c == 'e' || c == 'E' { 14 }
    else if c == 'f' || c == 'F' { 15 }
    else { 16 }
}

/// Ten to the `w`th power.
pub open spec fn pow10(w: nat) -> int
    decreases w,
{
    if w == 0 { 1 } else { 10 * pow10((w - 1) as nat) }
}

pub proof fn lemma_pow10_pos(w: nat)
    ensures
        pow10(w) >= 1,
    decreases w,
{
    if w > 0 {
        lemma_pow10_pos((w - 1) as nat);
    }
}

/// `n` written in decimal with exactly `w` digits, leading zeroes included.
/// Values at or above ten to the `w`th are truncated to their low digits.
pub open spec fn dec_pad(n: int, w: nat) -> Seq<char>
    decreases w,
{
    if w == 0 {
        Seq::<char>::empty()
    } else {
        dec_pad(n / 10, (w - 1) as nat).push(dec_digit(n % 10))
    }
}

pub proof fn lemma_dec_pad_len(n: int, w: nat)
    ensures
        dec_pad(n, w).len() == w,
    decreases w,
{
    if w > 0 {
        lemma_dec_pad_len(n / 10, (w - 1) as nat);
    }
}

/// All characters of a fixed-width decimal rendering are digits.
pub proof fn lemma_dec_pad_digits(n: int, w: nat, k: int)
    requires
        n >= 0,
        0 <= k < w,
    ensures
        dec_pad(n, w).len() == w,
        is_dec_digit(dec_pad(n, w)[k]),
    decreases w,
{
    lemma_dec_pad_len(n, w);
    if w > 0 {
        lemma_dec_pad_len(n / 10, (w - 1) as nat);
        if k < w - 1 {
            lemma_dec_pad_digits(n / 10, (w - 1) as nat, k);
        } else {
            lemma_dec_digit_val(n % 10);
        }
    }
}

/// The value of a digit string read as a decimal numeral.
pub open spec fn dec_value(s: Seq<char>) -> int
    decreases s.len(),
{
    if s.len() == 0 {
        0
    } else {
        dec_value(s.drop_last()) * 10 + dec_val(s.last())
    }
}

/// Reading back a fixed-width decimal rendering gives the value back.
pub proof fn lemma_dec_roundtrip(n: int, w: nat)
    requires
        0 <= n < pow10(w),
    ensures
        dec_value(dec_pad(n, w)) == n,
    decreases w,
{
    if w == 0 {
        assert(pow10(0) == 1);
    } else {
        let head = dec_pad(n / 10, (w - 1) as nat);
        let whole = dec_pad(n, w);
        lemma_dec_pad_len(n / 10, (w - 1) as nat);
        assert(whole == head.push(dec_digit(n % 10)));
        assert(whole.drop_last() == head);
        assert(whole.last() == dec_digit(n % 10));
        assert(n / 10 < pow10((w - 1) as nat)) by {
            assert(pow10(w) == 10 * pow10((w - 1) as nat));
        };
        lemma_dec_roundtrip(n / 10, (w - 1) as nat);
        lemma_dec_digit_val(n % 10);
    }
}

/// Appends `n` in decimal, zero padded to exactly `w` digits.
pub fn push_dec_pad(out: &mut Vec<char>, n: u32, w: usize) -> (nothing: ())
    ensures
        final(out)@ == old(out)@ + dec_pad(n as int, w as nat),
    decreases w,
{
    if w == 0 {
        assert(out@ == old(out)@ + dec_pad(n as int, 0));
    } else {
        push_dec_pad(out, n / 10, w - 1);
        out.push(dec_digit_exec(n % 10));
        assert(out@ == old(out)@ + dec_pad(n as int, w as nat));
    }
}

} // verus!

verus! {

pub proof fn lemma_pow10_add(a: nat, b: nat)
    ensures
        pow10(a + b) == pow10(a) * pow10(b),
    decreases a,
{
    if a == 0 {
    } else {
        lemma_pow10_add((a - 1) as nat, b);
        assert(pow10(a + b) == 10 * pow10((a + b - 1) as nat));
        assert((10 * pow10((a - 1) as nat)) * pow10(b) == 10 * (pow10((a - 1) as nat) * pow10(b)))
            by (nonlinear_arith);
    }
}

/// The value of `s[i..j]` read as a decimal numeral, when every character in
/// that range is a digit.
pub open spec fn dec_value_range(s: Seq<char>, i: int, j: int) -> int {
    dec_value(s.subrange(i, j))
}

pub open spec fn all_dec_digits(s: Seq<char>, i: int, j: int) -> bool {
    forall|k: int| i <= k < j ==> is_dec_digit(#[trigger] s[k])
}

/// One step of reading a numeral: taking in one more digit multiplies the
/// prefix value by ten and adds the digit.
pub proof fn lemma_dec_value_step(s: Seq<char>, i: int, k: int)
    requires
        0 <= i <= k < s.len(),
    ensures
        dec_value(s.subrange(i, k + 1)) == dec_value(s.subrange(i, k)) * 10 + dec_val(s[k]),
{
    let w = s.subrange(i, k + 1);
    assert(w.drop_last() =~= s.subrange(i, k));
    assert(w.last() == s[k]);
}

/// A numeral of `w` digits is below ten to the `w`th.
pub proof fn lemma_dec_value_bound(s: Seq<char>)
    requires
        all_dec_digits(s, 0, s.len() as int),
    ensures
        0 <= dec_value(s) < pow10(s.len()),
    decreases s.len(),
{
    if s.len() == 0 {
    } else {
        assert(all_dec_digits(s.drop_last(), 0, s.len() - 1)) by {
            assert(forall|k: int| 0 <= k < s.len() - 1 ==> s.drop_last()[k] == #[trigger] s[k]);
        };
        lemma_dec_value_bound(s.drop_last());
        assert(dec_val(s.last()) < 10);
        assert(pow10(s.len()) == 10 * pow10((s.len() - 1) as nat));
        assert(dec_value(s.drop_last()) * 10 + 10 <= pow10((s.len() - 1) as nat) * 10) by (nonlinear_arith)
            requires dec_value(s.drop_last()) < pow10((s.len() - 1) as nat);
    }
}

/// Bounds for a numeral read out of a range of digits.
pub proof fn lemma_dec_value_range_bound(s: Seq<char>, i: int, j: int)
    requires
        0 <= i <= j <= s.len(),
        all_dec_digits(s, i, j),
    ensures
        0 <= dec_value_range(s, i, j) < pow10((j - i) as nat),
{
    let w = s.subrange(i, j);
    assert(all_dec_digits(w, 0, w.len() as int)) by {
        assert forall|k: int| 0 <= k < w.len() implies is_dec_digit(#[trigger] w[k]) by {
            assert(w[k] == s[i + k]);
        };
    };
    lemma_dec_value_bound(w);
}

/// Executable ten-to-the-`w` for small `w`.
pub fn pow10_exec(w: usize) -> (r: u32)
    requires
        w <= 9,
    ensures
        r == pow10(w as nat),
{
    let mut r: u32 = 1;
    let mut k: usize = 0;
    while k < w
        invariant
            k <= w <= 9,
            r == pow10(k as nat),
        decreases w - k,
    {
        proof {
            lemma_pow10_pos(k as nat);
            lemma_pow10_add(k as nat, (8 - k) as nat);
            lemma_pow10_pos((8 - k) as nat);
            assert(pow10(k as nat) <= pow10(8)) by (nonlinear_arith)
                requires
                    pow10(8) == pow10(k as nat) * pow10((8 - k) as nat),
                    pow10(k as nat) >= 1,
                    pow10((8 - k) as nat) >= 1,
            ;
            reveal_with_fuel(pow10, 9);
            assert(pow10(8) == 100_000_000);
        }
        r = r * 10;
        k = k + 1;
    }
    r
}

/// Reads `s[i..j]` as a decimal numeral; `None` when the range runs out of
/// the slice or holds a character that is no digit.
pub fn read_number(s: &[char], i: usize, j: usize) -> (r: Option<u32>)
    requires
        i <= j,
        j - i <= 9,
    ensures
        match r {
            Some(v) => {
                &&& j <= s@.len()
                &&& all_dec_digits(s@, i as int, j as int)
                &&& v == dec_value_range(s@, i as int, j as int)
                &&& v < pow10((j - i) as nat)
            },
            None => j > s@.len() || !all_dec_digits(s@, i as int, j as int),
        },
{
    if j > s.len() {
        return None;
    }
    let mut v: u32 = 0;
    let mut k: usize = i;
    while k < j
        invariant
            i <= k <= j <= s@.len(),
            j - i <= 9,
            all_dec_digits(s@, i as int, k as int),
            v == dec_value_range(s@, i as int, k as int),
            v < pow10((k - i) as nat),
        decreases j - k,
    {
        let d = dec_val_exec(s[k]);
        if d >= 10 {
            return None;
        }
        proof {
            lemma_dec_value_step(s@, i as int, k as int);
            lemma_pow10_pos((k - i) as nat);
            lemma_pow10_add((k - i) as nat, (8 - (k - i)) as nat);
            lemma_pow10_pos((8 - (k - i)) as nat);
            assert(pow10((k - i) as nat) <= pow10(8)) by (nonlinear_arith)
                requires
                    pow10(8) == pow10((k - i) as nat) * pow10((8 - (k - i)) as nat),
                    pow10((k - i) as nat) >= 1,
                    pow10((8 - (k - i)) as nat) >= 1,
            ;
            assert(v * 10 + 10 <= pow10((k - i) as nat) * 10) by (nonlinear_arith)
                requires v < pow10((k - i) as nat);
            reveal_with_fuel(pow10, 9);
            assert(pow10(8) == 100_000_000);
        }
        v = v * 10 + d;
        k = k + 1;
    }
    Some(v)
}

} // verus!

verus! {

/// Number of consecutive decimal digits of `s` from position `i` on.
pub open spec fn digit_run(s: Seq<char>, i: int) -> int
    decreases s.len() - i when 0 <= i <= s.len()
{
    if i >= s.len() || !is_dec_digit(s[i]) {
        0
    } else {
        1 + digit_run(s, i + 1)
    }
}

/// Every position inside a digit run carries a digit.
pub proof fn lemma_digit_run_digits(s: Seq<char>, i: int)
    requires
        0 <= i <= s.len(),
    ensures
        i + digit_run(s, i) <= s.len(),
        forall|k: int| i <= k < i + digit_run(s, i) ==> is_dec_digit(#[trigger] s[k]),
    decreases s.len() - i,
{
    if i < s.len() && is_dec_digit(s[i]) {
        lemma_digit_run_digits(s, i + 1);
    }
}

/// A run of exactly `n` digits from `i` on, stopped by the end of the string
/// or a character that is no digit, has `digit_run` equal to `n`.
pub proof fn lemma_digit_run(s: Seq<char>, i: int, n: int)
    requires
        0 <= i,
        n >= 0,
        i + n <= s.len(),
        all_dec_digits(s, i, i + n),
        i + n == s.len() || !is_dec_digit(s[i + n]),
    ensures
        digit_run(s, i) == n,
    decreases n,
{
    if n == 0 {
    } else {
        assert(is_dec_digit(s[i]));
        lemma_digit_run(s, i + 1, n - 1);
    }
}

} // verus!

verus! {

/// A number in decimal, without leading zeroes.
pub open spec fn dec_render(n: int) -> Seq<char>
    decreases n,
{
    if n < 10 {
        seq![dec_digit(n)]
    } else {
        dec_render(n / 10).push(dec_digit(n % 10))
    }
}

/// Appends a number in decimal, without leading zeroes.
pub fn push_int(out: &mut Vec<char>, n: u32) -> (nothing: ())
    ensures
        final(out)@ == old(out)@ + dec_render(n as int),
    decreases n,
{
    if n < 10 {
        out.push(crate::numeral::dec_digit_exec(n));
        proof {
            assert(final(out)@ =~= old(out)@ + dec_render(n as int));
        }
    } else {
        push_int(out, n / 10);
        out.push(crate::numeral::dec_digit_exec(n % 10));
        proof {
            assert(final(out)@ =~= old(out)@ + dec_render(n as int));
        }
    }
}

/// Every character of a rendered number is a digit.
pub proof fn lemma_dec_render_digits(n: int)
    requires
        n >= 0,
    ensures
        dec_render(n).len() >= 1,
        forall|k: int| 0 <= k < dec_render(n).len() ==> is_dec_digit(#[trigger] dec_render(n)[k]),
    decreases n,
{
    if n < 10 {
        lemma_dec_digit_val(n);
    } else {
        lemma_dec_render_digits(n / 10);
        lemma_dec_digit_val(n % 10);
        assert forall|k: int| 0 <= k < dec_render(n).len()
            implies is_dec_digit(#[trigger] dec_render(n)[k]) by {
            if k < dec_render(n).len() - 1 {
                assert(dec_render(n)[k] == dec_render(n / 10)[k]);
            }
        };
    }
}

/// Reading a rendered number back gives the number.
pub proof fn lemma_dec_render_value(n: int)
    requires
        n >= 0,
    ensures
        dec_value(dec_render(n)) == n,
    decreases n,
{
    if n < 10 {
        lemma_dec_digit_val(n);
        let r = dec_render(n);
        assert(r == seq![dec_digit(n)]);
        assert(r.len() == 1);
        assert(r.last() == dec_digit(n));
        assert(r.drop_last() =~= Seq::<char>::empty());
        assert(dec_value(Seq::<char>::empty()) == 0);
        assert(dec_value(r) == dec_value(r.drop_last()) * 10 + dec_val(r.last()));
    } else {
        lemma_dec_render_value(n / 10);
        lemma_dec_digit_val(n % 10);
        let r = dec_render(n);
        assert(r == dec_render(n / 10).push(dec_digit(n % 10)));
        assert(r.drop_last() =~= dec_render(n / 10));
        assert(r.last() == dec_digit(n % 10));
        assert(dec_value(r) == dec_value(dec_render(n / 10)) * 10 + dec_val(dec_digit(n % 10)));
    }
}

/// A number below ten to the `w`th renders in at most `w` digits.
pub proof fn lemma_dec_render_len(n: int, w: nat)
    requires
        0 <= n < pow10(w),
        w >= 1,
    ensures
        dec_render(n).len() <= w,
    decreases n,
{
    if n < 10 {
    } else {
        assert(pow10(w) == 10 * pow10((w - 1) as nat));
        assert(w >= 2) by {
            if w == 1 {
                assert(pow10(1) == 10 * pow10(0));
            }
        };
        lemma_dec_render_len(n / 10, (w - 1) as nat);
    }
}

} // verus!
