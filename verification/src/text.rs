use vstd::prelude::*;

verus! {

/// `String::push` appends one character to the end of the string.
pub assume_specification[ String::push ](string: &mut String, ch: char)
    ensures
        final(string)@ == old(string)@.push(ch),
;

/// The character of the decimal digit `d` (0 to 9).
pub open spec fn digit_char(d: int) -> char {
    (d + 48) as char
}

/// Whether `c` is one of the ASCII digits `0` to `9`.
pub open spec fn is_digit(c: char) -> bool {
    48 <= (c as int) <= 57
}

/// The value of the ASCII digit `c`.
pub open spec fn digit_value(c: char) -> int {
    (c as int) - 48
}

/// The decimal digits of `n`, most significant first, with no leading zero
/// (zero itself is the single digit `0`).
pub open spec fn digits(n: nat) -> Seq<char>
    decreases n,
{
    if n < 10 {
        seq![digit_char(n as int)]
    } else {
        digits(n / 10).push(digit_char((n % 10) as int))
    }
}

/// The text of `n` as Rust's `{}` writes an integer: a `-` before the
/// digits of a negative number.
pub open spec fn decimal(n: int) -> Seq<char> {
    if n < 0 {
        seq!['-'] + digits((-n) as nat)
    } else {
        digits(n as nat)
    }
}

/// `s` filled on the left with `0` up to `width` characters, as the format
/// `{:0>width}` does; a longer `s` is left as it is.
pub open spec fn pad_zeros(s: Seq<char>, width: nat) -> Seq<char> {
    if s.len() >= width {
        s
    } else {
        Seq::new((width - s.len()) as nat, |i: int| '0') + s
    }
}

fn digit_of(d: u128) -> (c: char)
    requires
        d < 10,
    ensures
        c == digit_char(d as int),
{
    let b: u8 = d as u8;
    (b + 48u8) as char
}

/// Appends the decimal digits of `m`.
pub fn push_digits(out: &mut String, m: u128)
    ensures
        final(out)@ == old(out)@ + digits(m as nat),
    decreases m,
{
    if m >= 10 {
        push_digits(out, m / 10);
        out.push(digit_of(m % 10));
        assert(digits(m as nat) == digits((m / 10) as nat).push(digit_char((m % 10) as int)));
    } else {
        out.push(digit_of(m));
    }
}


/// The number of decimal digits of `m`.
pub fn digit_count(m: u128) -> (n: usize)
    ensures
        n == digits(m as nat).len(),
        n <= 39,
    decreases m,
{
    proof {
        lemma_pow10_39();
        lemma_digits_len_bound(m as nat, 39);
    }
    if m >= 10 {
        let k = digit_count(m / 10);
        assert(digits(m as nat) == digits((m / 10) as nat).push(digit_char((m % 10) as int)));
        k + 1
    } else {
        1
    }
}

proof fn lemma_pow10_39()
    ensures
        pow10(39) > u128::MAX,
{
    reveal_with_fuel(pow10, 40);
}

proof fn lemma_digits_len_bound(n: nat, k: nat)
    requires
        1 <= k,
        n < pow10(k),
    ensures
        digits(n).len() <= k,
    decreases k,
{
    if n >= 10 {
        assert(n / 10 < pow10((k - 1) as nat));
        lemma_digits_len_bound(n / 10, (k - 1) as nat);
    }
}

/// A number below ten to the power `width` takes exactly `width`
/// characters when padded with zeros to `width`.
pub proof fn lemma_padded_len(n: nat, width: nat)
    requires
        1 <= width,
        n < pow10(width),
    ensures
        pad_zeros(decimal(n as int), width).len() == width,
{
    lemma_digits_len_bound(n, width);
}

/// Ten to the power `width` for the widths of the display: 10, 100, 1000.
pub proof fn lemma_pow10_small()
    ensures
        pow10(1) == 10,
        pow10(2) == 100,
        pow10(3) == 1000,
{
    reveal_with_fuel(pow10, 4);
}

/// Ten to the power `k`.
pub open spec fn pow10(k: nat) -> nat
    decreases k,
{
    if k == 0 {
        1
    } else {
        10 * pow10((k - 1) as nat)
    }
}

/// The magnitude of `n`, which fits a `u128` for every `i128`.
fn magnitude(n: i128) -> (m: u128)
    ensures
        m as int == if n < 0 { -n } else { n as int },
{
    if n < 0 {
        let p: i128 = -(n + 1);
        (p as u128) + 1
    } else {
        n as u128
    }
}

/// Appends `n` as `{}` writes it.
pub fn push_decimal(out: &mut String, n: i128)
    ensures
        final(out)@ == old(out)@ + decimal(n as int),
{
    let m = magnitude(n);
    if n < 0 {
        out.push('-');
    }
    push_digits(out, m);
    proof {
        if n < 0 {
            assert(old(out)@ + decimal(n as int) =~= old(out)@.push('-') + digits(m as nat));
        }
    }
}

/// Appends `n` as `{:0>width}` writes it.
pub fn push_padded(out: &mut String, n: i128, width: usize)
    ensures
        final(out)@ == old(out)@ + pad_zeros(decimal(n as int), width as nat),
{
    let m = magnitude(n);
    let len: usize = if n < 0 { digit_count(m) + 1 } else { digit_count(m) };
    assert(len == decimal(n as int).len());
    let mut k: usize = len;
    let ghost start = out@;
    while k < width
        invariant
            len <= k <= width || (k == len && width < len),
            out@ == start + Seq::new((k - len) as nat, |i: int| '0'),
        decreases width - k,
    {
        out.push('0');
        k = k + 1;
        assert(out@ =~= start + Seq::new((k - len) as nat, |i: int| '0'));
    }
    push_decimal(out, n);
    assert(out@ =~= old(out)@ + pad_zeros(decimal(n as int), width as nat));
}

} // verus!
