use vstd::prelude::*;
use vstd::string::*;
use crate::text::{is_digit, digit_value};

verus! {

/// The pieces of `s` between the occurrences of `c`, as `str::split` gives
/// them: one more piece than there are separators, empty pieces included.
pub open spec fn split_on(s: Seq<char>, c: char) -> Seq<Seq<char>>
    decreases s.len(),
{
    if s.len() == 0 {
        seq![Seq::empty()]
    } else {
        let p = split_on(s.drop_last(), c);
        if s.last() == c {
            p.push(Seq::empty())
        } else {
            p.update(p.len() - 1, p[p.len() - 1].push(s.last()))
        }
    }
}

/// `split_on` gives at least one piece.
pub proof fn lemma_split_on_nonempty(s: Seq<char>, c: char)
    ensures
        split_on(s, c).len() >= 1,
    decreases s.len(),
{
    if s.len() > 0 {
        lemma_split_on_nonempty(s.drop_last(), c);
    }
}

/// The views of a sequence of vectors of characters.
pub open spec fn views(v: Seq<Vec<char>>) -> Seq<Seq<char>> {
    v.map_values(|x: Vec<char>| x@)
}

/// Splits `s` at every `c`.
pub fn split_chars(s: &Vec<char>, c: char) -> (pieces: Vec<Vec<char>>)
    ensures
        views(pieces@) == split_on(s@, c),
        pieces@.len() >= 1,
{
    let mut done: Vec<Vec<char>> = Vec::new();
    let mut cur: Vec<char> = Vec::new();
    let mut i: usize = 0;
    assert(s@.take(0) =~= Seq::<char>::empty());
    assert(views(done@).push(cur@) =~= split_on(s@.take(0), c));
    while i < s.len()
        invariant
            i <= s.len(),
            views(done@).push(cur@) == split_on(s@.take(i as int), c),
        decreases s.len() - i,
    {
        let x = s[i];
        let ghost prev = split_on(s@.take(i as int), c);
        assert(s@.take(i + 1).drop_last() =~= s@.take(i as int));
        if x == c {
            let finished = cur;
            done.push(finished);
            cur = Vec::new();
            assert(views(done@) =~= prev);
            assert(views(done@).push(cur@) =~= split_on(s@.take(i + 1), c));
        } else {
            cur.push(x);
            assert(views(done@).push(cur@) =~= split_on(s@.take(i + 1), c));
        }
        i = i + 1;
    }
    assert(s@.take(s.len() as int) =~= s@);
    let ghost last = cur@;
    let ghost dv = views(done@);
    done.push(cur);
    assert(views(done@) =~= dv.push(last));
    done
}

/// The number that the digits `s` spell, most significant first.
pub open spec fn digits_value(s: Seq<char>) -> nat
    decreases s.len(),
{
    if s.len() == 0 {
        0
    } else {
        digits_value(s.drop_last()) * 10 + digit_value(s.last()) as nat
    }
}

/// Whether every character of `s` is an ASCII digit.
pub open spec fn all_digits(s: Seq<char>) -> bool {
    forall|i: int| 0 <= i < s.len() ==> is_digit(#[trigger] s[i])
}

/// The digits that follow an optional leading `+`.
pub open spec fn unsigned_body(s: Seq<char>) -> Seq<char> {
    if s.len() > 0 && s[0] == '+' {
        s.drop_first()
    } else {
        s
    }
}

/// What `str::parse::<u128>` makes of `s`: an optional `+`, then at least
/// one ASCII digit and nothing else, with a value that fits a `u128`.
pub open spec fn unsigned_text(s: Seq<char>) -> Option<nat> {
    let body = unsigned_body(s);
    if body.len() > 0 && all_digits(body) && digits_value(body) <= u128::MAX {
        Some(digits_value(body))
    } else {
        None
    }
}

/// A longer run of digits is worth at least as much as its prefixes.
proof fn lemma_digits_value_prefix(s: Seq<char>, k: int)
    requires
        0 <= k <= s.len(),
        all_digits(s),
    ensures
        digits_value(s.take(k)) <= digits_value(s),
    decreases s.len() - k,
{
    if k < s.len() {
        lemma_digits_value_prefix(s, k + 1);
        assert(s.take(k + 1).drop_last() =~= s.take(k));
        assert(is_digit(s[k]));
        assert(s.take(k + 1).last() == s[k]);
    } else {
        assert(s.take(k) =~= s);
    }
}

/// Parses `s[lo..hi]` as `str::parse::<u128>` does.
pub fn parse_u128(s: &Vec<char>, lo: usize, hi: usize) -> (r: Option<u128>)
    requires
        lo <= hi <= s@.len(),
    ensures
        match r {
            Some(v) => unsigned_text(s@.subrange(lo as int, hi as int)) == Some(v as nat),
            None => unsigned_text(s@.subrange(lo as int, hi as int)) is None,
        },
{
    let ghost text = s@.subrange(lo as int, hi as int);
    let mut start = lo;
    if lo < hi && s[lo] == '+' {
        start = lo + 1;
    }
    let ghost body = unsigned_body(text);
    assert(body =~= s@.subrange(start as int, hi as int));
    if start == hi {
        return None;
    }
    let mut v: u128 = 0;
    let mut i: usize = start;
    assert(body.take(0) =~= Seq::<char>::empty());
    while i < hi
        invariant
            lo <= start <= i <= hi <= s@.len(),
            body == s@.subrange(start as int, hi as int),
            body == unsigned_body(s@.subrange(lo as int, hi as int)),
            all_digits(body.take(i - start)),
            v as nat == digits_value(body.take(i - start)),
        decreases hi - i,
    {
        let c = s[i];
        assert(body[i - start] == c);
        if c < '0' || c > '9' {
            assert(!is_digit(body[i - start]));
            assert(!all_digits(body));
            return None;
        }
        let d: u128 = ((c as u32) - 48) as u128;
        assert(body.take(i - start + 1).drop_last() =~= body.take(i - start));
        assert(digits_value(body.take(i - start + 1)) == v * 10 + d);
        if v > (u128::MAX - d) / 10 {
            proof {
                assert(v * 10 + d > u128::MAX) by (nonlinear_arith)
                    requires v > (u128::MAX - d) / 10, d <= 9;
                if all_digits(body) {
                    lemma_digits_value_prefix(body, i - start + 1);
                    assert(digits_value(body) > u128::MAX);
                }
            }
            return None;
        }
        assert(v * 10 + d <= u128::MAX) by (nonlinear_arith)
            requires v <= (u128::MAX - d) / 10, d <= 9;
        v = v * 10 + d;
        i = i + 1;
        assert(all_digits(body.take(i - start)));
    }
    assert(body.take(i - start) =~= body);
    Some(v)
}

/// Whether `c` is one of the brackets `[` and `]` that the display format
/// puts round the days.
pub open spec fn is_bracket(c: char) -> bool {
    c == '[' || c == ']'
}

/// `s` without the brackets that start it.
pub open spec fn trim_start_brackets(s: Seq<char>) -> Seq<char>
    decreases s.len(),
{
    if s.len() > 0 && is_bracket(s[0]) {
        trim_start_brackets(s.drop_first())
    } else {
        s
    }
}

/// `s` without the closing brackets `]` that end it.
pub open spec fn trim_end_closing(s: Seq<char>) -> Seq<char>
    decreases s.len(),
{
    if s.len() > 0 && s.last() == ']' {
        trim_end_closing(s.drop_last())
    } else {
        s
    }
}

/// The text of a number in one `:`-separated section of a timestamp: what
/// comes before its first `.`, without the brackets that start it and the
/// `]` that end it, so that a line copied from the display,
/// `[dd:]hh:mm:ss.mmm`, is read as well.
pub open spec fn field_text(section: Seq<char>) -> Seq<char> {
    trim_end_closing(trim_start_brackets(split_on(section, '.')[0]))
}

/// The bounds of the part of `s` that is left when the brackets that start
/// it and the `]` that end it are taken away.
fn trim_bounds(s: &Vec<char>) -> (r: (usize, usize))
    ensures
        r.0 <= r.1 <= s@.len(),
        s@.subrange(r.0 as int, r.1 as int) == trim_end_closing(trim_start_brackets(s@)),
{
    let mut lo: usize = 0;
    assert(s@.skip(0) =~= s@);
    while lo < s.len() && (s[lo] == '[' || s[lo] == ']')
        invariant
            lo <= s@.len(),
            trim_start_brackets(s@) == trim_start_brackets(s@.skip(lo as int)),
        decreases s.len() - lo,
    {
        assert(s@.skip(lo as int).drop_first() =~= s@.skip(lo + 1));
        lo = lo + 1;
    }
    let ghost rest = s@.skip(lo as int);
    assert(trim_start_brackets(rest) == rest);
    let mut hi: usize = s.len();
    assert(rest =~= s@.subrange(lo as int, hi as int));
    while hi > lo && s[hi - 1] == ']'
        invariant
            lo <= hi <= s@.len(),
            trim_end_closing(rest) == trim_end_closing(s@.subrange(lo as int, hi as int)),
        decreases hi,
    {
        assert(s@.subrange(lo as int, hi as int).drop_last() =~= s@.subrange(lo as int, hi - 1));
        hi = hi - 1;
    }
    (lo, hi)
}

/// Parses the number of one section of a timestamp.
fn parse_section(section: &Vec<char>) -> (r: Option<u128>)
    ensures
        match r {
            Some(v) => unsigned_text(field_text(section@)) == Some(v as nat),
            None => unsigned_text(field_text(section@)) is None,
        },
{
    let parts = split_chars(section, '.');
    let before = &parts[0];
    assert(before@ == split_on(section@, '.')[0]);
    let (lo, hi) = trim_bounds(before);
    parse_u128(before, lo, hi)
}

/// Why a timestamp was refused.
#[derive(Debug, PartialEq, Eq, Clone, Copy)]
pub enum TimestampError {
    /// The last section holds more than one `.`.
    MultipleDecimalPoints,
    /// The digits after the `.` are no number.
    InvalidDecimal,
    /// A section is no number.
    InvalidNumber,
    /// The total does not fit 128 bits.
    Overflow,
}

/// `s` filled on the right with `0` up to `width` characters.
pub open spec fn pad_right_zeros(s: Seq<char>, width: nat) -> Seq<char> {
    if s.len() >= width {
        s
    } else {
        s + Seq::new((width - s.len()) as nat, |i: int| '0')
    }
}

/// Section `k` of a timestamp, counted from its end: section 0 holds the
/// seconds, 1 the minutes, 2 the hours, 3 the days.
pub open spec fn section(t: Seq<char>, k: int) -> Seq<char> {
    let p = split_on(t, ':');
    p[p.len() - 1 - k]
}

/// The pieces of the seconds section around `.`.
pub open spec fn decimal_pieces(t: Seq<char>) -> Seq<Seq<char>> {
    split_on(section(t, 0), '.')
}

/// At most the first `k` characters of `s`.
pub open spec fn first_chars(s: Seq<char>, k: nat) -> Seq<char> {
    if s.len() <= k {
        s
    } else {
        s.take(k as int)
    }
}

/// The milliseconds that the decimal part `f` of the seconds stands for:
/// `f` is filled with `0` on the right to three characters; what follows
/// an optional leading `+` must be ASCII digits, of which the first three
/// are the milliseconds. So `.5` is 500, `.+5` is 50 and `.1234` is 123.
pub open spec fn fraction_millis(f: Seq<char>) -> Option<nat> {
    let b = unsigned_body(pad_right_zeros(f, 3));
    if all_digits(b) {
        Some(digits_value(first_chars(b, 3)))
    } else {
        None
    }
}

/// The milliseconds of a timestamp: those of the decimal part of its
/// seconds, or zero when there is no `.`.
pub open spec fn millis_part(t: Seq<char>) -> Option<nat> {
    let d = decimal_pieces(t);
    if d.len() == 2 {
        fraction_millis(d[1])
    } else {
        Some(0)
    }
}

/// How many sections are read as numbers: all of them, up to four; a
/// timestamp without `:` is seconds alone.
pub open spec fn counted_sections(t: Seq<char>) -> int {
    let n = split_on(t, ':').len() as int;
    if n < 4 {
        n
    } else {
        4
    }
}

/// The number in section `k` of a timestamp.
pub open spec fn section_number(t: Seq<char>, k: int) -> Option<nat> {
    unsigned_text(field_text(section(t, k)))
}

/// The number that section `k` counts for: 0 when it is not read.
pub open spec fn section_amount(t: Seq<char>, k: int) -> nat {
    if k < counted_sections(t) {
        section_number(t, k).unwrap()
    } else {
        0
    }
}

/// The milliseconds that the timestamp `t` stands for.
pub open spec fn timestamp_total(t: Seq<char>) -> nat {
    millis_part(t).unwrap() + 1000 * section_amount(t, 0) + 60_000 * section_amount(t, 1) + 3_600_000
        * section_amount(t, 2) + 86_400_000 * section_amount(t, 3)
}

/// Whether every counted section of `t` is a number.
pub open spec fn sections_valid(t: Seq<char>) -> bool {
    forall|k: int| 0 <= k < counted_sections(t) ==> (#[trigger] section_number(t, k)) is Some
}

/// What `parse_timestamp` gives for the text `t`.
pub open spec fn timestamp_result(t: Seq<char>) -> Result<i128, TimestampError> {
    if decimal_pieces(t).len() > 2 {
        Err(TimestampError::MultipleDecimalPoints)
    } else if millis_part(t) is None {
        Err(TimestampError::InvalidDecimal)
    } else if !sections_valid(t) {
        Err(TimestampError::InvalidNumber)
    } else if timestamp_total(t) > u128::MAX {
        Err(TimestampError::Overflow)
    } else {
        Ok(timestamp_total(t) as i128)
    }
}

/// The milliseconds of the decimal part `f` of the seconds.
fn fraction_value(f: &Vec<char>) -> (r: Option<u128>)
    ensures
        match r {
            Some(v) => fraction_millis(f@) == Some(v as nat),
            None => fraction_millis(f@) is None,
        },
{
    let mut p: Vec<char> = Vec::new();
    let mut i: usize = 0;
    while i < f.len()
        invariant
            i <= f@.len(),
            p@ == f@.take(i as int),
        decreases f.len() - i,
    {
        p.push(f[i]);
        i = i + 1;
        assert(p@ =~= f@.take(i as int));
    }
    assert(f@.take(f@.len() as int) =~= f@);
    while p.len() < 3
        invariant
            p@ == f@ + Seq::new((p@.len() - f@.len()) as nat, |j: int| '0'),
            p@.len() >= f@.len(),
            f@.len() >= 3 ==> p@.len() == f@.len(),
            f@.len() < 3 ==> p@.len() <= 3,
        decreases 3 - p.len(),
    {
        p.push('0');
        assert(p@ =~= f@ + Seq::new((p@.len() - f@.len()) as nat, |j: int| '0'));
    }
    assert(p@ =~= pad_right_zeros(f@, 3));
    let start: usize = if p[0] == '+' { 1 } else { 0 };
    let ghost b = unsigned_body(p@);
    assert(b =~= p@.subrange(start as int, p@.len() as int));
    let mut i: usize = start;
    assert(b.take(0) =~= Seq::<char>::empty());
    while i < p.len()
        invariant
            start <= i <= p@.len(),
            b == p@.subrange(start as int, p@.len() as int),
            b == unsigned_body(pad_right_zeros(f@, 3)),
            all_digits(b.take(i - start)),
        decreases p.len() - i,
    {
        let c = p[i];
        assert(b[i - start] == c);
        if c < '0' || c > '9' {
            assert(!is_digit(b[i - start]));
            assert(!all_digits(b));
            return None;
        }
        i = i + 1;
        assert forall|j: int| 0 <= j < i - start implies is_digit(#[trigger] b.take(i - start)[j]) by {
            if j < i - start - 1 {
                assert(b.take(i - start)[j] == b.take(i - start - 1)[j]);
            }
        }
    }
    assert(b.take(b.len() as int) =~= b);
    let end: usize = if p.len() - start <= 3 { p.len() } else { start + 3 };
    let ghost first = first_chars(b, 3);
    assert(first =~= p@.subrange(start as int, end as int));
    let mut v: u128 = 0;
    let mut k: usize = start;
    assert(first.take(0) =~= Seq::<char>::empty());
    while k < end
        invariant
            start <= k <= end <= p@.len(),
            first == first_chars(unsigned_body(pad_right_zeros(f@, 3)), 3),
            end - start <= 3,
            first == p@.subrange(start as int, end as int),
            all_digits(first),
            v == digits_value(first.take(k - start)),
            k - start <= 2 ==> v < 100,
            k - start <= 1 ==> v < 10,
            k == start ==> v == 0,
            v < 1000,
        decreases end - k,
    {
        let c = p[k];
        assert(first[k - start] == c);
        assert(is_digit(first[k - start]));
        let d: u128 = ((c as u32) - 48) as u128;
        assert(first.take(k - start + 1).drop_last() =~= first.take(k - start));
        assert(first.take(k - start + 1).last() == c);
        v = v * 10 + d;
        k = k + 1;
    }
    assert(first.take(end - start) =~= first);
    Some(v)
}

/// The characters of `s`.
fn chars_of(s: &str) -> (v: Vec<char>)
    ensures
        v@ == s@,
{
    let n = s.unicode_len();
    let mut v: Vec<char> = Vec::new();
    let mut i: usize = 0;
    while i < n
        invariant
            n == s@.len(),
            i <= n,
            v@ == s@.take(i as int),
        decreases n - i,
    {
        v.push(s.get_char(i));
        i = i + 1;
        assert(v@ =~= s@.take(i as int));
    }
    assert(s@.take(n as int) =~= s@);
    v
}

/// Parses a timestamp of the form `(D)D:(H)H:(M)M:(S)S(.DEC)` into
/// milliseconds. Sections are read from the end: seconds, minutes, hours,
/// days; leading sections may be left out, and sections before the days
/// are ignored. The decimal part is a fraction of a second, cut to whole
/// milliseconds. The total is computed in 128 unsigned bits and then
/// read as an `i128`, as `as` does.
pub fn parse_timestamp(timestamp: String) -> (r: Result<i128, TimestampError>)
    ensures
        r == timestamp_result(timestamp@),
{
    let chars = chars_of(timestamp.as_str());
    let ghost t = timestamp@;
    let sections = split_chars(&chars, ':');
    let n = sections.len();
    let last = &sections[n - 1];
    assert(last@ == section(t, 0));
    let decimal_split = split_chars(last, '.');
    assert(views(decimal_split@) == decimal_pieces(t));
    if decimal_split.len() > 2 {
        return Err(TimestampError::MultipleDecimalPoints);
    }
    let mut ms: u128 = 0;
    if decimal_split.len() == 2 {
        match fraction_value(&decimal_split[1]) {
            Some(v) => {
                ms = v;
            },
            None => {
                return Err(TimestampError::InvalidDecimal);
            },
        }
    }
    assert(millis_part(t) == Some(ms as nat));
    let counted: usize = if n < 4 {
        n
    } else {
        4
    };
    assert(counted == counted_sections(t));
    let mut amounts: Vec<u128> = Vec::new();
    let mut k: usize = 0;
    while k < counted
        invariant
            n == sections@.len(),
            n == split_on(t, ':').len(),
            views(sections@) == split_on(t, ':'),
            counted == counted_sections(t),
            counted <= n,
            k <= counted,
            t == timestamp@,
            decimal_pieces(t).len() <= 2,
            millis_part(t) == Some(ms as nat),
            amounts@.len() == k,
            forall|j: int|
                0 <= j < k ==> section_number(t, j) == Some(#[trigger] amounts@[j] as nat),
        decreases counted - k,
    {
        let part = &sections[n - 1 - k];
        assert(part@ == section(t, k as int));
        match parse_section(part) {
            Some(v) => {
                amounts.push(v);
            },
            None => {
                assert(section_number(t, k as int) is None);
                return Err(TimestampError::InvalidNumber);
            },
        }
        k = k + 1;
    }
    assert forall|i: int| 0 <= i < counted_sections(t) implies (#[trigger] section_number(
        t,
        i,
    )) is Some by {
        assert(section_number(t, i) == Some(amounts@[i] as nat));
    }
    assert(sections_valid(t));
    let mut total: u128 = ms;
    let units: [u128; 4] = [1000, 60_000, 3_600_000, 86_400_000];
    let mut j: usize = 0;
    while j < counted
        invariant
            j <= counted <= 4,
            counted == counted_sections(t),
            t == timestamp@,
            decimal_pieces(t).len() <= 2,
            millis_part(t) == Some(ms as nat),
            sections_valid(t),
            amounts@.len() == counted,
            forall|i: int|
                0 <= i < counted ==> section_number(t, i) == Some(#[trigger] amounts@[i] as nat),
            units@ == seq![1000u128, 60_000, 3_600_000, 86_400_000],
            total as int == ms + (if j > 0 { 1000 * section_amount(t, 0) } else { 0 }) + (if j > 1 {
                60_000 * section_amount(t, 1)
            } else {
                0
            }) + (if j > 2 { 3_600_000 * section_amount(t, 2) } else { 0 }) + (if j > 3 {
                86_400_000 * section_amount(t, 3)
            } else {
                0
            }),
        decreases counted - j,
    {
        assert(section_amount(t, j as int) == amounts@[j as int]);
        let a = amounts[j];
        let unit = units[j];
        proof {
            assert(timestamp_total(t) >= total + unit * a) by {
                if j == 0 {
                    assert(unit == 1000);
                } else if j == 1 {
                    assert(unit == 60_000);
                } else if j == 2 {
                    assert(unit == 3_600_000);
                } else {
                    assert(unit == 86_400_000);
                }
            }
        }
        match a.checked_mul(unit) {
            Some(p) => match total.checked_add(p) {
                Some(sum) => {
                    total = sum;
                },
                None => {
                    return Err(TimestampError::Overflow);
                },
            },
            None => {
                return Err(TimestampError::Overflow);
            },
        }
        j = j + 1;
    }
    assert(total == timestamp_total(t));
    Ok(total as i128)
}

} // verus!
