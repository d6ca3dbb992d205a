use vstd::prelude::*;
use crate::text::{digits, decimal, pad_zeros, digit_char, is_digit, digit_value};
use crate::clock::{time_fields, fields_of, lemma_fields_recompose};
use crate::display::{file_field, file_fields, term_field, TermSpec};
use crate::timestamp::{
    timestamp_result,
    TimestampError,
    timestamp_total,
    section,
    section_number,
    section_amount,
    counted_sections,
    sections_valid,
    decimal_pieces,
    millis_part,
    field_text,
    pad_right_zeros,
    split_on,
    digits_value,
    all_digits,
    unsigned_text,
    unsigned_body,
    trim_start_brackets,
    trim_end_closing,
    fraction_millis,
};

verus! {

/// Splitting `p + q` at `c`, where `q` holds no `c`, extends the last piece
/// of `p` by `q`.
proof fn lemma_split_append(p: Seq<char>, q: Seq<char>, c: char)
    requires
        !q.contains(c),
    ensures
        split_on(p + q, c) == split_on(p, c).update(
            split_on(p, c).len() - 1,
            split_on(p, c).last() + q,
        ),
    decreases q.len(),
{
    crate::timestamp::lemma_split_on_nonempty(p, c);
    if q.len() == 0 {
        assert(p + q =~= p);
        assert(split_on(p, c).last() + q =~= split_on(p, c).last());
        assert(split_on(p, c).update(split_on(p, c).len() - 1, split_on(p, c).last())
            =~= split_on(p, c));
    } else {
        let q1 = q.drop_last();
        assert(!q1.contains(c)) by {
            if q1.contains(c) {
                let i = choose|i: int| 0 <= i < q1.len() && q1[i] == c;
                assert(q[i] == c);
            }
        }
        lemma_split_append(p, q1, c);
        assert((p + q).drop_last() =~= p + q1);
        assert((p + q).last() == q.last());
        assert(q.last() != c) by {
            assert(q[q.len() - 1] == q.last());
        }
        assert(split_on(p, c).last() + q =~= (split_on(p, c).last() + q1).push(q.last()));
        assert(split_on(p + q, c) =~= split_on(p, c).update(
            split_on(p, c).len() - 1,
            split_on(p, c).last() + q,
        ));
    }
}

/// Splitting `p` followed by `c` at `c` adds an empty piece.
proof fn lemma_split_sep(p: Seq<char>, c: char)
    ensures
        split_on(p.push(c), c) == split_on(p, c).push(Seq::empty()),
{
    assert(p.push(c).drop_last() =~= p);
}

/// A text without `c` is one piece.
proof fn lemma_split_single(q: Seq<char>, c: char)
    requires
        !q.contains(c),
    ensures
        split_on(q, c) == seq![q],
{
    lemma_split_append(Seq::empty(), q, c);
    assert(Seq::<char>::empty() + q =~= q);
    assert(split_on(Seq::<char>::empty(), c) == seq![Seq::<char>::empty()]);
    assert(Seq::<char>::empty() + q =~= q);
    assert(seq![Seq::<char>::empty()].update(0, Seq::<char>::empty() + q) =~= seq![q]);
}

/// Splitting `p`, `c`, `q` at `c`, where `q` holds no `c`, adds `q` as a piece.
proof fn lemma_split_then(p: Seq<char>, q: Seq<char>, c: char)
    requires
        !q.contains(c),
    ensures
        split_on(p.push(c) + q, c) == split_on(p, c).push(q),
{
    lemma_split_sep(p, c);
    lemma_split_append(p.push(c), q, c);
    let s = split_on(p, c).push(Seq::empty());
    assert(s.last() + q =~= q);
    assert(s.update(s.len() - 1, q) =~= split_on(p, c).push(q));
}

proof fn lemma_digit_char(d: int)
    requires
        0 <= d <= 9,
    ensures
        is_digit(digit_char(d)),
        digit_value(digit_char(d)) == d,
        digit_char(d) != '+',
        digit_char(d) != '[',
        digit_char(d) != ']',
        digit_char(d) != ':',
        digit_char(d) != '.',
{
}

/// The digits of `n` are digits and spell `n`.
pub proof fn lemma_digits_spell(n: nat)
    ensures
        all_digits(digits(n)),
        digits_value(digits(n)) == n,
        digits(n).len() >= 1,
    decreases n,
{
    if n < 10 {
        lemma_digit_char(n as int);
        assert(digits(n).drop_last() =~= Seq::<char>::empty());
        assert(digits_value(Seq::<char>::empty()) == 0);
        assert(digits(n).last() == digit_char(n as int));
    } else {
        lemma_digits_spell(n / 10);
        lemma_digit_char((n % 10) as int);
        assert(digits(n).drop_last() =~= digits(n / 10));
        assert(digits(n).last() == digit_char((n % 10) as int));
        assert(digits_value(digits(n)) == digits_value(digits(n / 10)) * 10 + (n % 10));
        assert forall|i: int| 0 <= i < digits(n).len() implies is_digit(#[trigger] digits(n)[i]) by {
            if i < digits(n).len() - 1 {
                assert(digits(n)[i] == digits(n / 10)[i]);
            }
        }
    }
}

/// Zeros in front of digits change nothing of their value.
proof fn lemma_leading_zeros(k: nat, s: Seq<char>)
    ensures
        digits_value(Seq::new(k, |i: int| '0') + s) == digits_value(s),
    decreases k + s.len(),
{
    let z = Seq::new(k, |i: int| '0');
    if s.len() == 0 {
        assert(z + s =~= z);
        if k > 0 {
            assert(z.drop_last() =~= Seq::new((k - 1) as nat, |i: int| '0'));
            lemma_leading_zeros((k - 1) as nat, Seq::empty());
            assert(Seq::new((k - 1) as nat, |i: int| '0') + Seq::<char>::empty() =~= Seq::new(
                (k - 1) as nat,
                |i: int| '0',
            ));
        }
    } else {
        lemma_leading_zeros(k, s.drop_last());
        assert((z + s).drop_last() =~= z + s.drop_last());
        assert((z + s).last() == s.last());
    }
}

/// A number padded with zeros reads back as itself.
proof fn lemma_padded_reads_back(n: nat, width: nat)
    requires
        n <= u128::MAX,
    ensures
        all_digits(pad_zeros(decimal(n as int), width)),
        pad_zeros(decimal(n as int), width).len() >= 1,
        pad_zeros(decimal(n as int), width).len() >= width,
        digits_value(pad_zeros(decimal(n as int), width)) == n,
        unsigned_text(pad_zeros(decimal(n as int), width)) == Some(n),
        !pad_zeros(decimal(n as int), width).contains(':'),
        !pad_zeros(decimal(n as int), width).contains('.'),
        trim_end_closing(trim_start_brackets(pad_zeros(decimal(n as int), width))) == pad_zeros(
            decimal(n as int),
            width,
        ),
{
    let d = digits(n);
    lemma_digits_spell(n);
    assert(decimal(n as int) == d);
    let p = pad_zeros(d, width);
    if d.len() < width {
        let z = Seq::new((width - d.len()) as nat, |i: int| '0');
        lemma_leading_zeros((width - d.len()) as nat, d);
        assert(p == z + d);
        assert forall|i: int| 0 <= i < p.len() implies is_digit(#[trigger] p[i]) by {
            if i >= z.len() {
                assert(p[i] == d[i - z.len()]);
            }
        }
    }
    assert(all_digits(p));
    assert(is_digit(p[0]));
    assert(p[0] != '+');
    assert(unsigned_body(p) == p);
    assert(digits_value(p) == n);
    assert(!p.contains(':')) by {
        if p.contains(':') {
            let i = choose|i: int| 0 <= i < p.len() && p[i] == ':';
            assert(is_digit(p[i]));
        }
    }
    assert(!p.contains('.')) by {
        if p.contains('.') {
            let i = choose|i: int| 0 <= i < p.len() && p[i] == '.';
            assert(is_digit(p[i]));
        }
    }
    assert(trim_start_brackets(p) == p);
    assert(is_digit(p.last())) by {
        assert(p.last() == p[p.len() - 1]);
    }
    assert(trim_end_closing(p) == p);
}

/// The seconds section of a file line, `ss.mmm` or `ss`, splits at `.`
/// into the seconds and, where they are written, the milliseconds.
proof fn lemma_seconds_section(v: Seq<i128>, resolution: int)
    requires
        v.len() == 5,
        0 <= v[0] < 1000,
        0 <= v[1] < 60,
        resolution == 0 || resolution == 1,
    ensures
        ({
            let c = file_fields(v, 2, resolution);
            let a1 = pad_zeros(decimal(v[1] as int), 2);
            let p3 = pad_zeros(decimal(v[0] as int), 3);
            &&& !c.contains(':')
            &&& resolution == 0 ==> split_on(c, '.') == seq![a1, p3]
            &&& resolution == 1 ==> split_on(c, '.') == seq![a1]
        }),
{
    let c = file_fields(v, 2, resolution);
    let a1 = pad_zeros(decimal(v[1] as int), 2);
    let p3 = pad_zeros(decimal(v[0] as int), 3);
    lemma_padded_reads_back(v[1] as nat, 2);
    lemma_padded_reads_back(v[0] as nat, 3);
    reveal_strlit(".");
    assert(file_fields(v, 0, resolution) == Seq::<char>::empty());
    if resolution == 0 {
        assert(file_fields(v, 1, resolution) =~= file_field(v, 0));
        assert(file_field(v, 0) == "."@ + p3);
        assert(c =~= a1.push('.') + p3);
        lemma_split_single(a1, '.');
        lemma_split_then(a1, p3, '.');
        assert(!c.contains(':')) by {
            if c.contains(':') {
                let i = choose|i: int| 0 <= i < c.len() && c[i] == ':';
                if i < a1.len() {
                    assert(a1[i] == ':');
                    assert(a1.contains(':'));
                } else if i > a1.len() {
                    assert(p3[i - a1.len() - 1] == ':');
                    assert(p3.contains(':'));
                }
            }
        }
    } else {
        assert(file_fields(v, 1, resolution) == Seq::<char>::empty());
        assert(c =~= a1);
        lemma_split_single(a1, '.');
    }
}

/// A number section of a file line, with or without one bracket before
/// it, holds no `:` and reads back as its number.
proof fn lemma_number_section(n: nat, prefix: Seq<char>)
    requires
        n <= u128::MAX,
        prefix == Seq::<char>::empty() || prefix == seq!['['] || prefix == seq![']'],
    ensures
        !(prefix + pad_zeros(decimal(n as int), 2)).contains(':'),
        split_on(prefix + pad_zeros(decimal(n as int), 2), '.') == seq![
            prefix + pad_zeros(decimal(n as int), 2),
        ],
        unsigned_text(field_text(prefix + pad_zeros(decimal(n as int), 2))) == Some(n),
{
    let p = pad_zeros(decimal(n as int), 2);
    let q = prefix + p;
    lemma_padded_reads_back(n, 2);
    assert(!q.contains(':') && !q.contains('.')) by {
        if q.contains(':') || q.contains('.') {
            let i = choose|i: int| 0 <= i < q.len() && (q[i] == ':' || q[i] == '.');
            if i >= prefix.len() {
                assert(q[i] == p[i - prefix.len()]);
                assert(p.contains(q[i]));
            }
        }
    }
    lemma_split_single(q, '.');
    if prefix.len() > 0 {
        assert(q.drop_first() =~= p);
    } else {
        assert(q =~= p);
    }
    assert(trim_start_brackets(q) == trim_start_brackets(p));
}

/// The `:`-separated pieces of a file line that shows every field up to
/// its width.
proof fn lemma_line_pieces(v: Seq<i128>, format_width: int, resolution: int)
    requires
        v.len() == 5,
        0 <= v[0] < 1000,
        0 <= v[1] < 60,
        0 <= v[2] < 60,
        0 <= v[3] < 24,
        0 <= v[4],
        2 <= format_width <= 5,
        resolution == 0 || resolution == 1,
    ensures
        ({
            let t = file_fields(v, format_width, resolution);
            let c = file_fields(v, 2, resolution);
            let a2 = pad_zeros(decimal(v[2] as int), 2);
            let a3 = pad_zeros(decimal(v[3] as int), 2);
            let a4 = pad_zeros(decimal(v[4] as int), 2);
            &&& format_width == 2 ==> split_on(t, ':') == seq![c]
            &&& format_width == 3 ==> split_on(t, ':') == seq![a2, c]
            &&& format_width == 4 ==> split_on(t, ':') == seq![a3, a2, c]
            &&& format_width == 5 ==> split_on(t, ':') == seq![
                seq!['['] + a4,
                seq![']'] + a3,
                a2,
                c,
            ]
        }),
{
    reveal_strlit(":");
    let a2 = pad_zeros(decimal(v[2] as int), 2);
    let a3 = pad_zeros(decimal(v[3] as int), 2);
    let c = file_fields(v, 2, resolution);
    let e = Seq::<char>::empty();
    lemma_seconds_section(v, resolution);
    lemma_number_section(v[2] as nat, e);
    assert(e + a2 =~= a2);
    assert(file_field(v, 2) == a2 + ":"@);
    assert(file_fields(v, 3, resolution) == file_field(v, 2) + c);
    let t = file_fields(v, format_width, resolution);
    if format_width == 2 {
        lemma_split_single(c, ':');
    } else if format_width == 3 {
        lemma_split_single(a2, ':');
        assert(t =~= a2.push(':') + c);
        lemma_split_then(a2, c, ':');
    } else if format_width == 4 {
        assert(file_field(v, 3) == a3 + ":"@);
        assert(t == file_field(v, 3) + file_fields(v, 3, resolution));
        lemma_padded_reads_back(v[3] as nat, 2);
        lemma_split_single(a3, ':');
        lemma_split_then(a3, a2, ':');
        assert(t =~= (a3.push(':') + a2).push(':') + c);
        lemma_split_then(a3.push(':') + a2, c, ':');
        assert(split_on(t, ':') =~= seq![a3, a2, c]);
    } else {
        lemma_line_pieces_days(v, resolution);
    }
}

/// The text of a file line that shows the days, piece by piece.
proof fn lemma_days_line_text(v: Seq<i128>, resolution: int)
    requires
        v.len() == 5,
        resolution == 0 || resolution == 1,
    ensures
        file_fields(v, 5, resolution) == ((((seq!['['] + pad_zeros(decimal(v[4] as int), 2)).push(
            ':',
        ) + (seq![']'] + pad_zeros(decimal(v[3] as int), 2))).push(':') + pad_zeros(
            decimal(v[2] as int),
            2,
        )).push(':') + file_fields(v, 2, resolution)),
{
    let a2 = pad_zeros(decimal(v[2] as int), 2);
    let a3 = pad_zeros(decimal(v[3] as int), 2);
    let a4 = pad_zeros(decimal(v[4] as int), 2);
    let c = file_fields(v, 2, resolution);
    let t = file_fields(v, 5, resolution);
    let f2 = file_field(v, 2);
    let f3 = file_field(v, 3);
    let f4 = file_field(v, 4);
    assert(f2 =~= a2.push(':')) by {
        reveal_strlit(":");
    }
    assert(f3 =~= a3.push(':')) by {
        reveal_strlit(":");
    }
    assert(f4 =~= (seq!['['] + a4).push(':') + seq![']']) by {
        reveal_strlit("[");
        reveal_strlit(":]");
    }
    let t3 = file_fields(v, 3, resolution);
    let t4 = file_fields(v, 4, resolution);
    assert(t3 == f2 + c);
    assert(t4 == f3 + t3);
    assert(t == f4 + t4);
    assert(t =~= (((seq!['['] + a4).push(':') + (seq![']'] + a3)).push(':') + a2).push(':') + c);
}

/// The `:`-separated pieces of a file line that shows the days.
proof fn lemma_line_pieces_days(v: Seq<i128>, resolution: int)
    requires
        v.len() == 5,
        0 <= v[0] < 1000,
        0 <= v[1] < 60,
        0 <= v[2] < 60,
        0 <= v[3] < 24,
        0 <= v[4],
        resolution == 0 || resolution == 1,
    ensures
        split_on(file_fields(v, 5, resolution), ':') == seq![
            seq!['['] + pad_zeros(decimal(v[4] as int), 2),
            seq![']'] + pad_zeros(decimal(v[3] as int), 2),
            pad_zeros(decimal(v[2] as int), 2),
            file_fields(v, 2, resolution),
        ],
{
    let a2 = pad_zeros(decimal(v[2] as int), 2);
    let a3 = pad_zeros(decimal(v[3] as int), 2);
    let a4 = pad_zeros(decimal(v[4] as int), 2);
    let c = file_fields(v, 2, resolution);
    let e = Seq::<char>::empty();
    lemma_seconds_section(v, resolution);
    lemma_number_section(v[2] as nat, e);
    lemma_number_section(v[3] as nat, seq![']']);
    lemma_number_section(v[4] as nat, seq!['[']);
    assert(e + a2 =~= a2);
    let b4 = seq!['['] + a4;
    let b3 = seq![']'] + a3;
    lemma_days_line_text(v, resolution);
    lemma_split_single(b4, ':');
    lemma_split_then(b4, b3, ':');
    lemma_split_then(b4.push(':') + b3, a2, ':');
    lemma_split_then((b4.push(':') + b3).push(':') + a2, c, ':');
    assert(split_on(file_fields(v, 5, resolution), ':') =~= seq![b4, b3, a2, c]);
}

/// How a file line reads back, field by field.
proof fn lemma_line_reads(v: Seq<i128>, format_width: int, resolution: int)
    requires
        v.len() == 5,
        0 <= v[0] < 1000,
        0 <= v[1] < 60,
        0 <= v[2] < 60,
        0 <= v[3] < 24,
        0 <= v[4],
        2 <= format_width <= 5,
        resolution == 0 || resolution == 1,
    ensures
        ({
            let t = file_fields(v, format_width, resolution);
            &&& decimal_pieces(t).len() <= 2
            &&& millis_part(t) == Some(if resolution == 0 { v[0] as nat } else { 0nat })
            &&& sections_valid(t)
            &&& section_amount(t, 0) == v[1]
            &&& section_amount(t, 1) == (if format_width >= 3 { v[2] as int } else { 0 })
            &&& section_amount(t, 2) == (if format_width >= 4 { v[3] as int } else { 0 })
            &&& section_amount(t, 3) == (if format_width >= 5 { v[4] as int } else { 0 })
        }),
{
    let t = file_fields(v, format_width, resolution);
    let c = file_fields(v, 2, resolution);
    let e = Seq::<char>::empty();
    let a1 = pad_zeros(decimal(v[1] as int), 2);
    let a2 = pad_zeros(decimal(v[2] as int), 2);
    let a3 = pad_zeros(decimal(v[3] as int), 2);
    let a4 = pad_zeros(decimal(v[4] as int), 2);
    let p3 = pad_zeros(decimal(v[0] as int), 3);
    lemma_line_pieces(v, format_width, resolution);
    lemma_seconds_section(v, resolution);
    lemma_number_section(v[1] as nat, e);
    lemma_number_section(v[2] as nat, e);
    lemma_number_section(v[3] as nat, e);
    lemma_number_section(v[3] as nat, seq![']']);
    lemma_number_section(v[4] as nat, seq!['[']);
    assert(e + a1 =~= a1);
    assert(e + a2 =~= a2);
    assert(e + a3 =~= a3);
    lemma_padded_reads_back(v[0] as nat, 3);
    assert(counted_sections(t) == format_width - 1);
    assert(section(t, 0) == c);
    if format_width >= 3 {
        assert(section(t, 1) == a2);
        assert(section_number(t, 1) == Some(v[2] as nat));
    }
    if format_width == 4 {
        assert(section(t, 2) == a3);
        assert(section_number(t, 2) == Some(v[3] as nat));
    }
    if format_width == 5 {
        assert(section(t, 2) == seq![']'] + a3);
        assert(section_number(t, 2) == Some(v[3] as nat));
        assert(section(t, 3) == seq!['['] + a4);
        assert(section_number(t, 3) == Some(v[4] as nat));
    }
    assert(decimal_pieces(t) == split_on(c, '.'));
    assert(field_text(c) == field_text(a1)) by {
        assert(split_on(c, '.')[0] == a1);
        assert(split_on(a1, '.')[0] == a1);
    }
    assert(section_number(t, 0) == Some(v[1] as nat));
    assert(sections_valid(t));
    if resolution == 0 {
        assert(pad_right_zeros(p3, 3) == p3);
        crate::text::lemma_pow10_small();
        crate::text::lemma_padded_len(v[0] as nat, 3);
        assert(p3.take(3) =~= p3);
        assert(fraction_millis(p3) == Some(v[0] as nat));
    }
}

/// Reading back the line that a file receives gives the time again, for
/// every width whose fields show the whole time (the days field shows any
/// number of days; a narrower display needs a time below its coarsest
/// hidden unit), with milliseconds (resolution 0) or without (resolution
/// 1, where the milliseconds are lost).
pub proof fn lemma_file_line_reads_back(m: int, format_width: int, resolution: int)
    requires
        0 <= m <= i128::MAX,
        2 <= format_width <= 5,
        format_width == 2 ==> m < 60_000,
        format_width == 3 ==> m < 3_600_000,
        format_width == 4 ==> m < 86_400_000,
        resolution == 0 || resolution == 1,
    ensures
        timestamp_result(file_fields(fields_of(m), format_width, resolution)) == Ok::<
            i128,
            TimestampError,
        >(
            (if resolution == 0 {
                m
            } else {
                m - time_fields(m)[0]
            }) as i128,
        ),
{
    lemma_fields_recompose(m);
    let f = time_fields(m);
    let v = fields_of(m);
    assert(f[4] <= m) by {
        if m >= 1000 {
            assert(f[4] == m / 86_400_000);
        }
    }
    assert(v[0] == f[0] && v[1] == f[1] && v[2] == f[2] && v[3] == f[3] && v[4] == f[4]);
    assert(format_width <= 4 ==> f[4] == 0);
    assert(format_width <= 3 ==> f[3] == 0);
    assert(format_width <= 2 ==> f[2] == 0);
    lemma_line_reads(v, format_width, resolution);
    let t = file_fields(v, format_width, resolution);
    assert(timestamp_total(t) == (if resolution == 0 { m } else { m - f[0] }));
}

/// Whether `x` is a number written as plain ASCII digits, below 2^64.
pub open spec fn plain_number(x: Seq<char>) -> bool {
    &&& x.len() > 0
    &&& all_digits(x)
    &&& digits_value(x) < 0x1_0000_0000_0000_0000
}

/// A plain number as one section of a timestamp: it holds no separator and
/// reads as its value.
proof fn lemma_plain_section(x: Seq<char>)
    requires
        plain_number(x),
    ensures
        !x.contains(':'),
        !x.contains('.'),
        split_on(x, '.') == seq![x],
        unsigned_text(field_text(x)) == Some(digits_value(x)),
{
    assert(!x.contains(':') && !x.contains('.')) by {
        if x.contains(':') || x.contains('.') {
            let i = choose|i: int| 0 <= i < x.len() && (x[i] == ':' || x[i] == '.');
            assert(is_digit(x[i]));
        }
    }
    lemma_split_single(x, '.');
    assert(is_digit(x[0]));
    assert(trim_start_brackets(x) == x);
    assert(is_digit(x.last())) by {
        assert(x.last() == x[x.len() - 1]);
    }
    assert(trim_end_closing(x) == x);
    assert(unsigned_body(x) == x);
}

/// A timestamp of seconds alone, `S`, is `S` seconds.
pub proof fn lemma_timestamp_seconds(sec: Seq<char>)
    requires
        plain_number(sec),
    ensures
        timestamp_result(sec) == Ok::<i128, TimestampError>((1000 * digits_value(sec)) as i128),
{
    lemma_plain_section(sec);
    lemma_split_single(sec, ':');
    assert(section(sec, 0) == sec);
    assert(section_number(sec, 0) == Some(digits_value(sec)));
    assert(sections_valid(sec));
}

/// A timestamp `M:S` is `M` minutes and `S` seconds, for any number of
/// minutes (60 minutes or more included).
pub proof fn lemma_timestamp_minutes_seconds(min: Seq<char>, sec: Seq<char>)
    requires
        plain_number(min),
        plain_number(sec),
    ensures
        timestamp_result(min.push(':') + sec) == Ok::<i128, TimestampError>(
            (60_000 * digits_value(min) + 1000 * digits_value(sec)) as i128,
        ),
{
    let t = min.push(':') + sec;
    lemma_plain_section(min);
    lemma_plain_section(sec);
    lemma_split_single(min, ':');
    lemma_split_then(min, sec, ':');
    assert(split_on(t, ':') =~= seq![min, sec]);
    assert(section(t, 0) == sec);
    assert(section(t, 1) == min);
    assert(section_number(t, 0) == Some(digits_value(sec)));
    assert(section_number(t, 1) == Some(digits_value(min)));
    assert(sections_valid(t));
}

/// A timestamp `D:H:M:S` is `D` days, `H` hours, `M` minutes and `S`
/// seconds, whatever the size of each number.
pub proof fn lemma_timestamp_all_sections(
    days: Seq<char>,
    hours: Seq<char>,
    min: Seq<char>,
    sec: Seq<char>,
)
    requires
        plain_number(days),
        plain_number(hours),
        plain_number(min),
        plain_number(sec),
    ensures
        timestamp_result(((days.push(':') + hours).push(':') + min).push(':') + sec) == Ok::<
            i128,
            TimestampError,
        >(
            (86_400_000 * digits_value(days) + 3_600_000 * digits_value(hours) + 60_000
                * digits_value(min) + 1000 * digits_value(sec)) as i128,
        ),
{
    let t = ((days.push(':') + hours).push(':') + min).push(':') + sec;
    lemma_plain_section(days);
    lemma_plain_section(hours);
    lemma_plain_section(min);
    lemma_plain_section(sec);
    lemma_split_single(days, ':');
    lemma_split_then(days, hours, ':');
    lemma_split_then(days.push(':') + hours, min, ':');
    lemma_split_then((days.push(':') + hours).push(':') + min, sec, ':');
    assert(split_on(t, ':') =~= seq![days, hours, min, sec]);
    assert(section(t, 0) == sec);
    assert(section(t, 1) == min);
    assert(section(t, 2) == hours);
    assert(section(t, 3) == days);
    assert(section_number(t, 0) == Some(digits_value(sec)));
    assert(section_number(t, 1) == Some(digits_value(min)));
    assert(section_number(t, 2) == Some(digits_value(hours)));
    assert(section_number(t, 3) == Some(digits_value(days)));
    assert(sections_valid(t));
}

/// Whenever the milliseconds are drawn on the terminal, first draw or
/// not, they are drawn in grey as `.` and exactly three digits that spell
/// their value.
pub proof fn lemma_millis_drawn_as_three_digits(
    values: Seq<i128>,
    prev: Seq<i128>,
    resolution: int,
    first_draw: bool,
)
    requires
        values.len() == 5,
        prev.len() == 5,
        0 <= values[0] < 1000,
        values[0] != prev[0] || first_draw,
    ensures
        ({
            let cmds = term_field(values, prev, 0, resolution, first_draw);
            &&& cmds.len() == 2
            &&& cmds[0] == TermSpec::GreyColor
            &&& cmds[1] matches TermSpec::Print(text) && text.len() == 4 && text[0] == '.'
                && all_digits(text.drop_first()) && digits_value(text.drop_first()) == values[0]
        }),
{
    let p3 = pad_zeros(decimal(values[0] as int), 3);
    reveal_strlit(".");
    crate::text::lemma_pow10_small();
    crate::text::lemma_padded_len(values[0] as nat, 3);
    lemma_padded_reads_back(values[0] as nat, 3);
    let text = "."@ + p3;
    assert(text.drop_first() =~= p3);
    let cmds = term_field(values, prev, 0, resolution, first_draw);
    assert(cmds == seq![TermSpec::GreyColor, TermSpec::Print(text)]);
}

} // verus!
