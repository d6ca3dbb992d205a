use vstd::prelude::*;
use vstd::string::*;
use crate::text::{decimal, pad_zeros, push_padded};
use crate::clock::{fields_of, split_millis};
use crate::json::{json_text, produce_json};

verus! {

/// Field `i` of a time written to a file: `.mmm` for milliseconds, `ss` for
/// seconds, `[dd:]` for days and `nn:` for minutes and hours.
pub open spec fn file_field(values: Seq<i128>, i: int) -> Seq<char> {
    if i == 0 {
        "."@ + pad_zeros(decimal(values[0] as int), 3)
    } else if i == 1 {
        pad_zeros(decimal(values[1] as int), 2)
    } else if i == 4 {
        "["@ + pad_zeros(decimal(values[4] as int), 2) + ":]"@
    } else {
        pad_zeros(decimal(values[i] as int), 2) + ":"@
    }
}

/// The fields `hi - 1` down to `resolution` written to a file, coarsest first.
pub open spec fn file_fields(values: Seq<i128>, hi: int, resolution: int) -> Seq<char>
    decreases hi - resolution,
{
    if hi <= resolution {
        Seq::empty()
    } else {
        file_field(values, hi - 1) + file_fields(values, hi - 1, resolution)
    }
}

/// A command for the terminal, in the order it is queued.
#[derive(Debug, PartialEq, Eq)]
pub enum TermCommand {
    /// Set the foreground colour back to the default.
    ResetColor,
    /// Set the foreground colour to grey.
    GreyColor,
    /// Print the text at the cursor.
    Print(String),
    /// Move the cursor right by this many columns.
    MoveRight(u16),
}

/// What a `TermCommand` stands for.
pub enum TermSpec {
    ResetColor,
    GreyColor,
    Print(Seq<char>),
    MoveRight(int),
}

impl View for TermCommand {
    type V = TermSpec;

    open spec fn view(&self) -> TermSpec {
        match self {
            TermCommand::ResetColor => TermSpec::ResetColor,
            TermCommand::GreyColor => TermSpec::GreyColor,
            TermCommand::Print(s) => TermSpec::Print(s@),
            TermCommand::MoveRight(n) => TermSpec::MoveRight(*n as int),
        }
    }
}

/// The view of each command of `cmds`.
pub open spec fn commands_view(cmds: Seq<TermCommand>) -> Seq<TermSpec> {
    cmds.map_values(|c: TermCommand| c@)
}

/// How many columns the cursor skips over field `i` when it is left as it
/// is on the terminal: two digits, the `:` after it where one is written,
/// and the brackets of the days.
pub open spec fn skip_width(i: int, resolution: int) -> int {
    (if i > 0 { 2int } else { 0int }) + (if i > resolution && i > 1 { 1int } else { 0int }) + (if i == 4 {
        2int
    } else {
        0int
    })
}

/// The commands that draw field `i` of a time on the terminal. A field is
/// written when it differs from the one drawn before or when nothing was
/// drawn yet; else the cursor moves over it.
pub open spec fn term_field(
    values: Seq<i128>,
    prev: Seq<i128>,
    i: int,
    resolution: int,
    first_draw: bool,
) -> Seq<TermSpec> {
    if values[i] != prev[i] || first_draw {
        (if i == 0 {
            seq![
                TermSpec::GreyColor,
                TermSpec::Print("."@ + pad_zeros(decimal(values[0] as int), 3)),
            ]
        } else if i == 4 {
            seq![TermSpec::Print("["@ + pad_zeros(decimal(values[4] as int), 2))]
        } else {
            seq![TermSpec::Print(pad_zeros(decimal(values[i] as int), 2))]
        }) + (if i > resolution && i > 1 {
            seq![TermSpec::Print(":"@)]
        } else {
            Seq::empty()
        }) + (if i == 4 {
            seq![TermSpec::Print("]"@)]
        } else {
            Seq::empty()
        })
    } else if skip_width(i, resolution) > 0 {
        seq![TermSpec::MoveRight(skip_width(i, resolution))]
    } else {
        Seq::empty()
    }
}

/// The commands for fields `hi - 1` down to `resolution`, coarsest first.
pub open spec fn term_fields(
    values: Seq<i128>,
    prev: Seq<i128>,
    hi: int,
    resolution: int,
    first_draw: bool,
) -> Seq<TermSpec>
    decreases hi - resolution,
{
    if hi <= resolution {
        Seq::empty()
    } else {
        term_field(values, prev, hi - 1, resolution, first_draw) + term_fields(
            values,
            prev,
            hi - 1,
            resolution,
            first_draw,
        )
    }
}

/// How a time is put out.
#[derive(Debug, PartialEq, Eq)]
pub enum Rendered {
    /// Text to write as it is: the JSON object or the line for a file.
    Text(String),
    /// Commands that redraw the time on a terminal.
    Terminal(Vec<TermCommand>),
}

fn push_file_field(out: &mut String, values: &[i128; 5], i: usize)
    requires
        i < 5,
    ensures
        final(out)@ == old(out)@ + file_field(values@, i as int),
{
    if i == 0 {
        out.append(".");
        push_padded(out, values[0], 3);
    } else if i == 1 {
        push_padded(out, values[1], 2);
    } else if i == 4 {
        out.append("[");
        push_padded(out, values[4], 2);
        out.append(":]");
    } else {
        push_padded(out, values[i], 2);
        out.append(":");
    }
}

/// The line that a file receives for the fields `values`: fields
/// `format_width - 1` down to `resolution`, e.g. `01:05.120`.
pub fn file_line(values: &[i128; 5], format_width: usize, resolution: usize) -> (line: String)
    requires
        resolution <= format_width <= 5,
    ensures
        line@ == file_fields(values@, format_width as int, resolution as int),
{
    let mut out = String::new();
    let mut k: usize = format_width;
    while k > resolution
        invariant
            resolution <= k <= format_width <= 5,
            out@ + file_fields(values@, k as int, resolution as int) == file_fields(
                values@,
                format_width as int,
                resolution as int,
            ),
        decreases k,
    {
        let ghost before = out@;
        push_file_field(&mut out, values, k - 1);
        assert(before + file_fields(values@, k as int, resolution as int) =~= out@ + file_fields(
            values@,
            k - 1,
            resolution as int,
        ));
        k = k - 1;
    }
    assert(out@ =~= out@ + file_fields(values@, k as int, resolution as int));
    out
}

fn padded(n: i128, width: usize, prefix: &str) -> (s: String)
    ensures
        s@ == prefix@ + pad_zeros(decimal(n as int), width as nat),
{
    let mut s = String::new();
    s.append(prefix);
    push_padded(&mut s, n, width);
    s
}

fn push_command(cmds: &mut Vec<TermCommand>, c: TermCommand)
    ensures
        commands_view(final(cmds)@) == commands_view(old(cmds)@).push(c@),
{
    let ghost v = c@;
    cmds.push(c);
    assert(commands_view(cmds@) =~= commands_view(old(cmds)@).push(v));
}

fn push_term_field(
    cmds: &mut Vec<TermCommand>,
    values: &[i128; 5],
    prev: &[i128; 5],
    i: usize,
    resolution: usize,
    first_draw: bool,
)
    requires
        i < 5,
    ensures
        commands_view(final(cmds)@) == commands_view(old(cmds)@) + term_field(
            values@,
            prev@,
            i as int,
            resolution as int,
            first_draw,
        ),
{
    let ghost start = commands_view(cmds@);
    if values[i] != prev[i] || first_draw {
        if i == 0 {
            push_command(cmds, TermCommand::GreyColor);
            push_command(cmds, TermCommand::Print(padded(values[0], 3, ".")));
        } else if i == 4 {
            push_command(cmds, TermCommand::Print(padded(values[4], 2, "[")));
        } else {
            push_command(cmds, TermCommand::Print(padded(values[i], 2, "")));
            proof {
                reveal_strlit("");
                assert(""@ + pad_zeros(decimal(values[i as int] as int), 2) =~= pad_zeros(
                    decimal(values[i as int] as int),
                    2,
                ));
            }
        }
        if i > resolution && i > 1 {
            let mut colon = String::new();
            colon.append(":");
            push_command(cmds, TermCommand::Print(colon));
        }
        if i == 4 {
            let mut close = String::new();
            close.append("]");
            push_command(cmds, TermCommand::Print(close));
        }
        assert(commands_view(cmds@) =~= start + term_field(
            values@,
            prev@,
            i as int,
            resolution as int,
            first_draw,
        ));
    } else {
        let mut offset: u16 = 0;
        if i > 0 {
            offset = offset + 2;
        }
        if i > resolution && i > 1 {
            offset = offset + 1;
        }
        if i == 4 {
            offset = offset + 2;
        }
        assert(offset == skip_width(i as int, resolution as int));
        if offset > 0 {
            push_command(cmds, TermCommand::MoveRight(offset));
        }
        assert(commands_view(cmds@) =~= start + term_field(
            values@,
            prev@,
            i as int,
            resolution as int,
            first_draw,
        ));
    }
}

/// The commands that redraw a time on the terminal: the colour is reset,
/// then fields `format_width - 1` down to `resolution` are drawn.
pub open spec fn term_text(
    values: Seq<i128>,
    prev: Seq<i128>,
    format_width: int,
    resolution: int,
    first_draw: bool,
) -> Seq<TermSpec> {
    seq![TermSpec::ResetColor] + term_fields(values, prev, format_width, resolution, first_draw)
}

/// The commands that redraw the fields `values` on a terminal where the
/// fields `prev` were drawn before.
pub fn terminal_commands(
    values: &[i128; 5],
    prev: &[i128; 5],
    format_width: usize,
    resolution: usize,
    first_draw: bool,
) -> (cmds: Vec<TermCommand>)
    requires
        resolution < format_width ==> format_width <= 5,
    ensures
        commands_view(cmds@) == term_text(
            values@,
            prev@,
            format_width as int,
            resolution as int,
            first_draw,
        ),
{
    let mut cmds: Vec<TermCommand> = Vec::new();
    push_command(&mut cmds, TermCommand::ResetColor);
    let mut k: usize = format_width;
    while k > resolution
        invariant
            k <= format_width,
            resolution < format_width ==> format_width <= 5,
            commands_view(cmds@) + term_fields(
                values@,
                prev@,
                k as int,
                resolution as int,
                first_draw,
            ) == term_text(values@, prev@, format_width as int, resolution as int, first_draw),
        decreases k,
    {
        let ghost before = commands_view(cmds@);
        push_term_field(&mut cmds, values, prev, k - 1, resolution, first_draw);
        assert(before + term_fields(values@, prev@, k as int, resolution as int, first_draw)
            =~= commands_view(cmds@) + term_fields(
            values@,
            prev@,
            k - 1,
            resolution as int,
            first_draw,
        ));
        k = k - 1;
    }
    assert(commands_view(cmds@) =~= commands_view(cmds@) + term_fields(
        values@,
        prev@,
        k as int,
        resolution as int,
        first_draw,
    ));
    cmds
}

/// How `format_time` puts out the time `millis`, where `previous_millis`
/// was put out before: the JSON object, or the commands that redraw it on
/// a terminal, or the line for a file.
pub open spec fn rendering(
    millis: int,
    previous_millis: int,
    format_width: int,
    resolution: int,
    as_json: bool,
    is_file: bool,
    first_draw: bool,
    out: Rendered,
) -> bool {
    if as_json {
        out matches Rendered::Text(s) && s@ == json_text(fields_of(millis), format_width, resolution)
    } else if !is_file {
        out matches Rendered::Terminal(cmds) && commands_view(cmds@) == term_text(
            fields_of(millis),
            fields_of(previous_millis),
            format_width,
            resolution,
            first_draw,
        )
    } else {
        out matches Rendered::Text(s) && s@ == file_fields(fields_of(millis), format_width, resolution)
    }
}

/// Splits `millis` into days, hours, minutes, seconds and milliseconds and
/// puts out fields `format_width - 1` down to `resolution`: as JSON when
/// `as_json`, else redrawn on a terminal (only the fields that differ from
/// those of `previous_millis` are written, unless `first_draw`), or as one
/// line for a file when `is_file`.
pub fn format_time(
    millis: i128,
    previous_millis: i128,
    format_width: usize,
    resolution: usize,
    as_json: bool,
    is_file: bool,
    first_draw: bool,
) -> (out: Rendered)
    requires
        as_json || is_file ==> resolution <= format_width <= 5,
        resolution < format_width ==> format_width <= 5,
    ensures
        rendering(
            millis as int,
            previous_millis as int,
            format_width as int,
            resolution as int,
            as_json,
            is_file,
            first_draw,
            out,
        ),
{
    let values = split_millis(millis);
    let prev_values = split_millis(previous_millis);
    if as_json {
        return Rendered::Text(produce_json(values, format_width, resolution));
    }
    if !is_file {
        Rendered::Terminal(terminal_commands(&values, &prev_values, format_width, resolution, first_draw))
    } else {
        Rendered::Text(file_line(&values, format_width, resolution))
    }
}

/// The text that the `Print` commands of `cmds` write, in order.
pub open spec fn printed_text(cmds: Seq<TermSpec>) -> Seq<char>
    decreases cmds.len(),
{
    if cmds.len() == 0 {
        Seq::empty()
    } else {
        (match cmds[0] {
            TermSpec::Print(s) => s,
            _ => Seq::empty(),
        }) + printed_text(cmds.drop_first())
    }
}

/// Whether none of `cmds` prints anything.
pub open spec fn prints_nothing(cmds: Seq<TermSpec>) -> bool {
    forall|i: int| 0 <= i < cmds.len() ==> !(#[trigger] cmds[i] is Print)
}

proof fn lemma_printed_concat(a: Seq<TermSpec>, b: Seq<TermSpec>)
    ensures
        printed_text(a + b) == printed_text(a) + printed_text(b),
    decreases a.len(),
{
    if a.len() == 0 {
        assert(a + b =~= b);
        assert(printed_text(a) + printed_text(b) =~= printed_text(b));
    } else {
        lemma_printed_concat(a.drop_first(), b);
        assert((a + b).drop_first() =~= a.drop_first() + b);
        assert((a + b)[0] == a[0]);
        assert(printed_text(a + b) =~= printed_text(a) + printed_text(b));
    }
}

/// Redrawing a time over the same time, once something was drawn, prints
/// nothing: the cursor only moves over the fields.
pub proof fn lemma_unchanged_redraw_prints_nothing(values: Seq<i128>, format_width: int, resolution: int)
    requires
        values.len() == 5,
        format_width <= 5,
    ensures
        prints_nothing(term_text(values, values, format_width, resolution, false)),
{
    lemma_unchanged_fields_print_nothing(values, format_width, resolution);
    let rest = term_fields(values, values, format_width, resolution, false);
    let all = term_text(values, values, format_width, resolution, false);
    assert forall|i: int| 0 <= i < all.len() implies !(#[trigger] all[i] is Print) by {
        if i > 0 {
            assert(all[i] == rest[i - 1]);
        }
    }
}

proof fn lemma_unchanged_fields_print_nothing(values: Seq<i128>, hi: int, resolution: int)
    requires
        values.len() == 5,
        hi <= 5,
    ensures
        prints_nothing(term_fields(values, values, hi, resolution, false)),
    decreases hi - resolution,
{
    if hi > resolution {
        lemma_unchanged_fields_print_nothing(values, hi - 1, resolution);
        let head = term_field(values, values, hi - 1, resolution, false);
        let rest = term_fields(values, values, hi - 1, resolution, false);
        let all = term_fields(values, values, hi, resolution, false);
        assert(all == head + rest);
        assert forall|i: int| 0 <= i < all.len() implies !(#[trigger] all[i] is Print) by {
            if i >= head.len() {
                assert(all[i] == rest[i - head.len()]);
            }
        }
    }
}

/// The first draw on a terminal prints, in order, the same text that a
/// file receives, whenever the display reaches the seconds (resolution 0
/// or 1); with a coarser resolution the terminal leaves out the `:` after
/// the finest field, which the file keeps.
pub proof fn lemma_first_draw_matches_file(
    values: Seq<i128>,
    prev: Seq<i128>,
    format_width: int,
    resolution: int,
)
    requires
        values.len() == 5,
        prev.len() == 5,
        0 <= resolution <= 1,
        format_width <= 5,
    ensures
        printed_text(term_text(values, prev, format_width, resolution, true)) == file_fields(
            values,
            format_width,
            resolution,
        ),
{
    lemma_first_draw_fields(values, prev, format_width, resolution);
    let rest = term_fields(values, prev, format_width, resolution, true);
    lemma_printed_concat(seq![TermSpec::ResetColor], rest);
    assert(printed_text(seq![TermSpec::ResetColor]) =~= Seq::<char>::empty()) by {
        assert(seq![TermSpec::ResetColor].drop_first() =~= Seq::<TermSpec>::empty());
        assert(printed_text(Seq::<TermSpec>::empty()) == Seq::<char>::empty());
    }
    assert(Seq::<char>::empty() + printed_text(rest) =~= printed_text(rest));
}

proof fn lemma_first_draw_fields(values: Seq<i128>, prev: Seq<i128>, hi: int, resolution: int)
    requires
        values.len() == 5,
        prev.len() == 5,
        0 <= resolution <= 1,
        hi <= 5,
    ensures
        printed_text(term_fields(values, prev, hi, resolution, true)) == file_fields(
            values,
            hi,
            resolution,
        ),
    decreases hi - resolution,
{
    if hi > resolution {
        let i = hi - 1;
        lemma_first_draw_fields(values, prev, i, resolution);
        let head = term_field(values, prev, i, resolution, true);
        let rest = term_fields(values, prev, i, resolution, true);
        lemma_printed_concat(head, rest);
        lemma_first_draw_field(values, prev, i, resolution);
    }
}

proof fn lemma_first_draw_field(values: Seq<i128>, prev: Seq<i128>, i: int, resolution: int)
    requires
        values.len() == 5,
        prev.len() == 5,
        0 <= resolution <= 1,
        resolution <= i < 5,
    ensures
        printed_text(term_field(values, prev, i, resolution, true)) == file_field(values, i),
{
    let p2 = pad_zeros(decimal(values[i] as int), 2);
    let p3 = pad_zeros(decimal(values[0] as int), 3);
    let e = Seq::<TermSpec>::empty();
    assert(printed_text(e) == Seq::<char>::empty());
    assert forall|s: Seq<char>| #[trigger] printed_text(seq![TermSpec::Print(s)]) == s by {
        assert(seq![TermSpec::Print(s)].drop_first() =~= e);
        assert(s + Seq::<char>::empty() =~= s);
    }
    if i == 0 {
        let cmds = seq![TermSpec::GreyColor, TermSpec::Print("."@ + p3)];
        assert(term_field(values, prev, i, resolution, true) =~= cmds);
        assert(cmds.drop_first() =~= seq![TermSpec::Print("."@ + p3)]);
        assert(printed_text(cmds) =~= Seq::<char>::empty() + printed_text(cmds.drop_first()));
        assert(printed_text(cmds) =~= "."@ + p3);
    } else if i == 1 {
        assert(term_field(values, prev, i, resolution, true) =~= seq![TermSpec::Print(p2)]);
    } else if i == 4 {
        let a = seq![TermSpec::Print("["@ + p2)];
        let b = seq![TermSpec::Print(":"@)];
        let c = seq![TermSpec::Print("]"@)];
        assert(term_field(values, prev, i, resolution, true) =~= a + b + c);
        lemma_printed_concat(a + b, c);
        lemma_printed_concat(a, b);
        assert(("["@ + p2) + ":"@ + "]"@ =~= "["@ + p2 + ":]"@) by {
            reveal_strlit(":");
            reveal_strlit("]");
            reveal_strlit(":]");
        }
    } else {
        let a = seq![TermSpec::Print(p2)];
        let b = seq![TermSpec::Print(":"@)];
        assert(term_field(values, prev, i, resolution, true) =~= a + b);
        lemma_printed_concat(a, b);
    }
}

/// A field that is left as it is on the terminal is skipped by exactly as
/// many columns as it takes when it is drawn, for every field from the
/// seconds up whose value has at most two digits: so the cursor ends in
/// the same column whether the field is drawn or skipped.
pub proof fn lemma_skip_matches_drawn_width(
    values: Seq<i128>,
    prev: Seq<i128>,
    i: int,
    resolution: int,
)
    requires
        values.len() == 5,
        prev.len() == 5,
        1 <= i < 5,
        0 <= values[i] < 100,
        values[i] == prev[i],
    ensures
        printed_text(term_field(values, prev, i, resolution, true)).len() == skip_width(
            i,
            resolution,
        ),
        term_field(values, prev, i, resolution, false) == seq![
            TermSpec::MoveRight(printed_text(term_field(values, prev, i, resolution, true)).len() as int),
        ],
{
    crate::text::lemma_pow10_small();
    crate::text::lemma_padded_len(values[i] as nat, 2);
    let p2 = pad_zeros(decimal(values[i] as int), 2);
    let e = Seq::<TermSpec>::empty();
    assert(printed_text(e) == Seq::<char>::empty());
    assert forall|s: Seq<char>| #[trigger] printed_text(seq![TermSpec::Print(s)]) == s by {
        assert(seq![TermSpec::Print(s)].drop_first() =~= e);
        assert(s + Seq::<char>::empty() =~= s);
    }
    reveal_strlit(":");
    reveal_strlit("[");
    reveal_strlit("]");
    let colon: Seq<TermSpec> = if i > resolution && i > 1 {
        seq![TermSpec::Print(":"@)]
    } else {
        Seq::empty()
    };
    assert(printed_text(colon).len() == (if i > resolution && i > 1 { 1int } else { 0int }));
    if i == 4 {
        let a = seq![TermSpec::Print("["@ + p2)];
        let c = seq![TermSpec::Print("]"@)];
        assert(term_field(values, prev, i, resolution, true) =~= a + colon + c);
        lemma_printed_concat(a + colon, c);
        lemma_printed_concat(a, colon);
    } else {
        let a = seq![TermSpec::Print(p2)];
        assert(term_field(values, prev, i, resolution, true) =~= a + colon + e);
        lemma_printed_concat(a + colon, e);
        lemma_printed_concat(a, colon);
    }
}

/// A field that changed is drawn the same way whether or not it is the
/// first draw: `first_draw` only decides whether unchanged fields are drawn.
pub proof fn lemma_changed_field_drawn_alike(
    values: Seq<i128>,
    prev: Seq<i128>,
    i: int,
    resolution: int,
)
    requires
        values.len() == 5,
        prev.len() == 5,
        0 <= i < 5,
        values[i] != prev[i],
    ensures
        term_field(values, prev, i, resolution, false) == term_field(
            values,
            prev,
            i,
            resolution,
            true,
        ),
{
}

} // verus!
