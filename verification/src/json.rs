use vstd::prelude::*;
use vstd::string::*;
use crate::text::{decimal, push_decimal};

verus! {

/// The key under which the JSON object carries field `i` of a time
/// (0 milliseconds, 1 seconds, 2 minutes, 3 hours, 4 days).
pub open spec fn json_key(i: int) -> Seq<char> {
    if i == 0 {
        "milliseconds"@
    } else if i == 1 {
        "seconds"@
    } else if i == 2 {
        "minutes"@
    } else if i == 3 {
        "hours"@
    } else if i == 4 {
        "days"@
    } else {
        "unknown_field"@
    }
}

/// One member of the object: ` "key": "value"`, then `,` when a member
/// of a finer field follows, else a space.
pub open spec fn json_member(values: Seq<i128>, i: int, resolution: int) -> Seq<char> {
    " \""@ + json_key(i) + "\": \""@ + decimal(values[i] as int) + "\""@ + (if i > resolution {
        ","@
    } else {
        " "@
    })
}

/// The members for fields `hi - 1` down to `resolution`, coarsest first.
pub open spec fn json_members(values: Seq<i128>, hi: int, resolution: int) -> Seq<char>
    decreases hi - resolution,
{
    if hi <= resolution {
        Seq::empty()
    } else {
        json_member(values, hi - 1, resolution) + json_members(values, hi - 1, resolution)
    }
}

/// The JSON object for fields `resolution` up to `num_fields - 1` of a time.
pub open spec fn json_text(values: Seq<i128>, num_fields: int, resolution: int) -> Seq<char> {
    "{"@ + json_members(values, num_fields, resolution) + "}"@
}

fn push_key(out: &mut String, i: usize)
    ensures
        final(out)@ == old(out)@ + json_key(i as int),
{
    if i == 0 {
        out.append("milliseconds");
    } else if i == 1 {
        out.append("seconds");
    } else if i == 2 {
        out.append("minutes");
    } else if i == 3 {
        out.append("hours");
    } else if i == 4 {
        out.append("days");
    } else {
        out.append("unknown_field");
    }
}

/// The JSON object that reports the time whose fields are `values`
/// (milliseconds, seconds, minutes, hours, days): one string member per
/// field from `num_fields - 1` down to `resolution`, e.g.
/// `{ "seconds": "5", "milliseconds": "120" }`.
pub fn produce_json(values: [i128; 5], num_fields: usize, resolution: usize) -> (json: String)
    requires
        resolution <= num_fields <= 5,
    ensures
        json@ == json_text(values@, num_fields as int, resolution as int),
{
    let mut out = String::new();
    out.append("{");
    let mut field_count: usize = num_fields;
    while field_count > resolution
        invariant
            resolution <= field_count <= num_fields <= 5,
            out@ + json_members(values@, field_count as int, resolution as int) == "{"@
                + json_members(values@, num_fields as int, resolution as int),
        decreases field_count,
    {
        let i = field_count - 1;
        let ghost before = out@;
        out.append(" \"");
        push_key(&mut out, i);
        out.append("\": \"");
        push_decimal(&mut out, values[i]);
        out.append("\"");
        if field_count - resolution > 1 {
            out.append(",");
        } else {
            out.append(" ");
        }
        assert(out@ == before + json_member(values@, i as int, resolution as int));
        assert(before + json_members(values@, field_count as int, resolution as int) =~= out@
            + json_members(values@, i as int, resolution as int));
        field_count = i;
    }
    out.append("}");
    out
}

} // verus!
