use vstd::prelude::*;

verus! {

/// Milliseconds in a minute, an hour and a day.
pub const MS_PER_MINUTE: i128 = 60_000;
pub const MS_PER_HOUR: i128 = 3_600_000;
pub const MS_PER_DAY: i128 = 86_400_000;

/// The fields of an amount of `m` milliseconds, finest first:
/// milliseconds, seconds, minutes, hours, days. Whole days are taken
/// first, then whole hours of what is left, and so on; an amount below
/// one second, negative ones included, is all milliseconds.
pub open spec fn time_fields(m: int) -> Seq<int> {
    if m < 1000 {
        seq![m, 0, 0, 0, 0]
    } else {
        let days = m / 86_400_000;
        let r1 = m % 86_400_000;
        let hours = r1 / 3_600_000;
        let r2 = r1 % 3_600_000;
        let minutes = r2 / 60_000;
        let r3 = r2 % 60_000;
        seq![r3 % 1000, r3 / 1000, minutes, hours, days]
    }
}

/// The amount of milliseconds that fields `f` stand for.
pub open spec fn fields_total(f: Seq<int>) -> int {
    f[0] + 1000 * f[1] + 60_000 * f[2] + 3_600_000 * f[3] + 86_400_000 * f[4]
}

/// Whether `f` is in range as the fields of a non-negative amount:
/// milliseconds below 1000, seconds and minutes below 60, hours below 24.
pub open spec fn fields_normal(f: Seq<int>) -> bool {
    &&& 0 <= f[0] < 1000
    &&& 0 <= f[1] < 60
    &&& 0 <= f[2] < 60
    &&& 0 <= f[3] < 24
    &&& 0 <= f[4]
}

/// The fields of a time add up to it again, and for a non-negative amount
/// each field below days is within its unit.
pub proof fn lemma_fields_recompose(m: int)
    ensures
        time_fields(m).len() == 5,
        fields_total(time_fields(m)) == m,
        m >= 0 ==> fields_normal(time_fields(m)),
{
    if m >= 1000 {
        let days = m / 86_400_000;
        let r1 = m % 86_400_000;
        let r2 = r1 % 3_600_000;
        let r3 = r2 % 60_000;
        assert(m == 86_400_000 * days + r1);
        assert(r1 == 3_600_000 * (r1 / 3_600_000) + r2);
        assert(r2 == 60_000 * (r2 / 60_000) + r3);
        assert(r3 == 1000 * (r3 / 1000) + r3 % 1000);
        assert(r1 / 3_600_000 < 24);
        assert(r2 / 60_000 < 60);
        assert(r3 / 1000 < 60);
    }
}

/// The fields of an amount of milliseconds as `i128` values.
pub open spec fn fields_of(m: int) -> Seq<i128> {
    Seq::new(5, |i: int| time_fields(m)[i] as i128)
}

/// Splits an amount of milliseconds into its fields: milliseconds,
/// seconds, minutes, hours and days.
pub fn split_millis(millis: i128) -> (values: [i128; 5])
    ensures
        values@ == fields_of(millis as int),
        forall|i: int| 0 <= i < 5 ==> values@[i] == time_fields(millis as int)[i],
        values[0] + 1000 * values[1] + 60_000 * values[2] + 3_600_000 * values[3] + 86_400_000
            * values[4] == millis,
        millis >= 0 ==> 0 <= values[0] < 1000 && 0 <= values[1] < 60 && 0 <= values[2] < 60 && 0
            <= values[3] < 24 && 0 <= values[4],
{
    proof {
        lemma_fields_recompose(millis as int);
    }
    if millis < 1000 {
        let values: [i128; 5] = [millis, 0, 0, 0, 0];
        assert(values@ =~= fields_of(millis as int));
        values
    } else {
        let m: u128 = millis as u128;
        let days: u128 = m / 86_400_000;
        let r1: u128 = m % 86_400_000;
        let hours: u128 = r1 / 3_600_000;
        let r2: u128 = r1 % 3_600_000;
        let minutes: u128 = r2 / 60_000;
        let r3: u128 = r2 % 60_000;
        let values: [i128; 5] = [
            (r3 % 1000) as i128,
            (r3 / 1000) as i128,
            minutes as i128,
            hours as i128,
            days as i128,
        ];
        assert(values@ =~= fields_of(millis as int));
        values
    }
}

} // verus!
