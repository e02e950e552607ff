//! Unix times read as a wall clock at a UTC offset, and calendar days turned
//! back into Unix times — the two things the `time` crate computes here — and
//! the fixed-width text a listing draws them as.
//!
//! An offset is whole seconds east of UTC: the local offset is an environment
//! fact, read once by the caller, which keeps everything here a function of
//! its arguments.

use vstd::prelude::*;

use crate::text::{decimal, push_char, push_decimal};

verus! {

/// The year, month, day, hour and minute `time` reads a Unix time as at an
/// offset; `None` when the offset or the moment is outside what it represents.
pub uninterp spec fn wall_clock(when: i64, offset: i32) -> Option<(i32, u8, u8, u8, u8)>;

/// The Unix time `time` gives local midnight on a calendar day at an offset;
/// `None` when the day or the offset is not one it accepts.
pub uninterp spec fn midnight_at(year: i32, month: u8, day: u8, offset: i32) -> Option<i64>;

/// `time::OffsetDateTime::from_unix_timestamp`, moved to the offset made by
/// `time::UtcOffset::from_whole_seconds` with `checked_to_offset`, read back
/// through `year`, `month`, `day`, `hour` and `minute`. Each error of `time`
/// is `None`. The contract names the result, and states the ranges `time`
/// documents for its parts; the calendar arithmetic is not restated.
#[verifier::external_body]
pub(crate) fn local_clock(when: i64, offset: i32) -> (r: Option<(i32, u8, u8, u8, u8)>)
    ensures
        r == wall_clock(when, offset),
        r matches Some((_, mo, d, h, mi)) ==> 1 <= mo <= 12 && 1 <= d <= 31 && h < 24 && mi < 60,
{
    let offset = time::UtcOffset::from_whole_seconds(offset).ok()?;
    let dt = time::OffsetDateTime::from_unix_timestamp(when).ok()?.checked_to_offset(offset)?;
    Some((dt.year(), dt.month() as u8, dt.day(), dt.hour(), dt.minute()))
}

/// `time::Date::from_calendar_date` on the day `year`-`month`-`day` (the
/// month through `time::Month::try_from`), at `midnight`, `assume_offset` at
/// the offset `time::UtcOffset::from_whole_seconds` makes, as a
/// `unix_timestamp`. Each error of `time` is `None`. The contract names the
/// result and restates none of the calendar.
#[verifier::external_body]
pub(crate) fn local_midnight(year: i32, month: u8, day: u8, offset: i32) -> (r: Option<i64>)
    ensures
        r == midnight_at(year, month, day, offset),
{
    let month = time::Month::try_from(month).ok()?;
    let offset = time::UtcOffset::from_whole_seconds(offset).ok()?;
    let date = time::Date::from_calendar_date(year, month, day).ok()?;
    Some(date.midnight().assume_offset(offset).unix_timestamp())
}

/// `n` in decimal, zero-padded on the left to `width` digits, as
/// `format!("{n:0width$}")` writes a non-negative number.
pub open spec fn zero_padded(n: nat, width: nat) -> Seq<char> {
    let d = decimal(n);
    if d.len() >= width {
        d
    } else {
        Seq::new((width - d.len()) as nat, |i: int| '0') + d
    }
}

/// A year as `format!("{year:04}")` writes it: four digits, the sign counted
/// in the width.
pub open spec fn year_text(year: i32) -> Seq<char> {
    if year < 0 {
        seq!['-'] + zero_padded((-year) as nat, 3)
    } else {
        zero_padded(year as nat, 4)
    }
}

/// `YYYY-MM-DD`.
pub open spec fn date_text(year: i32, month: u8, day: u8) -> Seq<char> {
    year_text(year) + seq!['-'] + zero_padded(month as nat, 2) + seq!['-'] + zero_padded(
        day as nat,
        2,
    )
}

/// `YYYY-MM-DD HH:MM`.
pub open spec fn timestamp_text(year: i32, month: u8, day: u8, hour: u8, minute: u8) -> Seq<char> {
    date_text(year, month, day) + seq![' '] + zero_padded(hour as nat, 2) + seq![':']
        + zero_padded(minute as nat, 2)
}

/// `n` spaces.
pub open spec fn blanks(n: nat) -> Seq<char> {
    Seq::new(n, |i: int| ' ')
}

fn push_zero_padded(out: &mut String, n: u64, width: usize)
    ensures
        final(out)@ == old(out)@ + zero_padded(n as nat, width as nat),
{
    let digits = crate::text::decimal_string(n);
    let len = digits.unicode_len();
    let ghost start = out@;
    if len < width {
        let mut i: usize = 0;
        while i < width - len
            invariant
                len < width,
                i <= width - len,
                out@ == start + Seq::new(i as nat, |k: int| '0'),
            decreases width - len - i,
        {
            push_char(out, '0');
            i += 1;
            assert(out@ =~= start + Seq::new(i as nat, |k: int| '0'));
        }
    }
    let ghost mid = out@;
    out.append(digits.as_str());
    assert(out@ =~= start + zero_padded(n as nat, width as nat));
}

fn push_year(out: &mut String, year: i32)
    ensures
        final(out)@ == old(out)@ + year_text(year),
{
    let ghost start = out@;
    if year < 0 {
        push_char(out, '-');
        let magnitude: u64 = if year == i32::MIN {
            2147483648u64
        } else {
            (-year) as u64
        };
        push_zero_padded(out, magnitude, 3);
        assert(out@ =~= start + year_text(year));
    } else {
        push_zero_padded(out, year as u64, 4);
    }
}

fn push_date(out: &mut String, year: i32, month: u8, day: u8)
    ensures
        final(out)@ == old(out)@ + date_text(year, month, day),
{
    let ghost start = out@;
    push_year(out, year);
    push_char(out, '-');
    push_zero_padded(out, month as u64, 2);
    push_char(out, '-');
    push_zero_padded(out, day as u64, 2);
    assert(out@ =~= start + date_text(year, month, day));
}

fn blank_string(n: usize) -> (r: String)
    ensures
        r@ == blanks(n as nat),
{
    let mut out = String::new();
    let mut i: usize = 0;
    while i < n
        invariant
            i <= n,
            out@ == blanks(i as nat),
        decreases n - i,
    {
        push_char(&mut out, ' ');
        i += 1;
        assert(out@ =~= blanks(i as nat));
    }
    out
}

/// A calendar date, `YYYY-MM-DD`, at `offset`; ten blanks for a moment no
/// calendar here represents, so it costs the listing a value rather than a
/// column.
pub open spec fn date_at_offset(when: i64, offset: i32) -> Seq<char> {
    match wall_clock(when, offset) {
        Some((y, mo, d, _, _)) => date_text(y, mo, d),
        None => blanks(10),
    }
}

/// A calendar date and the time of day, `YYYY-MM-DD HH:MM`, at `offset`;
/// sixteen blanks for a moment no calendar here represents.
pub open spec fn timestamp_at_offset(when: i64, offset: i32) -> Seq<char> {
    match wall_clock(when, offset) {
        Some((y, mo, d, h, mi)) => timestamp_text(y, mo, d, h, mi),
        None => blanks(16),
    }
}

/// A calendar date, `YYYY-MM-DD`, at `offset` — see [`date_at_offset`].
pub fn date(when: i64, offset: i32) -> (r: String)
    ensures
        r@ == date_at_offset(when, offset),
{
    match local_clock(when, offset) {
        Some((y, mo, d, _, _)) => {
            let mut out = String::new();
            push_date(&mut out, y, mo, d);
            out
        },
        None => blank_string(10),
    }
}

/// A calendar date and the time of day, `YYYY-MM-DD HH:MM`, at `offset` —
/// see [`timestamp_at_offset`].
pub fn timestamp(when: i64, offset: i32) -> (r: String)
    ensures
        r@ == timestamp_at_offset(when, offset),
{
    match local_clock(when, offset) {
        Some((y, mo, d, h, mi)) => {
            let mut out = String::new();
            push_date(&mut out, y, mo, d);
            push_char(&mut out, ' ');
            push_zero_padded(&mut out, h as u64, 2);
            push_char(&mut out, ':');
            push_zero_padded(&mut out, mi as u64, 2);
            assert(out@ =~= timestamp_text(y, mo, d, h, mi));
            out
        },
        None => blank_string(16),
    }
}

/// The name a new note takes when the user did not give one: the local date
/// and time to the minute, `YYYY-MM-DD-HHMM.md`; `note.md` for a moment no
/// calendar here represents.
pub open spec fn generated_name_of(now: i64, offset: i32) -> Seq<char> {
    match wall_clock(now, offset) {
        Some((y, mo, d, h, mi)) => date_text(y, mo, d) + seq!['-'] + zero_padded(h as nat, 2)
            + zero_padded(mi as nat, 2) + ".md"@,
        None => "note.md"@,
    }
}

/// The name a new note takes when the user did not give one — see
/// [`generated_name_of`]. It sorts, it is unique to the minute, and renaming
/// it afterwards is what an editor is for.
pub fn generated_name(now: i64, offset: i32) -> (r: String)
    ensures
        r@ == generated_name_of(now, offset),
{
    match local_clock(now, offset) {
        Some((y, mo, d, h, mi)) => {
            let mut out = String::new();
            push_date(&mut out, y, mo, d);
            push_char(&mut out, '-');
            push_zero_padded(&mut out, h as u64, 2);
            push_zero_padded(&mut out, mi as u64, 2);
            out.append(".md");
            out
        },
        None => String::from_str("note.md"),
    }
}

/// Every date is ten characters and every timestamp sixteen, whatever the
/// moment, so the columns they lead stay aligned — for any year of four
/// digits or fewer.
pub proof fn lemma_fixed_widths(when: i64, offset: i32)
    ensures
        wall_clock(when, offset) matches Some((y, mo, d, h, mi)) && -999 <= y <= 9999 && mo < 100
            && d < 100 && h < 100 && mi < 100 ==> date_at_offset(when, offset).len() == 10
            && timestamp_at_offset(when, offset).len() == 16,
        wall_clock(when, offset) is None ==> date_at_offset(when, offset).len() == 10
            && timestamp_at_offset(when, offset).len() == 16,
{
    assert(crate::note::pow10(2) == 100 && crate::note::pow10(3) == 1000 && crate::note::pow10(4)
        == 10000) by {
        reveal_with_fuel(crate::note::pow10, 5);
    }
    reveal_strlit("note.md");
    match wall_clock(when, offset) {
        Some((y, mo, d, h, mi)) => {
            if -999 <= y <= 9999 && mo < 100 && d < 100 && h < 100 && mi < 100 {
                lemma_padded_len(mo as nat, 2);
                lemma_padded_len(d as nat, 2);
                lemma_padded_len(h as nat, 2);
                lemma_padded_len(mi as nat, 2);
                if y < 0 {
                    lemma_padded_len((-y) as nat, 3);
                } else {
                    lemma_padded_len(y as nat, 4);
                }
            }
        },
        None => {},
    }
}

proof fn lemma_decimal_width(n: nat, width: nat)
    requires
        width >= 1,
        n < crate::note::pow10(width),
    ensures
        decimal(n).len() <= width,
    decreases width,
{
    if n >= 10 {
        assert(width >= 2) by {
            if width == 1 {
                assert(crate::note::pow10(1) == 10 * crate::note::pow10(0));
            }
        }
        assert(crate::note::pow10(width) == 10 * crate::note::pow10((width - 1) as nat));
        lemma_decimal_width(n / 10, (width - 1) as nat);
    }
}

proof fn lemma_padded_len(n: nat, width: nat)
    requires
        1 <= width <= 4,
        n < crate::note::pow10(width),
    ensures
        zero_padded(n, width).len() == width,
{
    lemma_decimal_width(n, width);
}

} // verus!
