//! A month calendar rendered as text lines: a header with the month name
//! and year, a weekday banner, and one line per complete week — each day
//! in a four-character column, the first week indented to its weekday.
//! Days of a trailing incomplete week are not shown.
use vstd::prelude::*;

use crate::text::dec_digits;
use crate::text::lemma_dec_digits_len;
use crate::text::push_char;
use crate::text::push_decimal;

verus! {

/// Relies on chrono's `NaiveDate`: the weekday of the first day of the
/// month, counted from Monday as zero; nothing when year and month form
/// no valid date. The result depends on year and month alone.
pub uninterp spec fn first_weekday_of(year: int, month: int) -> Option<u32>;

#[verifier::external_body]
fn month_first_weekday(year: i32, month: u32) -> (r: Option<u32>)
    ensures
        r == first_weekday_of(year as int, month as int),
        r matches Some(w) ==> w <= 6,
{
    chrono::NaiveDate::from_ymd_opt(year, month, 1).map(
        |d| chrono::Datelike::weekday(&d).num_days_from_monday(),
    )
}

/// A leap year of the proleptic Gregorian calendar.
pub open spec fn is_leap_year(y: int) -> bool {
    y % 4 == 0 && (y % 100 != 0 || y % 400 == 0)
}

/// How many days the month has.
pub open spec fn days_in_month_spec(y: int, m: int) -> int {
    if m == 2 {
        if is_leap_year(y) {
            29
        } else {
            28
        }
    } else if m == 4 || m == 6 || m == 9 || m == 11 {
        30
    } else {
        31
    }
}

fn days_in_month(year: i32, month: u32) -> (r: u32)
    requires
        1 <= year,
        1 <= month <= 12,
    ensures
        r as int == days_in_month_spec(year as int, month as int),
        28 <= r <= 31,
{
    if month == 2 {
        if year % 4 == 0 && (year % 100 != 0 || year % 400 == 0) {
            29
        } else {
            28
        }
    } else if month == 4 || month == 6 || month == 9 || month == 11 {
        30
    } else {
        31
    }
}

/// The English month name.
pub open spec fn month_name_spec(m: int) -> Seq<char> {
    if m == 1 {
        "January"@
    } else if m == 2 {
        "February"@
    } else if m == 3 {
        "March"@
    } else if m == 4 {
        "April"@
    } else if m == 5 {
        "May"@
    } else if m == 6 {
        "June"@
    } else if m == 7 {
        "July"@
    } else if m == 8 {
        "August"@
    } else if m == 9 {
        "September"@
    } else if m == 10 {
        "October"@
    } else if m == 11 {
        "November"@
    } else {
        "December"@
    }
}

fn month_name(month: u32) -> (r: &'static str)
    requires
        1 <= month <= 12,
    ensures
        r@ == month_name_spec(month as int),
{
    match month {
        1 => "January",
        2 => "February",
        3 => "March",
        4 => "April",
        5 => "May",
        6 => "June",
        7 => "July",
        8 => "August",
        9 => "September",
        10 => "October",
        11 => "November",
        _ => "December",
    }
}

/// A run of spaces.
pub open spec fn spaces(k: int) -> Seq<char> {
    Seq::new(k as nat, |i: int| ' ')
}

/// A day number in a four-character column, left aligned.
pub open spec fn day_cell(n: int) -> Seq<char> {
    dec_digits(n) + spaces(4 - dec_digits(n).len())
}

/// `count` consecutive day cells starting at `from_day`.
pub open spec fn row_cells(from_day: int, count: int) -> Seq<char>
    decreases count,
{
    if count <= 0 {
        Seq::empty()
    } else {
        row_cells(from_day, count - 1) + day_cell(from_day + count - 1)
    }
}

/// The first day number shown in week `j`, with the month starting
/// `dfm` days after Monday.
pub open spec fn row_first_day(dfm: int, j: int) -> int {
    if j == 0 {
        1
    } else {
        7 - dfm + 7 * (j - 1) + 1
    }
}

/// One week line: the first week is indented by its weekday, every other
/// week holds seven cells.
pub open spec fn week_row(dfm: int, j: int) -> Seq<char> {
    if j == 0 {
        spaces(4 * dfm) + row_cells(1, 7 - dfm)
    } else {
        row_cells(row_first_day(dfm, j), 7)
    }
}

/// All complete week lines of the month.
pub open spec fn calendar_rows(dfm: int, dim: int) -> Seq<Seq<char>> {
    Seq::new(((dfm + dim) / 7) as nat, |j: int| week_row(dfm, j))
}

/// The whole output: blank line, month-and-year header, blank line,
/// weekday banner, blank line, then the week lines.
pub open spec fn calendar_lines_spec(year: int, month: int, dfm: int, dim: int) -> Seq<
    Seq<char>,
> {
    seq![
        Seq::<char>::empty(),
        month_name_spec(month) + seq![' '] + dec_digits(year),
        Seq::<char>::empty(),
        "Mon Tue Wed Thu Fri Sat Sun"@,
        Seq::<char>::empty(),
    ] + calendar_rows(dfm, dim)
}

/// Builds the calendar of the given month, or nothing when year and
/// month form no valid date.
pub fn generate_calendar(year: i32, month: u32) -> (r: Option<Vec<String>>)
    requires
        1 <= year,
        1 <= month <= 12,
    ensures
        r is Some <==> first_weekday_of(year as int, month as int) is Some,
        r matches Some(v) ==> first_weekday_of(year as int, month as int) matches Some(w)
            && v.deep_view() == calendar_lines_spec(
            year as int,
            month as int,
            w as int,
            days_in_month_spec(year as int, month as int),
        ),
{
    let dfm: u32 = match month_first_weekday(year, month) {
        None => {
            return None;
        },
        Some(w) => w,
    };
    let dim = days_in_month(year, month);
    let ghost pre: Seq<Seq<char>> = seq![
        Seq::<char>::empty(),
        month_name_spec(month as int) + seq![' '] + dec_digits(year as int),
        Seq::<char>::empty(),
        "Mon Tue Wed Thu Fri Sat Sun"@,
        Seq::<char>::empty(),
    ];
    let mut lines: Vec<String> = Vec::new();
    lines.push(String::new());
    let mut header = String::from_str(month_name(month));
    push_char(&mut header, ' ');
    proof {
        assert(header@ =~= month_name_spec(month as int) + seq![' ']);
    }
    push_decimal(&mut header, year as u32);
    lines.push(header);
    lines.push(String::new());
    lines.push(String::from_str("Mon Tue Wed Thu Fri Sat Sun"));
    lines.push(String::new());
    proof {
        assert(lines.deep_view() =~~= pre);
        assert(pre + Seq::new(0nat, |q: int| week_row(dfm as int, q)) =~= pre);
    }
    let total_rows: usize = ((dfm as usize) + (dim as usize)) / 7;
    let mut day: u32 = 1;
    let mut j: usize = 0;
    while j < total_rows
        invariant
            dfm <= 6,
            28 <= dim <= 31,
            total_rows == ((dfm + dim) as int) / 7,
            j <= total_rows,
            day as int == row_first_day(dfm as int, j as int),
            1 <= day <= 38,
            lines.deep_view() == pre + Seq::new(j as nat, |q: int| week_row(dfm as int, q)),
        decreases total_rows - j,
    {
        let mut row = String::new();
        let cells: u32 = if j == 0 {
            let mut p: u32 = 0;
            while p < 4 * dfm
                invariant
                    p <= 4 * dfm,
                    dfm <= 6,
                    row@ =~= spaces(p as int),
                decreases 4 * dfm - p,
            {
                push_char(&mut row, ' ');
                proof {
                    assert(row@ =~= spaces(p + 1));
                }
                p = p + 1;
            }
            7 - dfm
        } else {
            7
        };
        let ghost lead: Seq<char> = if j == 0 {
            spaces(4 * (dfm as int))
        } else {
            Seq::empty()
        };
        proof {
            assert(row@ =~= lead);
        }
        let ghost day0 = day as int;
        let mut cidx: u32 = 0;
        while cidx < cells
            invariant
                cells <= 7,
                cidx <= cells,
                day as int == day0 + cidx,
                1 <= day0,
                day0 + cells <= 39,
                row@ =~= lead + row_cells(day0, cidx as int),
            decreases cells - cidx,
        {
            let ghost before = row@;
            push_decimal(&mut row, day);
            let width: u32 = if day < 10 {
                1
            } else {
                2
            };
            proof {
                lemma_dec_digits_len(day as int);
            }
            let mut pad = width;
            while pad < 4
                invariant
                    width <= pad <= 4,
                    width as int == dec_digits(day as int).len(),
                    row@ =~= before + dec_digits(day as int) + spaces((pad - width) as int),
                decreases 4 - pad,
            {
                push_char(&mut row, ' ');
                proof {
                    assert(row@ =~= before + dec_digits(day as int) + spaces(
                        (pad + 1 - width) as int,
                    ));
                }
                pad = pad + 1;
            }
            proof {
                assert(row@ =~= lead + row_cells(day0, cidx + 1));
            }
            day = day + 1;
            cidx = cidx + 1;
        }
        proof {
            assert(row@ =~= week_row(dfm as int, j as int));
        }
        let ghost row_view = row@;
        let ghost old_deep = lines.deep_view();
        lines.push(row);
        proof {
            let target = pre + Seq::new((j + 1) as nat, |q: int| week_row(dfm as int, q));
            assert(target.len() == pre.len() + j + 1);
            assert(old_deep.len() == pre.len() + j as int);
            assert(lines@.len() == old_deep.len() + 1);
            assert(lines.deep_view().len() == lines@.len());
            assert(lines.deep_view().len() == target.len());
            assert forall|q: int| 0 <= q < target.len() implies #[trigger] lines.deep_view()[q]
                =~= target[q] by {
                if q < pre.len() + j {
                    assert(lines.deep_view()[q] == old_deep[q]);
                    assert(old_deep[q] == (pre + Seq::new(
                        j as nat,
                        |q2: int| week_row(dfm as int, q2),
                    ))[q]);
                } else {
                    assert(lines.deep_view()[q] == row_view);
                }
            }
            assert(lines.deep_view() =~~= target);
        }
        j = j + 1;
    }
    proof {
        assert(pre + Seq::new(total_rows as nat, |q: int| week_row(dfm as int, q))
            =~~= calendar_lines_spec(
            year as int,
            month as int,
            dfm as int,
            days_in_month_spec(year as int, month as int),
        ));
    }
    Some(lines)
}

} // verus!
