//! The operations' decisions on fetched state: what status reports, which
//! entry a stop acts on, the validated adjustment of a shift, and the
//! parsing of a user-typed start time.

use vstd::prelude::*;
use vstd::string::StringExecFns;

use crate::config::{AppConfig, ProjectS};
use crate::entry::TimeEntry;
use crate::toggl::TogglError;

verus! {

/// The decimal digit character for a value below ten.
pub open spec fn digit_char(d: int) -> char {
    if d == 0 {
        '0'
    } else if d == 1 {
        '1'
    } else if d == 2 {
        '2'
    } else if d == 3 {
        '3'
    } else if d == 4 {
        '4'
    } else if d == 5 {
        '5'
    } else if d == 6 {
        '6'
    } else if d == 7 {
        '7'
    } else if d == 8 {
        '8'
    } else {
        '9'
    }
}

/// The decimal digits of a non-negative integer, as characters.
pub open spec fn dec_chars(n: int) -> Seq<char>
    decreases n,
    when 0 <= n
{
    if n < 10 {
        seq![digit_char(n)]
    } else {
        proof {
            assert(0 <= n / 10 < n) by (nonlinear_arith)
                requires
                    n >= 10,
            ;
        }
        dec_chars(n / 10) + seq![digit_char(n % 10)]
    }
}

fn append_digit(out: &mut String, d: u64)
    requires
        d < 10,
    ensures
        final(out)@ == old(out)@ + seq![digit_char(d as int)],
{
    if d == 0 {
        out.append("0");
        proof {
            reveal_strlit("0");
            assert("0"@ =~= seq![digit_char(0)]);
        }
    } else if d == 1 {
        out.append("1");
        proof {
            reveal_strlit("1");
            assert("1"@ =~= seq![digit_char(1)]);
        }
    } else if d == 2 {
        out.append("2");
        proof {
            reveal_strlit("2");
            assert("2"@ =~= seq![digit_char(2)]);
        }
    } else if d == 3 {
        out.append("3");
        proof {
            reveal_strlit("3");
            assert("3"@ =~= seq![digit_char(3)]);
        }
    } else if d == 4 {
        out.append("4");
        proof {
            reveal_strlit("4");
            assert("4"@ =~= seq![digit_char(4)]);
        }
    } else if d == 5 {
        out.append("5");
        proof {
            reveal_strlit("5");
            assert("5"@ =~= seq![digit_char(5)]);
        }
    } else if d == 6 {
        out.append("6");
        proof {
            reveal_strlit("6");
            assert("6"@ =~= seq![digit_char(6)]);
        }
    } else if d == 7 {
        out.append("7");
        proof {
            reveal_strlit("7");
            assert("7"@ =~= seq![digit_char(7)]);
        }
    } else if d == 8 {
        out.append("8");
        proof {
            reveal_strlit("8");
            assert("8"@ =~= seq![digit_char(8)]);
        }
    } else {
        out.append("9");
        proof {
            reveal_strlit("9");
            assert("9"@ =~= seq![digit_char(9)]);
        }
    }
}

/// Render an unsigned integer in decimal.
pub fn u64_to_string(n: u64) -> (r: String)
    ensures
        r@ == dec_chars(n as int),
    decreases n,
{
    if n < 10 {
        let mut s = String::new();
        append_digit(&mut s, n);
        assert(s@ =~= dec_chars(n as int));
        s
    } else {
        proof {
            assert(0 <= n as int / 10 < n as int) by (nonlinear_arith)
                requires
                    n >= 10,
            ;
        }
        let mut s = u64_to_string(n / 10);
        append_digit(&mut s, n % 10);
        assert(s@ =~= dec_chars(n as int));
        s
    }
}

/// The name of the first catalog project carrying this identifier.
pub open spec fn spec_project_name(ps: Seq<ProjectS>, id: int) -> Option<Seq<char>>
    decreases ps.len(),
{
    if ps.len() == 0 {
        None
    } else if ps[0].id == id {
        Some(ps[0].name)
    } else {
        spec_project_name(ps.drop_first(), id)
    }
}

/// Look a project's display name up in the catalog.
pub fn find_project_name(id: u64, config: &AppConfig) -> (r: Option<String>)
    ensures
        match r {
            Some(name) => spec_project_name(config.projects.deep_view(), id as int) == Some(
                name@,
            ),
            None => spec_project_name(config.projects.deep_view(), id as int) is None,
        },
{
    let ghost ps = config.projects.deep_view();
    proof {
        assert(ps.skip(0) =~= ps);
    }
    let mut k: usize = 0;
    while k < config.projects.len()
        invariant
            k <= config.projects.len(),
            ps == config.projects.deep_view(),
            ps.len() == config.projects.len(),
            spec_project_name(ps, id as int) == spec_project_name(ps.skip(k as int), id as int),
        decreases config.projects.len() - k,
    {
        proof {
            assert(ps.skip(k as int).drop_first() =~= ps.skip(k as int + 1));
            assert(ps.skip(k as int)[0] == ps[k as int]);
        }
        proof {
            assert(ps[k as int] == config.projects@[k as int].deep_view());
        }
        if config.projects[k].id == id {
            let name = config.projects[k].name.clone();
            assert(name@ == ps[k as int].name);
            return Some(name);
        }
        k += 1;
    }
    proof {
        assert(ps.skip(ps.len() as int).len() == 0);
    }
    None
}

/// The display name for a project: its catalog name, or the raw identifier
/// in decimal when the catalog does not know it.
pub fn get_project_name_by_id(id: u64, config: &AppConfig) -> (r: String)
    ensures
        match spec_project_name(config.projects.deep_view(), id as int) {
            Some(name) => r@ == name,
            None => r@ == dec_chars(id as int),
        },
{
    match find_project_name(id, config) {
        Some(name) => name,
        None => u64_to_string(id),
    }
}

/// What status reports: nothing running, or the running entry's
/// description, resolved project name and elapsed time.
pub enum StatusReport {
    /// The service reports no running entry; a valid outcome, not an error.
    NothingRunning,
    /// The running entry, with `project_known` false when the catalog does
    /// not list its project and `project_name` falls back to the raw
    /// identifier.
    Running { description: String, project_name: String, project_known: bool, elapsed: i64 },
}

/// The status decision on the fetched state.  It never fails: an absent
/// entry reports nothing running, and an unknown project falls back to its
/// identifier rather than aborting.
pub fn status(current: Option<TimeEntry>, config: &AppConfig, now: i64) -> (r: StatusReport)
    requires
        (current matches Some(c) ==> -0x8000_0000_0000_0000 <= now - c.start
            <= 0x7fff_ffff_ffff_ffff),
    ensures
        match current {
            None => r is NothingRunning,
            Some(c) => (r matches StatusReport::Running {
                description,
                project_name,
                project_known,
                elapsed,
            } && description@ == c.description@ && elapsed == now - c.start && (match
                spec_project_name(config.projects.deep_view(), c.project_id as int) {
                Some(name) => project_known && project_name@ == name,
                None => !project_known && project_name@ == dec_chars(c.project_id as int),
            })),
        },
{
    let c = match current {
        Some(c) => c,
        None => {
            return StatusReport::NothingRunning;
        },
    };
    let (project_name, project_known) = match find_project_name(c.project_id, &config) {
        Some(name) => (name, true),
        None => (u64_to_string(c.project_id), false),
    };
    StatusReport::Running {
        description: c.description,
        project_name,
        project_known,
        elapsed: now - c.start,
    }
}

/// A decimal digit character.
pub open spec fn is_digit_char(c: char) -> bool {
    '0' <= c <= '9'
}

/// The value of a digit character.
pub open spec fn digit_val(c: char) -> int {
    c as int - 48
}

/// A start time typed as hour and minute: exactly two digits, an optional
/// colon, and two digits, with the hour below 24 and the minute below 60.
pub open spec fn spec_hhmm(s: Seq<char>) -> Option<(int, int)> {
    if s.len() == 4 && is_digit_char(s[0]) && is_digit_char(s[1]) && is_digit_char(s[2])
        && is_digit_char(s[3]) {
        let h = digit_val(s[0]) * 10 + digit_val(s[1]);
        let m = digit_val(s[2]) * 10 + digit_val(s[3]);
        if h < 24 && m < 60 {
            Some((h, m))
        } else {
            None
        }
    } else if s.len() == 5 && is_digit_char(s[0]) && is_digit_char(s[1]) && s[2] == ':'
        && is_digit_char(s[3]) && is_digit_char(s[4]) {
        let h = digit_val(s[0]) * 10 + digit_val(s[1]);
        let m = digit_val(s[3]) * 10 + digit_val(s[4]);
        if h < 24 && m < 60 {
            Some((h, m))
        } else {
            None
        }
    } else {
        None
    }
}

/// Writing the same hour and minute with or without the colon names the
/// same time of day.
pub proof fn lemma_hhmm_colon_insensitive(a: char, b: char, c: char, d: char)
    ensures
        spec_hhmm(seq![a, b, c, d]) == spec_hhmm(seq![a, b, ':', c, d]),
{
    let s4 = seq![a, b, c, d];
    let s5 = seq![a, b, ':', c, d];
    assert(s4.len() == 4 && s5.len() == 5);
    assert(s4[0] == a && s4[1] == b && s4[2] == c && s4[3] == d);
    assert(s5[0] == a && s5[1] == b && s5[2] == ':' && s5[3] == c && s5[4] == d);
}

fn digit_of(c: char) -> (r: Option<i64>)
    ensures
        match r {
            Some(v) => is_digit_char(c) && v == digit_val(c) && 0 <= v <= 9,
            None => !is_digit_char(c),
        },
{
    if c >= '0' && c <= '9' {
        Some((c as u32 - 48) as i64)
    } else {
        None
    }
}

/// Parse a user-typed start time against the day it belongs to:
/// `day_start` is midnight of that day, in seconds since the epoch, and the
/// result is that midnight plus the typed hour and minute.  Malformed input
/// is rejected, never guessed at.
pub fn parse_time(raw: &str, day_start: i64) -> (r: Result<i64, TogglError>)
    requires
        0 <= day_start <= 253402300799,
    ensures
        match r {
            Ok(t) => (spec_hhmm(raw@) matches Some((h, m)) && t == day_start + h * 3600 + m
                * 60),
            Err(err) => (err matches TogglError::InvalidInput) && spec_hhmm(raw@) is None,
        },
{
    let n = raw.unicode_len();
    if n == 4 {
        let (d0, d1, d2, d3) = (
            digit_of(raw.get_char(0)),
            digit_of(raw.get_char(1)),
            digit_of(raw.get_char(2)),
            digit_of(raw.get_char(3)),
        );
        match (d0, d1, d2, d3) {
            (Some(a), Some(b), Some(c), Some(d)) => {
                let h = a * 10 + b;
                let m = c * 10 + d;
                if h < 24 && m < 60 {
                    Ok(day_start + h * 3600 + m * 60)
                } else {
                    Err(TogglError::InvalidInput)
                }
            },
            _ => Err(TogglError::InvalidInput),
        }
    } else if n == 5 {
        if raw.get_char(2) != ':' {
            return Err(TogglError::InvalidInput);
        }
        let (d0, d1, d2, d3) = (
            digit_of(raw.get_char(0)),
            digit_of(raw.get_char(1)),
            digit_of(raw.get_char(3)),
            digit_of(raw.get_char(4)),
        );
        match (d0, d1, d2, d3) {
            (Some(a), Some(b), Some(c), Some(d)) => {
                let h = a * 10 + b;
                let m = c * 10 + d;
                if h < 24 && m < 60 {
                    Ok(day_start + h * 3600 + m * 60)
                } else {
                    Err(TogglError::InvalidInput)
                }
            },
            _ => Err(TogglError::InvalidInput),
        }
    } else {
        Err(TogglError::InvalidInput)
    }
}

/// The end of a target entry's interval for shift validation: its stop
/// time, or now while it is still running.
pub open spec fn shift_bound(target: TimeEntry, now: i64) -> int {
    match target.stop {
        Some(t) => t as int,
        None => now as int,
    }
}

/// The shift decision: the adjusted entry keeps every field of the target
/// but its start, and an adjustment that would erase or invert the target's
/// interval is rejected with no call issued.  Only the target's own
/// interval is validated; whether the shift collides with a neighboring
/// entry is left to the operator, who is expected to adjust that neighbor
/// by hand.
pub fn shift(target: &TimeEntry, new_start: i64, now: i64) -> (r: Result<TimeEntry, TogglError>)
    ensures
        match r {
            Ok(d) => new_start < shift_bound(*target, now) && d.id == target.id && d.project_id
                == target.project_id && d.workspace_id == target.workspace_id && d.description@
                == target.description@ && d.start == new_start && d.stop == target.stop
                && d.duration == target.duration,
            Err(err) => (err matches TogglError::InvalidShift) && new_start >= shift_bound(
                *target,
                now,
            ),
        },
{
    let end: i64 = match target.stop {
        Some(t) => t,
        None => now,
    };
    if new_start >= end {
        return Err(TogglError::InvalidShift);
    }
    Ok(target.set_start(new_start))
}

} // verus!
