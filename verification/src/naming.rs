//! Naming of session output files.
//!
//! A session that begins at local time `Y-M-D h:m:s` writes to
//! `<root>/<YYYY_MM_DD>/<HH_MM_SS>.csv`. The digit formatting is verified
//! against the spec functions below; only the reading of the wall clock
//! itself is trusted. The path depends on the clock reading alone: two
//! sessions that begin within the same second name the same file, and the
//! later one wins at the filesystem — a known ambiguity of the layout,
//! left as it is.

use vstd::prelude::*;

verus! {

/// Path separator `/`.
pub const SLASH: u8 = 47;

/// Underscore `_`.
pub const UNDERSCORE: u8 = 95;

/// Dot `.`.
pub const DOT: u8 = 46;

/// Letter `c`.
pub const LC_C: u8 = 99;

/// Letter `s`.
pub const LC_S: u8 = 115;

/// Letter `v`.
pub const LC_V: u8 = 118;

/// A local wall-clock reading, split into plain calendar fields.
#[derive(Clone, Copy, Debug)]
pub struct ClockParts {
    pub year: i32,
    pub month: u32,
    pub day: u32,
    pub hour: u32,
    pub minute: u32,
    pub second: u32,
}

/// Field ranges under which a reading can be formatted: what chrono
/// documents for each field, and a four-digit year.
pub open spec fn valid_clock(t: ClockParts) -> bool {
    &&& 0 <= t.year <= 9999
    &&& 1 <= t.month <= 12
    &&& 1 <= t.day <= 31
    &&& t.hour <= 23
    &&& t.minute <= 59
    &&& t.second <= 59
}

/// The ASCII digit for `n`'s last decimal digit.
pub open spec fn ascii_digit(n: int) -> u8 {
    (48 + n % 10) as u8
}

/// `n` zero-padded to two decimal digits.
pub open spec fn two_digits(n: int) -> Seq<u8> {
    seq![ascii_digit(n / 10), ascii_digit(n)]
}

/// `n` zero-padded to four decimal digits.
pub open spec fn four_digits(n: int) -> Seq<u8> {
    seq![ascii_digit(n / 1000), ascii_digit(n / 100), ascii_digit(n / 10), ascii_digit(n)]
}

/// The per-day directory name, `YYYY_MM_DD`.
pub open spec fn date_dir_name(t: ClockParts) -> Seq<u8> {
    four_digits(t.year as int) + seq![UNDERSCORE] + two_digits(t.month as int) + seq![UNDERSCORE]
        + two_digits(t.day as int)
}

/// The per-session file name, `HH_MM_SS.csv`.
pub open spec fn time_file_name(t: ClockParts) -> Seq<u8> {
    two_digits(t.hour as int) + seq![UNDERSCORE] + two_digits(t.minute as int) + seq![UNDERSCORE]
        + two_digits(t.second as int) + seq![DOT, LC_C, LC_S, LC_V]
}

/// The full directory path, `<root>/<YYYY_MM_DD>`.
pub open spec fn session_dir_path(root: Seq<u8>, t: ClockParts) -> Seq<u8> {
    root + seq![SLASH] + date_dir_name(t)
}

/// The full file path, `<root>/<YYYY_MM_DD>/<HH_MM_SS>.csv`.
pub open spec fn session_file_path(root: Seq<u8>, t: ClockParts) -> Seq<u8> {
    session_dir_path(root, t) + seq![SLASH] + time_file_name(t)
}

/// Append every byte of `src` to `out`.
fn push_all(out: &mut Vec<u8>, src: &[u8])
    ensures
        final(out)@ == old(out)@ + src@,
{
    let mut i: usize = 0;
    proof {
        assert(old(out)@ + src@.take(0) =~= old(out)@);
    }
    while i < src.len()
        invariant
            i <= src.len(),
            out@ == old(out)@ + src@.take(i as int),
        decreases src.len() - i,
    {
        out.push(src[i]);
        proof {
            assert(old(out)@ + src@.take(i as int + 1) =~= (old(out)@ + src@.take(i as int)).push(
                src@[i as int],
            ));
        }
        i = i + 1;
    }
    proof {
        assert(src@.take(src@.len() as int) =~= src@);
    }
}

/// Append `n` as two zero-padded decimal digits.
fn push_two_digits(out: &mut Vec<u8>, n: u32)
    requires
        n < 100,
    ensures
        final(out)@ == old(out)@ + two_digits(n as int),
{
    out.push((48 + n / 10) as u8);
    out.push((48 + n % 10) as u8);
    proof {
        assert(old(out)@ + two_digits(n as int) =~= old(out)@.push(ascii_digit(n as int / 10)).push(
            ascii_digit(n as int),
        ));
    }
}

/// Append `n` as four zero-padded decimal digits.
fn push_four_digits(out: &mut Vec<u8>, n: u32)
    requires
        n < 10000,
    ensures
        final(out)@ == old(out)@ + four_digits(n as int),
{
    out.push((48 + n / 1000) as u8);
    out.push((48 + (n / 100) % 10) as u8);
    out.push((48 + (n / 10) % 10) as u8);
    out.push((48 + n % 10) as u8);
    proof {
        assert(old(out)@ + four_digits(n as int) =~= old(out)@.push(
            ascii_digit(n as int / 1000),
        ).push(ascii_digit(n as int / 100)).push(ascii_digit(n as int / 10)).push(
            ascii_digit(n as int),
        ));
    }
}

/// Build the directory and file paths for a session that begins at `t`.
pub fn session_paths(root: &[u8], t: &ClockParts) -> (p: (Vec<u8>, Vec<u8>))
    requires
        valid_clock(*t),
    ensures
        p.0@ == session_dir_path(root@, *t),
        p.1@ == session_file_path(root@, *t),
{
    let mut dir: Vec<u8> = Vec::new();
    push_all(&mut dir, root);
    dir.push(SLASH);
    push_four_digits(&mut dir, t.year as u32);
    dir.push(UNDERSCORE);
    push_two_digits(&mut dir, t.month);
    dir.push(UNDERSCORE);
    push_two_digits(&mut dir, t.day);
    proof {
        assert(dir@ =~= session_dir_path(root@, *t));
    }
    let mut file: Vec<u8> = Vec::new();
    push_all(&mut file, dir.as_slice());
    file.push(SLASH);
    push_two_digits(&mut file, t.hour);
    file.push(UNDERSCORE);
    push_two_digits(&mut file, t.minute);
    file.push(UNDERSCORE);
    push_two_digits(&mut file, t.second);
    file.push(DOT);
    file.push(LC_C);
    file.push(LC_S);
    file.push(LC_V);
    proof {
        assert(file@ =~= session_file_path(root@, *t));
    }
    (dir, file)
}

/// Relies on chrono: `Local::now` reads the wall clock in the local time
/// zone, and the `Datelike`/`Timelike` accessors `year`, `month`, `day`,
/// `hour`, `minute` and `second` return its calendar fields. chrono
/// documents month in 1..=12, day in 1..=31, hour in 0..=23, minute and
/// second in 0..=59, and promises no range for the year; nothing beyond
/// those ranges is assumed of any reading.
#[verifier::external_body]
fn local_clock_now() -> (t: ClockParts)
    ensures
        1 <= t.month <= 12,
        1 <= t.day <= 31,
        t.hour <= 23,
        t.minute <= 59,
        t.second <= 59,
{
    let now = chrono::Local::now();
    ClockParts {
        year: chrono::Datelike::year(&now),
        month: chrono::Datelike::month(&now),
        day: chrono::Datelike::day(&now),
        hour: chrono::Timelike::hour(&now),
        minute: chrono::Timelike::minute(&now),
        second: chrono::Timelike::second(&now),
    }
}

/// Read the clock and build the paths for a session that begins now.
/// `None` only when the clock returns a year outside 0..=9999.
pub fn begin_session_paths(root: &[u8]) -> (r: Option<(Vec<u8>, Vec<u8>)>)
    ensures
        r matches Some(p) ==> exists|t: ClockParts|
            valid_clock(t) && p.0@ == session_dir_path(root@, t) && p.1@ == session_file_path(
                root@,
                t,
            ),
{
    let t = local_clock_now();
    if t.year >= 0 && t.year <= 9999 {
        let p = session_paths(root, &t);
        proof {
            assert(valid_clock(t) && p.0@ == session_dir_path(root@, t) && p.1@
                == session_file_path(root@, t));
        }
        Some(p)
    } else {
        None
    }
}

} // verus!
