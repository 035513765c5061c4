//! The helper's session directory and publisher output: paths with a
//! leading `~`, the name and front matter of a new session log (from the
//! local time the caller read), and the leftovers of the publisher.
//! Reading the clock and creating, reading and deleting files stays with
//! the caller.
use vstd::prelude::*;

use crate::config::NdpConfig;
use crate::text::{chars_of, decimal, pad2, push_str, string_of};

verus! {

/// `path` with a leading `~` replaced by `home` (the first `~`, which is
/// then the leading one); other paths are kept.
pub open spec fn tilde_expanded(path: Seq<char>, home: Seq<char>) -> Seq<char> {
    if path.len() > 0 && path[0] == '~' {
        home + path.skip(1)
    } else {
        path
    }
}

/// Expands a leading `~` to the home directory (`$HOME`, or `/tmp` when it
/// is not set).
pub fn expand_tilde(path: &str, home: &Option<String>) -> (p: String)
    ensures
        p@ == tilde_expanded(
            path@,
            match home {
                Some(h) => h@,
                None => "/tmp"@,
            },
        ),
{
    let cs = chars_of(path);
    if cs.len() > 0 && cs[0] == '~' {
        let mut out: Vec<char> = Vec::new();
        match home {
            Some(h) => push_str(&mut out, h.as_str()),
            None => push_str(&mut out, "/tmp"),
        }
        let ghost before = out@;
        for k in 1..cs.len()
            invariant
                cs@ == path@,
                out@ == before + cs@.subrange(1, k as int),
        {
            out.push(cs[k]);
            assert(cs@.subrange(1, k + 1) =~= cs@.subrange(1, k as int).push(cs@[k as int]));
        }
        assert(cs@.subrange(1, cs@.len() as int) =~= path@.skip(1));
        string_of(&out)
    } else {
        String::from_str(path)
    }
}

/// The front matter of a new session log, in the format shared with
/// Obsidian and TaskNotes.
pub open spec fn frontmatter_text(name: Seq<char>, date: Seq<char>, timestamp: Seq<char>) -> Seq<
    char,
> {
    "---\ntype: DJ Session\ntitle: \""@ + name + "\"\ndescription: DJ セッションログ\ndate: "@ + date
        + "\ntags: [dj, session]\ntimestamp: "@ + timestamp + "\n---\n"@
}

/// The front matter for a session named `name` started on `date`
/// (`YYYY-MM-DD`) at `timestamp` (RFC 3339).
pub fn frontmatter(name: &str, date: &str, timestamp: &str) -> (f: String)
    ensures
        f@ == frontmatter_text(name@, date@, timestamp@),
{
    let mut out: Vec<char> = Vec::new();
    push_str(&mut out, "---\ntype: DJ Session\ntitle: \"");
    push_str(&mut out, name);
    push_str(&mut out, "\"\ndescription: DJ セッションログ\ndate: ");
    push_str(&mut out, date);
    push_str(&mut out, "\ntags: [dj, session]\ntimestamp: ");
    push_str(&mut out, timestamp);
    push_str(&mut out, "\n---\n");
    assert(out@ =~= frontmatter_text(name@, date@, timestamp@));
    string_of(&out)
}

/// A local date and time as plain fields: the calendar date, the time of
/// day, and the offset of local time from UTC in seconds.
#[derive(Clone, Copy, Debug)]
pub struct LocalTime {
    pub year: i32,
    pub month: u32,
    pub day: u32,
    pub hour: u32,
    pub minute: u32,
    pub second: u32,
    pub offset_secs: i32,
}

/// Whether `y` is a leap year of the Gregorian calendar.
pub open spec fn is_leap_year(y: int) -> bool {
    y % 4 == 0 && (y % 100 != 0 || y % 400 == 0)
}

/// The number of days of month `m` (1 to 12) of year `y`.
pub open spec fn days_in_month(y: int, m: int) -> int {
    if m == 2 {
        if is_leap_year(y) {
            29
        } else {
            28
        }
    } else if m == 4 || m == 6 || m == 9 || m == 11 {
        30
    } else {
        31
    }
}

/// A real date of a four-digit year, a time of day and an offset of less
/// than a day.
pub open spec fn valid_local(t: LocalTime) -> bool {
    &&& 0 <= t.year <= 9999
    &&& 1 <= t.month <= 12
    &&& 1 <= t.day <= days_in_month(t.year as int, t.month as int)
    &&& t.hour < 24
    &&& t.minute < 60
    &&& t.second < 60
    &&& -86400 < t.offset_secs < 86400
}

/// `format!("{:04}", n)`.
pub open spec fn pad4(n: nat) -> Seq<char> {
    if n < 10 {
        seq!['0', '0', '0'] + decimal(n)
    } else if n < 100 {
        seq!['0', '0'] + decimal(n)
    } else if n < 1000 {
        seq!['0'] + decimal(n)
    } else {
        decimal(n)
    }
}

/// `%Y-%m-%d`: the date.
pub open spec fn date_text(t: LocalTime) -> Seq<char> {
    pad4(t.year as nat) + seq!['-'] + pad2(t.month as nat) + seq!['-'] + pad2(t.day as nat)
}

/// `%Y-%m-%d-%H%M`: the name of a session started at `t`.
pub open spec fn session_name_text(t: LocalTime) -> Seq<char> {
    date_text(t) + seq!['-'] + pad2(t.hour as nat) + pad2(t.minute as nat)
}

/// `%:z`: the offset as a sign, hours and minutes, rounded to the nearest
/// minute.
pub open spec fn offset_text(off: int) -> Seq<char> {
    let a = if off < 0 {
        -off
    } else {
        off
    };
    let minutes = (a + 30) / 60;
    seq![if off < 0 {
        '-'
    } else {
        '+'
    }] + pad2((minutes / 60) as nat) + seq![':'] + pad2((minutes % 60) as nat)
}

/// `%Y-%m-%dT%H:%M:%S%:z`: the time `t` in RFC 3339.
pub open spec fn timestamp_text(t: LocalTime) -> Seq<char> {
    date_text(t) + seq!['T'] + pad2(t.hour as nat) + seq![':'] + pad2(t.minute as nat) + seq![':']
        + pad2(t.second as nat) + offset_text(t.offset_secs as int)
}

/// Formats a local time with chrono: `FixedOffset::east_opt`, then
/// `TimeZone::with_ymd_and_hms` and `DateTime::format`.  For a valid time
/// and the three formats the helper uses, the contract gives chrono's text:
/// `%Y` as four zero-padded digits for years 0 to 9999, `%m %d %H %M %S`
/// as two zero-padded digits, `%:z` as sign, hours, `:` and minutes,
/// rounded to the nearest minute.
#[verifier::external_body]
fn local_text(t: &LocalTime, fmt: &str) -> (s: String)
    requires
        valid_local(*t),
        fmt@ == "%Y-%m-%d"@ || fmt@ == "%Y-%m-%d-%H%M"@ || fmt@ == "%Y-%m-%dT%H:%M:%S%:z"@,
    ensures
        fmt@ == "%Y-%m-%d"@ ==> s@ == date_text(*t),
        fmt@ == "%Y-%m-%d-%H%M"@ ==> s@ == session_name_text(*t),
        fmt@ == "%Y-%m-%dT%H:%M:%S%:z"@ ==> s@ == timestamp_text(*t),
{
    match chrono::FixedOffset::east_opt(t.offset_secs) {
        Some(off) => match chrono::TimeZone::with_ymd_and_hms(
            &off, t.year, t.month, t.day, t.hour, t.minute, t.second,
        ).single() {
            Some(dt) => dt.format(fmt).to_string(),
            None => String::new(),
        },
        None => String::new(),
    }
}

/// Whether a local time can be formatted: see `valid_local`.
pub fn is_valid_local(t: &LocalTime) -> (b: bool)
    ensures
        b == valid_local(*t),
{
    let leap = t.year % 4 == 0 && (t.year % 100 != 0 || t.year % 400 == 0);
    let days: u32 = if t.month == 2 {
        if leap {
            29
        } else {
            28
        }
    } else if t.month == 4 || t.month == 6 || t.month == 9 || t.month == 11 {
        30
    } else {
        31
    };
    0 <= t.year && t.year <= 9999 && 1 <= t.month && t.month <= 12 && 1 <= t.day && t.day <= days
        && t.hour < 24 && t.minute < 60 && t.second < 60 && -86400 < t.offset_secs
        && t.offset_secs < 86400
}

/// The name of a session started at local time `t`: `YYYY-MM-DD-HHMM`.
pub fn session_name_at(t: &LocalTime) -> (n: String)
    requires
        valid_local(*t),
    ensures
        n@ == session_name_text(*t),
{
    proof {
        reveal_strlit("%Y-%m-%d-%H%M");
        reveal_strlit("%Y-%m-%d");
        reveal_strlit("%Y-%m-%dT%H:%M:%S%:z");
    }
    local_text(t, "%Y-%m-%d-%H%M")
}

/// The front matter of a new session log named `name`, started at local
/// time `t`: its date and its RFC 3339 timestamp.
pub fn frontmatter_at(name: &str, t: &LocalTime) -> (f: String)
    requires
        valid_local(*t),
    ensures
        f@ == frontmatter_text(name@, date_text(*t), timestamp_text(*t)),
{
    proof {
        reveal_strlit("%Y-%m-%d-%H%M");
        reveal_strlit("%Y-%m-%d");
        reveal_strlit("%Y-%m-%dT%H:%M:%S%:z");
    }
    let date = local_text(t, "%Y-%m-%d");
    let stamp = local_text(t, "%Y-%m-%dT%H:%M:%S%:z");
    frontmatter(name, date.as_str(), stamp.as_str())
}

/// The file name of a session's log: the session name with `.md`.
pub fn session_file_name(name: &str) -> (f: String)
    ensures
        f@ == name@ + ".md"@,
{
    let mut out: Vec<char> = Vec::new();
    push_str(&mut out, name);
    push_str(&mut out, ".md");
    string_of(&out)
}

/// The name of a session given as a directory: the directory's own name,
/// or `session` when the path has none.
pub fn session_name(dir_name: &Option<String>) -> (n: String)
    ensures
        n@ == match dir_name {
            Some(d) => d@,
            None => "session"@,
        },
{
    match dir_name {
        Some(d) => d.clone(),
        None => String::from_str("session"),
    }
}

/// The DJ id under which the publisher writes: the configured one, or
/// `dj-000`, the publisher's default.
pub fn ndp_dj_id(ndp: &NdpConfig) -> (id: String)
    ensures
        id@ == match ndp.dj_id {
            Some(d) => d@,
            None => "dj-000"@,
        },
{
    match &ndp.dj_id {
        Some(d) => d.clone(),
        None => String::from_str("dj-000"),
    }
}

/// Whether a file in the publisher's output directory is left over from an
/// earlier session and is deleted at start-up: `now_playing.json`, `.ready`
/// and every `artwork.*`.
pub open spec fn is_leftover(name: Seq<char>) -> bool {
    name == "now_playing.json"@ || name == ".ready"@ || (name.len() >= 8 && name.take(8)
        == "artwork."@)
}

/// Whether a file of the publisher's output is deleted at start-up.
pub fn is_ndp_leftover(name: &str) -> (b: bool)
    ensures
        b == is_leftover(name@),
{
    let cs = chars_of(name);
    let a = chars_of("now_playing.json");
    let r = chars_of(".ready");
    let p = chars_of("artwork.");
    proof {
        reveal_strlit("artwork.");
    }
    if crate::text::same_chars(cs.as_slice(), a.as_slice()) || crate::text::same_chars(
        cs.as_slice(),
        r.as_slice(),
    ) {
        return true;
    }
    let b = crate::text::matches_at(cs.as_slice(), p.as_slice(), 0);
    proof {
        if cs@.len() >= 8 {
            assert(cs@.subrange(0, 8) =~= cs@.take(8));
        }
    }
    b
}

} // verus!
