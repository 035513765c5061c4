//! The session log: a Markdown file that opens with a front matter block
//! between two `---` lines and then holds one line per loaded track.
//!
//! This module decides what line is appended for a track: its sequence
//! number (one more than the entries already in the file), the clock time,
//! and the time elapsed since the first entry.
use vstd::prelude::*;

use crate::session_dir::frontmatter_text;
use crate::text::{
    has_char, is_space, lemma_find_here, lemma_find_skip, lemma_lines_append, lemma_lines_single,
    lemma_replace_absent, lemma_replace_concat, lemma_replace_whole, lemma_trim_first,
    lemma_trim_strip_cr, strip_cr, trim_end, trim_start, occurs_at,
    chars_of, decimal, find, find_from, lines, pad2, pad3, push_decimal, push_pad2, push_pad3, lemma_trim_keeps,
    replace, replace_all, same_chars, joined, safe_boundary, lemma_replace_joined, signed_decimal, signed_pad2, slice_chars, split_lines,
    string_of, trim, trimmed, views,
};

verus! {

/// Variables available in a line template:
///
/// - `{no}`: sequence number, zero-padded to three digits
/// - `{time}`: load time (HH:MM:SS)
/// - `{elapsed}`: time since the first track (H:MM:SS)
/// - `{deck}`: deck number
/// - `{title}`: title
/// - `{artist}`: artist
/// - `{artwork}`: relative path of the artwork
pub const DEFAULT_LINE_TEMPLATE: &'static str = "- {no}. **{time}** (+{elapsed}) Deck {deck}｜{title} / {artist}";

// ---------------------------------------------------------------------------
// Templates
// ---------------------------------------------------------------------------

/// The line that `template` yields once each variable is replaced, in the
/// order `{no}`, `{time}`, `{elapsed}`, `{deck}`, `{title}`, `{artist}`,
/// `{artwork}` (so a value that itself holds a later variable's name has
/// that name replaced too).
pub open spec fn rendered(
    template: Seq<char>,
    no: u32,
    time: Seq<char>,
    elapsed: Seq<char>,
    deck: u8,
    title: Seq<char>,
    artist: Seq<char>,
    artwork: Seq<char>,
) -> Seq<char> {
    let s1 = replace(template, "{no}"@, pad3(no as nat));
    let s2 = replace(s1, "{time}"@, time);
    let s3 = replace(s2, "{elapsed}"@, elapsed);
    let s4 = replace(s3, "{deck}"@, decimal(deck as nat));
    let s5 = replace(s4, "{title}"@, title);
    let s6 = replace(s5, "{artist}"@, artist);
    replace(s6, "{artwork}"@, artwork)
}

fn replace_var(s: &Vec<char>, var: &str, value: &Vec<char>) -> (out: Vec<char>)
    requires
        var@.len() > 0,
    ensures
        out@ == replace(s@, var@, value@),
{
    let p = chars_of(var);
    replace_all(s, &p, value)
}

/// Applies the variables to a template and yields one line.
pub fn render_line(
    template: &str,
    no: u32,
    time: &str,
    elapsed: &str,
    deck: u8,
    title: &str,
    artist: &str,
    artwork: &str,
) -> (line: String)
    ensures
        line@ == rendered(template@, no, time@, elapsed@, deck, title@, artist@, artwork@),
{
    proof {
        reveal_strlit("{no}");
        reveal_strlit("{time}");
        reveal_strlit("{elapsed}");
        reveal_strlit("{deck}");
        reveal_strlit("{title}");
        reveal_strlit("{artist}");
        reveal_strlit("{artwork}");
    }
    let t = chars_of(template);
    let mut no_text: Vec<char> = Vec::new();
    push_pad3(&mut no_text, no as u64);
    let mut deck_text: Vec<char> = Vec::new();
    push_decimal(&mut deck_text, deck as u64);
    let s1 = replace_var(&t, "{no}", &no_text);
    let s2 = replace_var(&s1, "{time}", &chars_of(time));
    let s3 = replace_var(&s2, "{elapsed}", &chars_of(elapsed));
    let s4 = replace_var(&s3, "{deck}", &deck_text);
    let s5 = replace_var(&s4, "{title}", &chars_of(title));
    let s6 = replace_var(&s5, "{artist}", &chars_of(artist));
    let s7 = replace_var(&s6, "{artwork}", &chars_of(artwork));
    string_of(&s7)
}

// ---------------------------------------------------------------------------
// Reading the file back
// ---------------------------------------------------------------------------

/// A line that trims to `---`: a front matter delimiter.
pub open spec fn is_delimiter(l: Seq<char>) -> bool {
    trim(l) == "---"@
}

/// How many delimiters have been seen after line `l`, counting at most two:
/// the body starts after the second one and never ends.
pub open spec fn next_delims(d: nat, l: Seq<char>) -> nat {
    if is_delimiter(l) {
        if d < 2 {
            d + 1
        } else {
            2
        }
    } else {
        d
    }
}

/// Whether `l` is a track entry, after `d` delimiters: a line of the body
/// that is not blank and not a delimiter.
pub open spec fn is_entry(l: Seq<char>, d: nat) -> bool {
    !is_delimiter(l) && d >= 2 && trim(l).len() > 0
}

/// The number of entries among `ls`, after `d` delimiters.
pub open spec fn count_from(ls: Seq<Seq<char>>, d: nat) -> nat
    decreases ls.len(),
{
    if ls.len() == 0 {
        0
    } else {
        (if is_entry(ls[0], d) {
            1nat
        } else {
            0nat
        }) + count_from(ls.drop_first(), next_delims(d, ls[0]))
    }
}

/// The number of delimiters seen after all of `ls` (at most two).
pub open spec fn delims_after(ls: Seq<Seq<char>>, d: nat) -> nat
    decreases ls.len(),
{
    if ls.len() == 0 {
        d
    } else {
        delims_after(ls.drop_first(), next_delims(d, ls[0]))
    }
}

/// The number of track entries in the text of a session file.
pub open spec fn entry_count(content: Seq<char>) -> nat {
    count_from(lines(content), 0)
}

/// The first entry among `ls`, after `d` delimiters.
pub open spec fn first_entry_from(ls: Seq<Seq<char>>, d: nat) -> Option<Seq<char>>
    decreases ls.len(),
{
    if ls.len() == 0 {
        None
    } else if is_entry(ls[0], d) {
        Some(ls[0])
    } else {
        first_entry_from(ls.drop_first(), next_delims(d, ls[0]))
    }
}

/// The text between the first `**` of `l` and the next `**` after it.
pub open spec fn time_field(l: Seq<char>) -> Option<Seq<char>> {
    match find(l, "**"@) {
        Some(a) => match find(l.skip(a + 2), "**"@) {
            Some(e) => Some(l.subrange(a + 2, a + 2 + e)),
            None => None,
        },
        None => None,
    }
}

/// The time field of the first entry of a session file, if it has one.
pub open spec fn first_field(content: Seq<char>) -> Option<Seq<char>> {
    match first_entry_from(lines(content), 0) {
        Some(l) => time_field(l),
        None => None,
    }
}

/// The time of the first entry of a session file, in seconds after
/// midnight: the time field of the first entry, read as `%H:%M:%S`.
pub open spec fn first_time(content: Seq<char>) -> Option<u32> {
    match first_field(content) {
        Some(t) => parsed_hms(t),
        None => None,
    }
}

/// What `chrono::NaiveTime::parse_from_str(s, "%H:%M:%S")` yields, as
/// seconds after midnight, or `None` when it fails.
pub uninterp spec fn parsed_hms(s: Seq<char>) -> Option<u32>;

/// `HH:MM:SS` with each field zero-padded to two digits.
pub open spec fn clock(h: nat, m: nat, s: nat) -> Seq<char> {
    pad2(h) + seq![':'] + pad2(m) + seq![':'] + pad2(s)
}

/// The clock text of `secs` seconds after midnight.
pub open spec fn clock_of(secs: nat) -> Seq<char> {
    clock(secs / 3600, (secs % 3600) / 60, secs % 60)
}

/// Parses a time of day with `chrono::NaiveTime::parse_from_str` and the
/// format `%H:%M:%S`, giving seconds after midnight.  The contract names the
/// result and states two facts that chrono's documentation and source give:
/// a parsed time lies within one day, and a zero-padded `HH:MM:SS` with
/// hours below 24 and minutes and seconds below 60 is read as that time.
/// What chrono accepts beyond that (one-digit fields, leap seconds) is left
/// to the name.
#[verifier::external_body]
fn parse_hms(s: &str) -> (r: Option<u32>)
    ensures
        r == parsed_hms(s@),
        r matches Some(t) ==> t < 86400,
        forall|h: nat, m: nat, sec: nat|
            h < 24 && m < 60 && sec < 60 && s@ == #[trigger] clock(h, m, sec) ==> r == Some(
                (h * 3600 + m * 60 + sec) as u32,
            ),
{
    match chrono::NaiveTime::parse_from_str(s, "%H:%M:%S") {
        Ok(t) => Some(chrono::Timelike::num_seconds_from_midnight(&t)),
        Err(_) => None,
    }
}

/// Formats `secs` seconds after midnight with chrono's `%H:%M:%S`, whose
/// fields are documented as zero-padded to two digits.
#[verifier::external_body]
fn clock_text(secs: u32) -> (s: String)
    requires
        secs < 86400,
    ensures
        s@ == clock_of(secs as nat),
{
    match chrono::NaiveTime::from_num_seconds_from_midnight_opt(secs, 0) {
        Some(t) => t.format("%H:%M:%S").to_string(),
        None => String::new(),
    }
}

fn is_delimiter_line(l: &Vec<char>) -> (b: bool)
    ensures
        b == is_delimiter(l@),
{
    let t = trimmed(l.as_slice());
    let d = chars_of("---");
    same_chars(t.as_slice(), d.as_slice())
}

fn next_delims_exec(d: u8, l: &Vec<char>) -> (r: (u8, bool))
    requires
        d <= 2,
    ensures
        r.0 == next_delims(d as nat, l@),
        r.1 == is_entry(l@, d as nat),
        r.0 <= 2,
{
    if is_delimiter_line(l) {
        if d < 2 {
            (d + 1, false)
        } else {
            (2, false)
        }
    } else {
        let t = trimmed(l.as_slice());
        (d, d >= 2 && t.len() > 0)
    }
}

/// The number of track entries in the text of a session file: non-blank
/// lines after the second front matter delimiter, other than delimiters.
pub fn count_entries(content: &str) -> (n: u32)
    requires
        entry_count(content@) <= u32::MAX,
    ensures
        n == entry_count(content@),
{
    let cs = chars_of(content);
    let ls = split_lines(&cs);
    let ghost all = views(ls@);
    let mut d: u8 = 0;
    let mut count: u32 = 0;
    assert(all.skip(0) =~= all);
    for i in 0..ls.len()
        invariant
            all == views(ls@),
            all == lines(content@),
            d <= 2,
            count_from(all, 0) <= u32::MAX,
            count_from(all, 0) == count + count_from(all.skip(i as int), d as nat),
    {
        let ghost rest = all.skip(i as int);
        assert(rest[0] == ls@[i as int]@);
        assert(rest.drop_first() =~= all.skip(i + 1));
        let (nd, entry) = next_delims_exec(d, &ls[i]);
        if entry {
            count = count + 1;
        }
        d = nd;
    }
    assert(all.skip(ls.len() as int) =~= Seq::<Seq<char>>::empty());
    count
}

fn time_field_exec(l: &Vec<char>) -> (r: Option<Vec<char>>)
    ensures
        match time_field(l@) {
            Some(t) => r matches Some(v) && v@ == t,
            None => r is None,
        },
{
    let p = chars_of("**");
    proof {
        reveal_strlit("**");
        assert(l@.skip(0) =~= l@);
        crate::text::lemma_find_occurs(l@, "**"@);
    }
    let ls = l.as_slice();
    let ps = p.as_slice();
    let _n = ls.len();
    assert(ls@ == l@);
    assert(ps@ == "**"@);
    match find_from(ls, ps, 0) {
        Some(a) => {
            assert(find(ls@.skip(0), ps@) is Some);
            assert(find(l@, "**"@) is Some);
            assert(occurs_at(l@, "**"@, find(l@, "**"@)->0));
            assert(find(l@, "**"@) == Some(a as int));
            let r2 = find_from(ls, ps, a + 2);
            proof {
                crate::text::lemma_find_occurs(l@.skip(a + 2), "**"@);
            }
            match r2 {
                Some(b) => Some(slice_chars(ls, a + 2, b)),
                None => None,
            }
        },
        None => None,
    }
}

/// The time of the first entry of a session file, in seconds after
/// midnight, or `None` when there is no entry or its time field does not
/// parse.
pub fn first_entry_time(content: &str) -> (t: Option<u32>)
    ensures
        t == first_time(content@),
        forall|h: nat, m: nat, sec: nat|
            h < 24 && m < 60 && sec < 60 && first_field(content@) == Some(#[trigger] clock(h, m, sec))
                ==> t == Some((h * 3600 + m * 60 + sec) as u32),
{
    let cs = chars_of(content);
    let ls = split_lines(&cs);
    let ghost all = views(ls@);
    let mut d: u8 = 0;
    assert(all.skip(0) =~= all);
    for i in 0..ls.len()
        invariant
            all == views(ls@),
            all == lines(content@),
            d <= 2,
            first_entry_from(all, 0) == first_entry_from(all.skip(i as int), d as nat),
    {
        let ghost rest = all.skip(i as int);
        assert(rest[0] == ls@[i as int]@);
        assert(rest.drop_first() =~= all.skip(i + 1));
        let (nd, entry) = next_delims_exec(d, &ls[i]);
        if entry {
            return match time_field_exec(&ls[i]) {
                Some(v) => {
                    let s = string_of(&v);
                    parse_hms(s.as_str())
                },
                None => None,
            };
        }
        d = nd;
    }
    assert(all.skip(ls.len() as int) =~= Seq::<Seq<char>>::empty());
    None
}

// ---------------------------------------------------------------------------
// Elapsed time
// ---------------------------------------------------------------------------

/// The text of `format!("{}:{:02}:{:02}", h, m, s)` with `h = n / 3600`,
/// `m = (n % 3600) / 60`, `s = n % 60` under Rust's truncating `/` and `%`
/// (so all three take the sign of `n`).
pub open spec fn elapsed_text(n: int) -> Seq<char> {
    let a = if n < 0 {
        -n
    } else {
        n
    };
    let h = a / 3600;
    let m = (a % 3600) / 60;
    let s = a % 60;
    if n < 0 {
        signed_decimal(-h) + seq![':'] + signed_pad2(-m) + seq![':'] + signed_pad2(-s)
    } else {
        signed_decimal(h) + seq![':'] + signed_pad2(m) + seq![':'] + signed_pad2(s)
    }
}

fn push_signed(out: &mut Vec<char>, negative: bool, v: u64, padded: bool)
    ensures
        final(out)@ == old(out)@ + if negative {
            if padded {
                signed_pad2(-(v as int))
            } else {
                signed_decimal(-(v as int))
            }
        } else {
            if padded {
                signed_pad2(v as int)
            } else {
                signed_decimal(v as int)
            }
        },
{
    if negative && v > 0 {
        out.push('-');
        push_decimal(out, v);
        proof {
            assert(seq!['-'] + decimal(v as nat) == seq!['-'] + decimal((-(-(v as int))) as nat));
        }
    } else if padded {
        push_pad2(out, v);
    } else {
        push_decimal(out, v);
    }
    proof {
        if negative && v == 0 {
            assert(-(v as int) == 0);
        }
        assert(final(out)@ =~= old(out)@ + if negative {
            if padded {
                signed_pad2(-(v as int))
            } else {
                signed_decimal(-(v as int))
            }
        } else {
            if padded {
                signed_pad2(v as int)
            } else {
                signed_decimal(v as int)
            }
        });
    }
}

/// Formats an elapsed time in seconds as `H:MM:SS`.
pub fn format_elapsed(elapsed_secs: i64) -> (s: String)
    ensures
        s@ == elapsed_text(elapsed_secs as int),
{
    let negative = elapsed_secs < 0;
    let a: u64 = if negative {
        ((-(elapsed_secs + 1)) as u64) + 1
    } else {
        elapsed_secs as u64
    };
    let h = a / 3600;
    let m = (a % 3600) / 60;
    let sec = a % 60;
    let mut out: Vec<char> = Vec::new();
    push_signed(&mut out, negative, h, false);
    out.push(':');
    push_signed(&mut out, negative, m, true);
    out.push(':');
    push_signed(&mut out, negative, sec, true);
    assert(out@ =~= elapsed_text(elapsed_secs as int));
    string_of(&out)
}

// ---------------------------------------------------------------------------
// The appended line
// ---------------------------------------------------------------------------

/// The elapsed-time text of entry number `no` loaded at `now_secs`: zero
/// for the first entry or when the first entry's time cannot be read, else
/// the seconds from the first entry's time to now (never negative).
pub open spec fn elapsed_for(no: nat, first: Option<u32>, now_secs: nat) -> Seq<char> {
    if no == 1 {
        "0:00:00"@
    } else {
        match first {
            Some(f) => elapsed_text(
                if now_secs >= f {
                    now_secs - f
                } else {
                    0
                },
            ),
            None => "0:00:00"@,
        }
    }
}

/// The line that a session file with text `content` gets for a track loaded
/// on `deck` at `now_secs` seconds after midnight: the default template with
/// the next sequence number, the clock time, the elapsed time, the deck,
/// title and artist, and no artwork.
pub open spec fn session_line_text(
    content: Seq<char>,
    now_secs: nat,
    deck: u8,
    title: Seq<char>,
    artist: Seq<char>,
) -> Seq<char> {
    let no = entry_count(content) + 1;
    rendered(
        DEFAULT_LINE_TEMPLATE@,
        no as u32,
        clock_of(now_secs),
        elapsed_for(no, first_time(content), now_secs),
        deck,
        title,
        artist,
        Seq::<char>::empty(),
    )
}

/// The line to append to a session file whose current text is `content`
/// (empty when it cannot be read), for a track with `title` and `artist`
/// loaded on `deck` at `now_secs` seconds after local midnight.
pub fn session_line(content: &str, now_secs: u32, deck: u8, title: &str, artist: &str) -> (line:
    String)
    requires
        now_secs < 86400,
        entry_count(content@) < u32::MAX,
    ensures
        line@ == session_line_text(content@, now_secs as nat, deck, title@, artist@),
{
    proof {
        reveal_strlit("");
    }
    let time = clock_text(now_secs);
    let no = count_entries(content) + 1;
    let elapsed = if no == 1 {
        String::from_str("0:00:00")
    } else {
        match first_entry_time(content) {
            Some(first) => {
                let diff: i64 = if now_secs >= first {
                    (now_secs - first) as i64
                } else {
                    0
                };
                format_elapsed(diff)
            },
            None => String::from_str("0:00:00"),
        }
    };
    assert(elapsed@ == elapsed_for(no as nat, first_time(content@), now_secs as nat));
    assert(time@ == clock_of(now_secs as nat));
    assert(no == entry_count(content@) + 1);
    assert(""@ =~= Seq::<char>::empty());
    assert(no == (entry_count(content@) + 1) as u32);
    render_line(
        DEFAULT_LINE_TEMPLATE,
        no,
        time.as_str(),
        elapsed.as_str(),
        deck,
        title,
        artist,
        "",
    )
}

// ---------------------------------------------------------------------------
// Laws of the session log
// ---------------------------------------------------------------------------

/// Counting entries and finding the first one work line group by line
/// group.
proof fn lemma_scan_concat(xs: Seq<Seq<char>>, ys: Seq<Seq<char>>, d: nat)
    ensures
        count_from(xs + ys, d) == count_from(xs, d) + count_from(ys, delims_after(xs, d)),
        delims_after(xs + ys, d) == delims_after(ys, delims_after(xs, d)),
        first_entry_from(xs + ys, d) == match first_entry_from(xs, d) {
            Some(e) => Some(e),
            None => first_entry_from(ys, delims_after(xs, d)),
        },
    decreases xs.len(),
{
    if xs.len() == 0 {
        assert(xs + ys =~= ys);
    } else {
        assert((xs + ys)[0] == xs[0]);
        assert((xs + ys).drop_first() =~= xs.drop_first() + ys);
        lemma_scan_concat(xs.drop_first(), ys, next_delims(d, xs[0]));
    }
}

/// A text in which no character is `c`.
pub open spec fn free_of(s: Seq<char>, c: char) -> bool {
    forall|k: int| 0 <= k < s.len() ==> #[trigger] s[k] != c
}

/// A line ready to be appended as an entry: no line break inside, not
/// blank, and not a front matter delimiter.
pub open spec fn is_entry_line(l: Seq<char>) -> bool {
    free_of(l, '\n') && trim(l).len() > 0 && !is_delimiter(l)
}

/// Appending an entry line to the body of a session log adds exactly one
/// entry, keeps the body open, and leaves an existing first entry first
/// (the appended line becomes the first entry when there was none).
pub proof fn lemma_entry_appended(content: Seq<char>, line: Seq<char>)
    requires
        content.len() == 0 || content.last() == '\n',
        delims_after(lines(content), 0) == 2,
        is_entry_line(line),
    ensures
        entry_count(content + line + seq!['\n']) == entry_count(content) + 1,
        delims_after(lines(content + line + seq!['\n']), 0) == 2,
        first_entry_from(lines(content + line + seq!['\n']), 0) == match first_entry_from(
            lines(content),
            0,
        ) {
            Some(e) => Some(e),
            None => Some(strip_cr(line)),
        },
{
    let tail = line + seq!['\n'];
    assert(content + line + seq!['\n'] =~= content + tail);
    lemma_lines_append(content, tail);
    lemma_lines_single(line);
    lemma_trim_strip_cr(line);
    let one = seq![strip_cr(line)];
    lemma_scan_concat(lines(content), one, 0);
    assert(one[0] == strip_cr(line));
    assert(one.drop_first() =~= Seq::<Seq<char>>::empty());
    assert(is_entry(strip_cr(line), 2));
    assert(count_from(one, 2) == 1) by {
        reveal_with_fuel(count_from, 2);
    }
    assert(delims_after(one, 2) == 2) by {
        reveal_with_fuel(delims_after, 2);
    }
}

/// A line of text followed by a line break, then more text.
proof fn lemma_prepend_line(x: Seq<char>, rest: Seq<char>)
    requires
        free_of(x, '\n'),
    ensures
        lines(x + seq!['\n'] + rest) == seq![strip_cr(x)] + lines(rest),
{
    lemma_lines_append(x + seq!['\n'], rest);
    lemma_lines_single(x);
}

/// Lines before the second delimiter that are not delimiters hold no entry.
proof fn lemma_scan_header(ls: Seq<Seq<char>>, d: nat)
    requires
        d < 2,
        forall|k: int| 0 <= k < ls.len() ==> !is_delimiter(#[trigger] ls[k]),
    ensures
        count_from(ls, d) == 0,
        delims_after(ls, d) == d,
        first_entry_from(ls, d) is None,
    decreases ls.len(),
{
    if ls.len() > 0 {
        assert forall|k: int| 0 <= k < ls.drop_first().len() implies !is_delimiter(
            #[trigger] ls.drop_first()[k],
        ) by {
            assert(ls.drop_first()[k] == ls[k + 1]);
        }
        assert(!is_delimiter(ls[0]));
        lemma_scan_header(ls.drop_first(), d);
    }
}

proof fn lemma_dashes()
    ensures
        is_delimiter(seq!['-', '-', '-']),
        strip_cr(seq!['-', '-', '-']) == seq!['-', '-', '-'],
{
    reveal_strlit("---");
    let dl = seq!['-', '-', '-'];
    assert(!is_space(dl[0]));
    assert(trim_start(dl) == dl);
    assert(!is_space(dl.last()));
    assert(trim_end(dl) == dl);
    assert(trim(dl) == dl);
    assert(dl =~= "---"@);
}

#[verifier::rlimit(40)]
proof fn lemma_frontmatter_pieces(name: Seq<char>, date: Seq<char>, timestamp: Seq<char>)
    ensures
        frontmatter_text(name, date, timestamp) == seq!['-', '-', '-'] + seq!['\n'] + (
        "type: DJ Session"@ + seq!['\n'] + ("title: \""@ + (name + seq!['"']) + seq!['\n'] + (
        "description: DJ セッションログ"@ + seq!['\n'] + ("date: "@ + date + seq!['\n'] + (
        "tags: [dj, session]"@ + seq!['\n'] + ("timestamp: "@ + timestamp + seq!['\n'] + (seq![
            '-',
            '-',
            '-',
        ] + seq!['\n'] + Seq::<char>::empty()))))))),
{
    reveal_strlit("---\ntype: DJ Session\ntitle: \"");
    reveal_strlit("\"\ndescription: DJ セッションログ\ndate: ");
    reveal_strlit("\ntags: [dj, session]\ntimestamp: ");
    reveal_strlit("\n---\n");
    reveal_strlit("type: DJ Session");
    reveal_strlit("title: \"");
    reveal_strlit("description: DJ セッションログ");
    reveal_strlit("date: ");
    reveal_strlit("tags: [dj, session]");
    reveal_strlit("timestamp: ");
    assert(frontmatter_text(name, date, timestamp) =~= seq!['-', '-', '-'] + seq!['\n'] + (
    "type: DJ Session"@ + seq!['\n'] + ("title: \""@ + (name + seq!['"']) + seq!['\n'] + (
    "description: DJ セッションログ"@ + seq!['\n'] + ("date: "@ + date + seq!['\n'] + (
    "tags: [dj, session]"@ + seq!['\n'] + ("timestamp: "@ + timestamp + seq!['\n'] + (seq![
        '-',
        '-',
        '-',
    ] + seq!['\n'] + Seq::<char>::empty()))))))));
}

/// A line made of a fixed label (two or more characters, starting with a
/// letter) and a text without line breaks is not a delimiter.
proof fn lemma_labelled(label: Seq<char>, body: Seq<char>)
    requires
        label.len() > 1,
        'a' <= label[0] <= 'z',
        free_of(label, '\n'),
        free_of(body, '\n'),
    ensures
        free_of(label + body, '\n'),
        !is_delimiter(strip_cr(label + body)),
{
    let x = label + body;
    assert forall|k: int| 0 <= k < x.len() implies #[trigger] x[k] != '\n' by {
        if k < label.len() {
            assert(x[k] == label[k]);
        } else {
            assert(x[k] == body[k - label.len()]);
        }
    }
    lemma_trim_strip_cr(x);
    reveal_strlit("---");
    assert(x[0] == label[0]);
    lemma_trim_first(x);
}

proof fn lemma_label(l: Seq<char>)
    requires
        l.len() > 1,
        'a' <= l[0] <= 'z',
        forall|k: int| 0 <= k < l.len() ==> (' ' <= #[trigger] l[k]),
    ensures
        free_of(l, '\n'),
{
}

proof fn lemma_labels()
    ensures
        "type: DJ Session"@.len() > 1 && 'a' <= "type: DJ Session"@[0] <= 'z' && free_of(
            "type: DJ Session"@,
            '\n',
        ),
        "title: \""@.len() > 1 && 'a' <= "title: \""@[0] <= 'z' && free_of("title: \""@, '\n'),
        "description: DJ セッションログ"@.len() > 1 && 'a' <= "description: DJ セッションログ"@[0]
            <= 'z' && free_of("description: DJ セッションログ"@, '\n'),
        "date: "@.len() > 1 && 'a' <= "date: "@[0] <= 'z' && free_of("date: "@, '\n'),
        "tags: [dj, session]"@.len() > 1 && 'a' <= "tags: [dj, session]"@[0] <= 'z' && free_of(
            "tags: [dj, session]"@,
            '\n',
        ),
        "timestamp: "@.len() > 1 && 'a' <= "timestamp: "@[0] <= 'z' && free_of(
            "timestamp: "@,
            '\n',
        ),
{
    reveal_strlit("type: DJ Session");
    reveal_strlit("title: \"");
    reveal_strlit("description: DJ セッションログ");
    reveal_strlit("date: ");
    reveal_strlit("tags: [dj, session]");
    reveal_strlit("timestamp: ");
    lemma_label("type: DJ Session"@);
    lemma_label("title: \""@);
    lemma_label("description: DJ セッションログ"@);
    lemma_label("date: "@);
    lemma_label("tags: [dj, session]"@);
    lemma_label("timestamp: "@);
}

/// The lines of a session log's front matter.
pub open spec fn frontmatter_lines(name: Seq<char>, date: Seq<char>, timestamp: Seq<char>) -> Seq<
    Seq<char>,
> {
    seq![
        seq!['-', '-', '-'],
        strip_cr("type: DJ Session"@),
        strip_cr("title: \""@ + (name + seq!['"'])),
        strip_cr("description: DJ セッションログ"@),
        strip_cr("date: "@ + date),
        strip_cr("tags: [dj, session]"@),
        strip_cr("timestamp: "@ + timestamp),
        seq!['-', '-', '-'],
    ]
}

#[verifier::rlimit(40)]
proof fn lemma_frontmatter_lines(name: Seq<char>, date: Seq<char>, timestamp: Seq<char>)
    requires
        free_of(name, '\n'),
        free_of(date, '\n'),
        free_of(timestamp, '\n'),
    ensures
        lines(frontmatter_text(name, date, timestamp)) == frontmatter_lines(name, date, timestamp),
        forall|k: int|
            1 <= k < 7 ==> !is_delimiter(#[trigger] frontmatter_lines(name, date, timestamp)[k]),
{
    let dl = seq!['-', '-', '-'];
    let e = Seq::<char>::empty();
    let l2 = "type: DJ Session"@;
    let l3 = "title: \""@ + (name + seq!['"']);
    let l4 = "description: DJ セッションログ"@;
    let l5 = "date: "@ + date;
    let l6 = "tags: [dj, session]"@;
    let l7 = "timestamp: "@ + timestamp;
    lemma_labels();
    let nq = name + seq!['"'];
    assert forall|k: int| 0 <= k < nq.len() implies #[trigger] nq[k] != '\n' by {
        if k < name.len() {
            assert(nq[k] == name[k]);
        }
    }
    lemma_labelled("type: DJ Session"@, e);
    assert("type: DJ Session"@ + e =~= l2);
    lemma_labelled("title: \""@, nq);
    lemma_labelled("description: DJ セッションログ"@, e);
    assert("description: DJ セッションログ"@ + e =~= l4);
    lemma_labelled("date: "@, date);
    lemma_labelled("tags: [dj, session]"@, e);
    assert("tags: [dj, session]"@ + e =~= l6);
    lemma_labelled("timestamp: "@, timestamp);
    lemma_dashes();
    lemma_frontmatter_pieces(name, date, timestamp);
    assert(lines(e) =~= Seq::<Seq<char>>::empty());
    let r8 = dl + seq!['\n'] + e;
    lemma_prepend_line(dl, e);
    let r7 = l7 + seq!['\n'] + r8;
    lemma_prepend_line(l7, r8);
    let r6 = l6 + seq!['\n'] + r7;
    lemma_prepend_line(l6, r7);
    let r5 = l5 + seq!['\n'] + r6;
    lemma_prepend_line(l5, r6);
    let r4 = l4 + seq!['\n'] + r5;
    lemma_prepend_line(l4, r5);
    let r3 = l3 + seq!['\n'] + r4;
    lemma_prepend_line(l3, r4);
    let r2 = l2 + seq!['\n'] + r3;
    lemma_prepend_line(l2, r3);
    lemma_prepend_line(dl, r2);
    assert(lines(frontmatter_text(name, date, timestamp)) =~= frontmatter_lines(
        name,
        date,
        timestamp,
    ));
}

/// A new session log (its front matter only) has no entries, and its body
/// is open for entries.
pub proof fn lemma_new_session(name: Seq<char>, date: Seq<char>, timestamp: Seq<char>)
    requires
        free_of(name, '\n'),
        free_of(date, '\n'),
        free_of(timestamp, '\n'),
    ensures
        entry_count(frontmatter_text(name, date, timestamp)) == 0,
        delims_after(lines(frontmatter_text(name, date, timestamp)), 0) == 2,
        first_entry_from(lines(frontmatter_text(name, date, timestamp)), 0) is None,
{
    lemma_frontmatter_lines(name, date, timestamp);
    lemma_dashes();
    let ls = frontmatter_lines(name, date, timestamp);
    let dl = seq!['-', '-', '-'];
    let header = ls.subrange(1, 7);
    assert forall|k: int| 0 <= k < header.len() implies !is_delimiter(#[trigger] header[k]) by {
        assert(header[k] == ls[k + 1]);
    }
    assert(ls =~= seq![dl] + (header + seq![dl]));
    lemma_scan_header(header, 1);
    lemma_scan_concat(seq![dl], header + seq![dl], 0);
    lemma_scan_concat(header, seq![dl], 1);
    reveal_with_fuel(count_from, 2);
    reveal_with_fuel(delims_after, 2);
    reveal_with_fuel(first_entry_from, 2);
}

// ---------------------------------------------------------------------------
// The shape of a rendered line
// ---------------------------------------------------------------------------

/// The part of the default template after the clock time.
pub open spec fn template_tail() -> Seq<char> {
    " (+{elapsed}) Deck {deck}｜{title} / {artist}"@
}

proof fn lemma_template_split()
    ensures
        DEFAULT_LINE_TEMPLATE@ == "- "@ + "{no}"@ + ". **"@ + "{time}"@ + "**"@ + template_tail(),
{
    reveal_strlit("- {no}. **{time}** (+{elapsed}) Deck {deck}｜{title} / {artist}");
    reveal_strlit("- ");
    reveal_strlit("{no}");
    reveal_strlit(". **");
    reveal_strlit("{time}");
    reveal_strlit("**");
    reveal_strlit(" (+{elapsed}) Deck {deck}｜{title} / {artist}");
    assert(DEFAULT_LINE_TEMPLATE@ =~= "- "@ + "{no}"@ + ". **"@ + "{time}"@ + "**"@ + template_tail());
}

proof fn lemma_var_chars(p: Seq<char>)
    requires
        p.len() > 2,
        p[0] == '{',
        forall|k: int| 0 <= k < p.len() ==> ('a' <= #[trigger] p[k] <= 'z' || p[k] == '{' || p[k] == '}'),
    ensures
        !has_char(p, '*'),
        !has_char(p, '.'),
        !has_char(p, ' '),
{
}

/// The seven variable names are well-formed placeholders.
proof fn lemma_vars()
    ensures
        "{no}"@.len() == 4 && "{no}"@[0] == '{' && !has_char("{no}"@, '*') && !has_char("{no}"@, '.'),
        "{time}"@.len() == 6 && "{time}"@[0] == '{' && !has_char("{time}"@, '*') && !has_char(
            "{time}"@,
            '.',
        ),
        "{elapsed}"@.len() > 0 && "{elapsed}"@[0] == '{' && !has_char("{elapsed}"@, '*') && !has_char(
            "{elapsed}"@,
            '.',
        ),
        "{deck}"@.len() > 0 && "{deck}"@[0] == '{' && !has_char("{deck}"@, '*') && !has_char(
            "{deck}"@,
            '.',
        ),
        "{title}"@.len() > 0 && "{title}"@[0] == '{' && !has_char("{title}"@, '*') && !has_char(
            "{title}"@,
            '.',
        ),
        "{artist}"@.len() > 0 && "{artist}"@[0] == '{' && !has_char("{artist}"@, '*') && !has_char(
            "{artist}"@,
            '.',
        ),
        "{artwork}"@.len() > 0 && "{artwork}"@[0] == '{' && !has_char("{artwork}"@, '*')
            && !has_char("{artwork}"@, '.'),
        !has_char("{no}"@, ' ') && !has_char("{time}"@, ' ') && !has_char("{elapsed}"@, ' ')
            && !has_char("{deck}"@, ' ') && !has_char("{title}"@, ' ') && !has_char("{artist}"@, ' ')
            && !has_char("{artwork}"@, ' '),
        "{time}"@.take(4) != "{no}"@,
        "- "@ == seq!['-', ' '],
        ". **"@ == seq!['.', ' ', '*', '*'],
        "**"@ == seq!['*', '*'],
{
    reveal_strlit("{no}");
    reveal_strlit("{time}");
    reveal_strlit("{elapsed}");
    reveal_strlit("{deck}");
    reveal_strlit("{title}");
    reveal_strlit("{artist}");
    reveal_strlit("{artwork}");
    reveal_strlit(". **");
    reveal_strlit("**");
    reveal_strlit("- ");
    assert("- "@ =~= seq!['-', ' ']);
    lemma_var_chars("{no}"@);
    lemma_var_chars("{time}"@);
    lemma_var_chars("{elapsed}"@);
    lemma_var_chars("{deck}"@);
    lemma_var_chars("{title}"@);
    lemma_var_chars("{artist}"@);
    lemma_var_chars("{artwork}"@);
    assert("{time}"@.take(4)[1] != "{no}"@[1]);
    assert(". **"@ =~= seq!['.', ' ', '*', '*']);
    assert("**"@ =~= seq!['*', '*']);
}

/// One replacement step leaves the literal pieces around the clock time in
/// place.
proof fn lemma_render_step(x1: Seq<char>, x2: Seq<char>, b: Seq<char>, p: Seq<char>, r: Seq<char>)
    requires
        p.len() > 0,
        p[0] == '{',
        !has_char(p, '*'),
        !has_char(p, '.'),
        !has_char(p, ' '),
    ensures
        replace(seq!['-', ' '] + x1 + seq!['.', ' ', '*', '*'] + x2 + seq!['*', '*'] + b, p, r)
            == seq!['-', ' '] + replace(x1, p, r) + seq!['.', ' ', '*', '*'] + replace(x2, p, r)
            + seq!['*', '*'] + replace(b, p, r),
{
    let pre = seq!['-', ' '];
    let l1 = seq!['.', ' ', '*', '*'];
    let l2 = seq!['*', '*'];
    let body = x1 + l1 + x2 + l2 + b;
    assert(pre + x1 + l1 + x2 + l2 + b =~= pre + body);
    assert(pre.last() == ' ');
    lemma_replace_concat(pre, body, p, r);
    lemma_replace_absent(pre, p, r);
    lemma_render_body(x1, x2, b, p, r);
    assert(pre + (replace(x1, p, r) + l1 + replace(x2, p, r) + l2 + replace(b, p, r)) =~= pre
        + replace(x1, p, r) + l1 + replace(x2, p, r) + l2 + replace(b, p, r));
}

proof fn lemma_render_body(x1: Seq<char>, x2: Seq<char>, b: Seq<char>, p: Seq<char>, r: Seq<char>)
    requires
        p.len() > 0,
        p[0] == '{',
        !has_char(p, '*'),
        !has_char(p, '.'),
    ensures
        replace(x1 + seq!['.', ' ', '*', '*'] + x2 + seq!['*', '*'] + b, p, r) == replace(x1, p, r)
            + seq!['.', ' ', '*', '*'] + replace(x2, p, r) + seq!['*', '*'] + replace(b, p, r),
{
    let l1 = seq!['.', ' ', '*', '*'];
    let l2 = seq!['*', '*'];
    assert(x1 + l1 + x2 + l2 + b =~= x1 + (l1 + (x2 + (l2 + b))));
    assert((l1 + (x2 + (l2 + b)))[0] == '.');
    lemma_replace_concat(x1, l1 + (x2 + (l2 + b)), p, r);
    assert(l1.last() == '*');
    lemma_replace_concat(l1, x2 + (l2 + b), p, r);
    assert((l2 + b)[0] == '*');
    lemma_replace_concat(x2, l2 + b, p, r);
    assert(l2.last() == '*');
    lemma_replace_concat(l2, b, p, r);
    lemma_replace_absent(l1, p, r);
    lemma_replace_absent(l2, p, r);
    assert(replace(x1, p, r) + (l1 + (replace(x2, p, r) + (l2 + replace(b, p, r)))) =~= replace(
        x1,
        p,
        r,
    ) + l1 + replace(x2, p, r) + l2 + replace(b, p, r));
}

/// The digits of a number.
pub proof fn lemma_decimal_digits(n: nat)
    ensures
        decimal(n).len() > 0,
        forall|k: int| 0 <= k < decimal(n).len() ==> '0' <= #[trigger] decimal(n)[k] <= '9',
    decreases n,
{
    if n >= 10 {
        lemma_decimal_digits(n / 10);
    }
    assert(0 <= n % 10 < 10);
}

/// A text made of digits and the given punctuation has none of the
/// characters that matter to line rendering.
pub open spec fn plain_text(s: Seq<char>) -> bool {
    forall|k: int|
        0 <= k < s.len() ==> ('0' <= #[trigger] s[k] <= '9' || s[k] == ':' || s[k] == '-')
}

proof fn lemma_plain_free(s: Seq<char>)
    requires
        plain_text(s),
    ensures
        free_of(s, '{'),
        free_of(s, '*'),
        free_of(s, '\n'),
{
}

proof fn lemma_plain_concat(a: Seq<char>, b: Seq<char>)
    requires
        plain_text(a),
        plain_text(b),
    ensures
        plain_text(a + b),
{
    assert forall|k: int| 0 <= k < (a + b).len() implies ('0' <= #[trigger] (a + b)[k] <= '9' || (a
        + b)[k] == ':' || (a + b)[k] == '-') by {
        if k < a.len() {
            assert((a + b)[k] == a[k]);
        } else {
            assert((a + b)[k] == b[k - a.len()]);
        }
    }
}

proof fn lemma_plain_decimal(n: nat)
    ensures
        plain_text(decimal(n)),
        plain_text(pad2(n)),
        plain_text(pad3(n)),
        plain_text(seq!['-'] + decimal(n)),
{
    lemma_decimal_digits(n);
    lemma_plain_concat(seq!['0'], decimal(n));
    lemma_plain_concat(seq!['0', '0'], decimal(n));
    lemma_plain_concat(seq!['-'], decimal(n));
}

/// Clock and elapsed-time texts hold only digits, colons and minus signs.
pub proof fn lemma_plain_times(secs: nat, n: int)
    ensures
        plain_text(clock_of(secs)),
        plain_text(elapsed_text(n)),
        plain_text("0:00:00"@),
{
    let c = seq![':'];
    lemma_plain_decimal(secs / 3600);
    lemma_plain_decimal((secs % 3600) / 60);
    lemma_plain_decimal(secs % 60);
    lemma_plain_concat(pad2(secs / 3600), c);
    lemma_plain_concat(pad2(secs / 3600) + c, pad2((secs % 3600) / 60));
    lemma_plain_concat(pad2(secs / 3600) + c + pad2((secs % 3600) / 60), c);
    lemma_plain_concat(pad2(secs / 3600) + c + pad2((secs % 3600) / 60) + c, pad2(secs % 60));
    let a = if n < 0 {
        -n
    } else {
        n
    };
    let h = a / 3600;
    let m = (a % 3600) / 60;
    let s = a % 60;
    lemma_plain_decimal(h as nat);
    lemma_plain_decimal(m as nat);
    lemma_plain_decimal(s as nat);
    let th = if n < 0 {
        signed_decimal(-h)
    } else {
        signed_decimal(h)
    };
    let tm = if n < 0 {
        signed_pad2(-m)
    } else {
        signed_pad2(m)
    };
    let ts = if n < 0 {
        signed_pad2(-s)
    } else {
        signed_pad2(s)
    };
    assert(plain_text(th));
    assert(plain_text(tm));
    assert(plain_text(ts));
    lemma_plain_concat(th, c);
    lemma_plain_concat(th + c, tm);
    lemma_plain_concat(th + c + tm, c);
    lemma_plain_concat(th + c + tm + c, ts);
    assert(elapsed_text(n) == th + c + tm + c + ts);
    reveal_strlit("0:00:00");
}

/// A rendered line of the default template begins with the sequence
/// number and the clock time between `**` marks, whatever the other
/// values are.
pub proof fn lemma_render_head(
    no: u32,
    time: Seq<char>,
    elapsed: Seq<char>,
    deck: u8,
    title: Seq<char>,
    artist: Seq<char>,
    artwork: Seq<char>,
)
    requires
        free_of(time, '{'),
    ensures
        rendered(DEFAULT_LINE_TEMPLATE@, no, time, elapsed, deck, title, artist, artwork) == seq![
            '-',
            ' ',
        ] + pad3(no as nat) + seq!['.', ' ', '*', '*'] + time + seq!['*', '*'] + rendered(
            template_tail(),
            no,
            time,
            elapsed,
            deck,
            title,
            artist,
            artwork,
        ),
{
    lemma_template_split();
    lemma_vars();
    let l1 = seq!['.', ' ', '*', '*'];
    let l2 = seq!['*', '*'];
    let dec = pad3(no as nat);
    let dd = decimal(deck as nat);
    lemma_plain_decimal(no as nat);
    lemma_plain_free(dec);
    let b = template_tail();
    assert(DEFAULT_LINE_TEMPLATE@ == seq!['-', ' '] + "{no}"@ + l1 + "{time}"@ + l2 + b);
    // {no}
    lemma_render_step("{no}"@, "{time}"@, b, "{no}"@, dec);
    lemma_replace_whole("{no}"@, dec);
    assert forall|k: int| 0 <= k < "{time}"@.drop_first().len() implies #[trigger] "{time}"@.drop_first()[k]
        != '{' by {
        reveal_strlit("{time}");
    }
    lemma_var_other("{time}"@, "{no}"@, dec);
    let b1 = replace(b, "{no}"@, dec);
    // {time}
    lemma_render_step(dec, "{time}"@, b1, "{time}"@, time);
    lemma_replace_whole("{time}"@, time);
    lemma_replace_absent(dec, "{time}"@, time);
    let b2 = replace(b1, "{time}"@, time);
    // the remaining variables occur neither in the number nor in the time
    lemma_render_step(dec, time, b2, "{elapsed}"@, elapsed);
    lemma_replace_absent(dec, "{elapsed}"@, elapsed);
    lemma_replace_absent(time, "{elapsed}"@, elapsed);
    let b3 = replace(b2, "{elapsed}"@, elapsed);
    lemma_render_step(dec, time, b3, "{deck}"@, dd);
    lemma_replace_absent(dec, "{deck}"@, dd);
    lemma_replace_absent(time, "{deck}"@, dd);
    let b4 = replace(b3, "{deck}"@, dd);
    lemma_render_step(dec, time, b4, "{title}"@, title);
    lemma_replace_absent(dec, "{title}"@, title);
    lemma_replace_absent(time, "{title}"@, title);
    let b5 = replace(b4, "{title}"@, title);
    lemma_render_step(dec, time, b5, "{artist}"@, artist);
    lemma_replace_absent(dec, "{artist}"@, artist);
    lemma_replace_absent(time, "{artist}"@, artist);
    let b6 = replace(b5, "{artist}"@, artist);
    lemma_render_step(dec, time, b6, "{artwork}"@, artwork);
    lemma_replace_absent(dec, "{artwork}"@, artwork);
    lemma_replace_absent(time, "{artwork}"@, artwork);
}

proof fn lemma_var_other(v: Seq<char>, p: Seq<char>, r: Seq<char>)
    requires
        v.len() > 0,
        p.len() > 0,
        v[0] == '{',
        p[0] == '{',
        forall|k: int| 0 <= k < v.drop_first().len() ==> #[trigger] v.drop_first()[k] != '{',
        !(p.len() <= v.len() && v.take(p.len() as int) == p),
    ensures
        replace(v, p, r) == v,
{
    lemma_replace_absent(v.drop_first(), p, r);
    assert(seq![v[0]] + v.drop_first() =~= v);
}

/// The time field of a line that begins with a head without `*`, `. ` and
/// a clock time between `**` marks is that clock time.
pub proof fn lemma_time_field_head(dec: Seq<char>, time: Seq<char>, rest: Seq<char>)
    requires
        free_of(dec, '*'),
        free_of(time, '*'),
    ensures
        time_field(dec + seq!['.', ' ', '*', '*'] + time + seq!['*', '*'] + rest) == Some(time),
{
    reveal_strlit("**");
    let p = "**"@;
    assert(p =~= seq!['*', '*']);
    let l = dec + seq!['.', ' ', '*', '*'] + time + seq!['*', '*'] + rest;
    let i = dec.len() + 2int;
    assert forall|k: int| 0 <= k < i implies !occurs_at(l, p, k) by {
        if occurs_at(l, p, k) {
            assert(l.subrange(k, k + 2)[0] == l[k]);
            if k < dec.len() {
                assert(l[k] == dec[k]);
            }
        }
    }
    assert(l.subrange(i, i + 2) =~= p);
    lemma_find_skip(l, p, i);
    lemma_find_here(l, p, i);
    let t = l.skip(i + 2);
    assert(t =~= time + seq!['*', '*'] + rest);
    let j = time.len() as int;
    assert forall|k: int| 0 <= k < j implies !occurs_at(t, p, k) by {
        if occurs_at(t, p, k) {
            assert(t.subrange(k, k + 2)[0] == t[k]);
            assert(t[k] == time[k]);
        }
    }
    assert(t.subrange(j, j + 2) =~= p);
    lemma_find_skip(t, p, j);
    lemma_find_here(t, p, j);
    assert(l.subrange(i + 2, i + 2 + j) =~= time);
}

proof fn lemma_replace_keeps_free(s: Seq<char>, p: Seq<char>, r: Seq<char>, c: char)
    requires
        free_of(s, c),
        free_of(r, c),
    ensures
        free_of(replace(s, p, r), c),
    decreases s.len(),
{
    if p.len() > 0 && p.len() <= s.len() && s.take(p.len() as int) == p {
        let t = s.skip(p.len() as int);
        assert forall|k: int| 0 <= k < t.len() implies #[trigger] t[k] != c by {
            assert(t[k] == s[k + p.len()]);
        }
        lemma_replace_keeps_free(t, p, r, c);
        let out = r + replace(t, p, r);
        assert forall|k: int| 0 <= k < out.len() implies #[trigger] out[k] != c by {
            if k >= r.len() {
                assert(out[k] == replace(t, p, r)[k - r.len()]);
            }
        }
    } else if s.len() > 0 {
        let t = s.drop_first();
        assert forall|k: int| 0 <= k < t.len() implies #[trigger] t[k] != c by {
            assert(t[k] == s[k + 1]);
        }
        lemma_replace_keeps_free(t, p, r, c);
        let out = seq![s[0]] + replace(t, p, r);
        assert forall|k: int| 0 <= k < out.len() implies #[trigger] out[k] != c by {
            if k >= 1 {
                assert(out[k] == replace(t, p, r)[k - 1]);
            }
        }
    }
}

proof fn lemma_rendered_free(
    template: Seq<char>,
    no: u32,
    time: Seq<char>,
    elapsed: Seq<char>,
    deck: u8,
    title: Seq<char>,
    artist: Seq<char>,
    artwork: Seq<char>,
    c: char,
)
    requires
        free_of(template, c),
        free_of(pad3(no as nat), c),
        free_of(time, c),
        free_of(elapsed, c),
        free_of(decimal(deck as nat), c),
        free_of(title, c),
        free_of(artist, c),
        free_of(artwork, c),
    ensures
        free_of(rendered(template, no, time, elapsed, deck, title, artist, artwork), c),
{
    let s1 = replace(template, "{no}"@, pad3(no as nat));
    lemma_replace_keeps_free(template, "{no}"@, pad3(no as nat), c);
    let s2 = replace(s1, "{time}"@, time);
    lemma_replace_keeps_free(s1, "{time}"@, time, c);
    let s3 = replace(s2, "{elapsed}"@, elapsed);
    lemma_replace_keeps_free(s2, "{elapsed}"@, elapsed, c);
    let s4 = replace(s3, "{deck}"@, decimal(deck as nat));
    lemma_replace_keeps_free(s3, "{deck}"@, decimal(deck as nat), c);
    let s5 = replace(s4, "{title}"@, title);
    lemma_replace_keeps_free(s4, "{title}"@, title, c);
    let s6 = replace(s5, "{artist}"@, artist);
    lemma_replace_keeps_free(s5, "{artist}"@, artist, c);
    lemma_replace_keeps_free(s6, "{artwork}"@, artwork, c);
}

proof fn lemma_count_zero(ls: Seq<Seq<char>>, d: nat)
    ensures
        (count_from(ls, d) == 0) <==> first_entry_from(ls, d) is None,
    decreases ls.len(),
{
    if ls.len() > 0 {
        lemma_count_zero(ls.drop_first(), next_delims(d, ls[0]));
    }
}

/// The line that `session_line` produces for titles and artists without
/// line breaks is an entry line, and its time field is the clock time of
/// the load.
pub proof fn lemma_session_line_shape(
    content: Seq<char>,
    now_secs: nat,
    deck: u8,
    title: Seq<char>,
    artist: Seq<char>,
)
    requires
        free_of(title, '\n'),
        free_of(artist, '\n'),
    ensures
        is_entry_line(session_line_text(content, now_secs, deck, title, artist)),
        time_field(session_line_text(content, now_secs, deck, title, artist)) == Some(
            clock_of(now_secs),
        ),
        time_field(strip_cr(session_line_text(content, now_secs, deck, title, artist))) == Some(
            clock_of(now_secs),
        ),
{
    let no = entry_count(content) + 1;
    let n32 = no as u32;
    let clock = clock_of(now_secs);
    let elapsed = elapsed_for(no, first_time(content), now_secs);
    let e = Seq::<char>::empty();
    let l = session_line_text(content, now_secs, deck, title, artist);
    let pre = seq!['-', ' '];
    let dec = pad3(n32 as nat);
    let l1 = seq!['.', ' ', '*', '*'];
    let l2 = seq!['*', '*'];
    lemma_plain_times(
        now_secs,
        if no != 1 && first_time(content) is Some && now_secs >= first_time(content)->0 {
            now_secs - first_time(content)->0
        } else {
            0
        },
    );
    assert(plain_text(elapsed));
    lemma_plain_free(clock);
    lemma_plain_free(elapsed);
    lemma_plain_decimal(n32 as nat);
    lemma_plain_decimal(deck as nat);
    lemma_plain_free(dec);
    lemma_plain_free(decimal(deck as nat));
    lemma_render_head(n32, clock, elapsed, deck, title, artist, e);
    let rest = rendered(template_tail(), n32, clock, elapsed, deck, title, artist, e);
    let head = pre + dec;
    assert(free_of(head, '*')) by {
        assert forall|k: int| 0 <= k < head.len() implies #[trigger] head[k] != '*' by {
            if k >= 2 {
                assert(head[k] == dec[k - 2]);
            }
        }
    }
    assert(l == head + l1 + clock + l2 + rest);
    lemma_time_field_head(head, clock, rest);
    // a '\r' at the end belongs to the rest
    let rest2 = if rest.len() > 0 && rest.last() == '\r' {
        rest.drop_last()
    } else {
        rest
    };
    assert(strip_cr(l) =~= head + l1 + clock + l2 + rest2);
    lemma_time_field_head(head, clock, rest2);
    // no line break
    reveal_strlit("- {no}. **{time}** (+{elapsed}) Deck {deck}｜{title} / {artist}");
    assert(free_of(DEFAULT_LINE_TEMPLATE@, '\n'));
    lemma_rendered_free(DEFAULT_LINE_TEMPLATE@, n32, clock, elapsed, deck, title, artist, e, '\n');
    // not blank, and not a delimiter: it begins with "- " and a digit
    reveal_strlit("---");
    lemma_decimal_digits(n32 as nat);
    assert(dec.len() > 0);
    assert(l[0] == '-');
    assert(l[1] == ' ');
    assert(l[2] == dec[0]);
    assert(plain_text(dec) && 0 < dec.len());
    assert(!is_space(l[2]));
    lemma_trim_keeps(l, 2);
    assert(trim(l)[1] == ' ');
    assert("---"@[1] == '-');
}

/// Appending the line that `session_line` produces (and a line break) to a
/// session log adds one entry and keeps it a session log; the first entry's
/// time is then the clock time written for the first track: the new one if
/// the log had no entry, else the one it had.
pub proof fn lemma_session_append(
    content: Seq<char>,
    now_secs: nat,
    deck: u8,
    title: Seq<char>,
    artist: Seq<char>,
)
    requires
        content.len() == 0 || content.last() == '\n',
        delims_after(lines(content), 0) == 2,
        free_of(title, '\n'),
        free_of(artist, '\n'),
    ensures
        entry_count(content + session_line_text(content, now_secs, deck, title, artist) + seq![
            '\n',
        ]) == entry_count(content) + 1,
        delims_after(
            lines(content + session_line_text(content, now_secs, deck, title, artist) + seq!['\n']),
            0,
        ) == 2,
        first_field(content + session_line_text(content, now_secs, deck, title, artist) + seq![
            '\n',
        ]) == if entry_count(content) == 0 {
            Some(clock_of(now_secs))
        } else {
            first_field(content)
        },
        first_time(content + session_line_text(content, now_secs, deck, title, artist) + seq![
            '\n',
        ]) == if entry_count(content) == 0 {
            parsed_hms(clock_of(now_secs))
        } else {
            first_time(content)
        },
{
    let l = session_line_text(content, now_secs, deck, title, artist);
    lemma_session_line_shape(content, now_secs, deck, title, artist);
    lemma_entry_appended(content, l);
    lemma_count_zero(lines(content), 0);
}

/// The clock text of a time of day is the zero-padded hours, minutes and
/// seconds that make up that time, each within its range; so reading the
/// first entry's time back (`first_entry_time`) gives the seconds written.
pub proof fn lemma_clock_parts(secs: nat)
    requires
        secs < 86400,
    ensures
        clock_of(secs) == clock(secs / 3600, (secs % 3600) / 60, secs % 60),
        secs / 3600 < 24,
        (secs % 3600) / 60 < 60,
        secs % 60 < 60,
        (secs / 3600) * 3600 + ((secs % 3600) / 60) * 60 + secs % 60 == secs,
{
}

/// `H:MM:SS` of a non-negative number of seconds: the whole hours in
/// decimal (never wrapped), then two digits each of the minutes and the
/// seconds left over.
pub open spec fn hms_digits(d: nat) -> Seq<char> {
    let m = (d % 3600) / 60;
    let sec = d % 60;
    decimal(d / 3600) + seq![
        ':',
        crate::text::digit_char((m / 10) as int),
        crate::text::digit_char((m % 10) as int),
        ':',
        crate::text::digit_char((sec / 10) as int),
        crate::text::digit_char((sec % 10) as int),
    ]
}

/// The elapsed time written for a track that is not the first is the time
/// from the first entry's clock time to now, in whole hours, minutes and
/// seconds, however long ago that was; `format_elapsed` writes a
/// non-negative count of seconds the same way.  The first track always gets
/// `0:00:00`.
pub proof fn lemma_elapsed_since_first(no: nat, f: u32, now_secs: nat)
    ensures
        no != 1 && now_secs >= f ==> elapsed_for(no, Some(f), now_secs) == hms_digits(
            (now_secs - f) as nat,
        ),
        no != 1 && now_secs < f ==> elapsed_for(no, Some(f), now_secs) == hms_digits(0),
        elapsed_for(1, Some(f), now_secs) == seq!['0', ':', '0', '0', ':', '0', '0'],
        now_secs >= f ==> elapsed_text(now_secs - f) == hms_digits((now_secs - f) as nat),
{
    reveal_strlit("0:00:00");
    assert("0:00:00"@ =~= seq!['0', ':', '0', '0', ':', '0', '0']);
    let d: nat = if now_secs >= f {
        (now_secs - f) as nat
    } else {
        0
    };
    lemma_elapsed_digits(d);
    if now_secs >= f {
        lemma_elapsed_digits((now_secs - f) as nat);
    }
}

proof fn lemma_elapsed_digits(d: nat)
    ensures
        elapsed_text(d as int) == hms_digits(d),
{
    let m = (d % 3600) / 60;
    let sec = d % 60;
    crate::text::lemma_pad2_digits(m);
    crate::text::lemma_pad2_digits(sec);
    assert(elapsed_text(d as int) =~= hms_digits(d));
}

/// A line as the session log's documentation writes it: `- `, the number
/// in three digits, `. **`, the clock time, `** (+`, the elapsed time,
/// `) Deck `, the deck, `｜`, the title, ` / ` and the artist.
pub open spec fn documented_line(
    no: nat,
    time: Seq<char>,
    elapsed: Seq<char>,
    deck: u8,
    title: Seq<char>,
    artist: Seq<char>,
) -> Seq<char> {
    seq!['-', ' '] + pad3(no) + seq!['.', ' ', '*', '*'] + time + seq!['*', '*', ' ', '(', '+']
        + elapsed + seq![')', ' ', 'D', 'e', 'c', 'k', ' '] + decimal(deck as nat) + seq!['｜']
        + title + seq![' ', '/', ' '] + artist
}

/// A character of a template variable's name.
pub open spec fn var_char(c: char) -> bool {
    c == '{' || c == '}' || ('a' <= c <= 'z')
}

/// The literal pieces of the default template, between its variables.
pub open spec fn line_literals() -> Seq<Seq<char>> {
    seq![
        seq!['-', ' '],
        seq!['.', ' ', '*', '*'],
        seq!['*', '*', ' ', '(', '+'],
        seq![')', ' ', 'D', 'e', 'c', 'k', ' '],
        seq!['｜'],
        seq![' ', '/', ' '],
    ]
}

/// Twelve pieces whose even pieces are the template's literals.
pub open spec fn literal_frame(ps: Seq<Seq<char>>) -> bool {
    &&& ps.len() == 12
    &&& ps[0] == line_literals()[0]
    &&& ps[2] == line_literals()[1]
    &&& ps[4] == line_literals()[2]
    &&& ps[6] == line_literals()[3]
    &&& ps[8] == line_literals()[4]
    &&& ps[10] == line_literals()[5]
}

proof fn lemma_frame_boundaries(ps: Seq<Seq<char>>, p: Seq<char>)
    requires
        literal_frame(ps),
        forall|k: int| 0 <= k < p.len() ==> var_char(#[trigger] p[k]),
    ensures
        forall|i: int| 0 <= i < ps.len() - 1 ==> #[trigger] safe_boundary(ps, i, p),
{
    assert(!has_char(p, ' ')) by {
        if has_char(p, ' ') {
            let j = choose|j: int| 0 <= j < p.len() && p[j] == ' ';
            assert(var_char(p[j]));
        }
    }
    assert(!has_char(p, '*')) by {
        if has_char(p, '*') {
            let j = choose|j: int| 0 <= j < p.len() && p[j] == '*';
            assert(var_char(p[j]));
        }
    }
    assert(!has_char(p, '+')) by {
        if has_char(p, '+') {
            let j = choose|j: int| 0 <= j < p.len() && p[j] == '+';
            assert(var_char(p[j]));
        }
    }
    assert(!has_char(p, '｜')) by {
        if has_char(p, '｜') {
            let j = choose|j: int| 0 <= j < p.len() && p[j] == '｜';
            assert(var_char(p[j]));
        }
    }
    assert(!has_char(p, '.')) by {
        if has_char(p, '.') {
            let j = choose|j: int| 0 <= j < p.len() && p[j] == '.';
            assert(var_char(p[j]));
        }
    }
    assert(!has_char(p, ')')) by {
        if has_char(p, ')') {
            let j = choose|j: int| 0 <= j < p.len() && p[j] == ')';
            assert(var_char(p[j]));
        }
    }
    assert forall|i: int| 0 <= i < ps.len() - 1 implies #[trigger] safe_boundary(ps, i, p) by {
        if i == 0 {
            assert(ps[0].last() == ' ');
        } else if i == 1 {
            assert(ps[2][0] == '.');
        } else if i == 2 {
            assert(ps[2].last() == '*');
        } else if i == 3 {
            assert(ps[4][0] == '*');
        } else if i == 4 {
            assert(ps[4].last() == '+');
        } else if i == 5 {
            assert(ps[6][0] == ')');
        } else if i == 6 {
            assert(ps[6].last() == ' ');
        } else if i == 7 {
            assert(ps[8][0] == '｜');
        } else if i == 8 {
            assert(ps[8].last() == '｜');
        } else if i == 9 {
            assert(ps[10][0] == ' ');
        } else {
            assert(ps[10].last() == ' ');
        }
    }
}

/// One replacement step over the pieces: piece `j` is the variable `p`,
/// every other piece is left alone by the replacement.
proof fn lemma_frame_step(ps: Seq<Seq<char>>, j: int, p: Seq<char>, r: Seq<char>)
    requires
        literal_frame(ps),
        p.len() > 0,
        forall|k: int| 0 <= k < p.len() ==> var_char(#[trigger] p[k]),
        0 <= j < 12,
        ps[j] == p,
        forall|i: int| 0 <= i < 12 && i != j ==> replace(#[trigger] ps[i], p, r) == ps[i],
    ensures
        replace(joined(ps), p, r) == joined(ps.update(j, r)),
{
    lemma_frame_boundaries(ps, p);
    lemma_replace_joined(ps, p, r);
    lemma_replace_whole(p, r);
    assert(ps.map_values(|x: Seq<char>| replace(x, p, r)) =~= ps.update(j, r));
}

/// A replacement that leaves every piece alone leaves the text alone.
proof fn lemma_frame_keep(ps: Seq<Seq<char>>, p: Seq<char>, r: Seq<char>)
    requires
        literal_frame(ps),
        p.len() > 0,
        forall|k: int| 0 <= k < p.len() ==> var_char(#[trigger] p[k]),
        forall|i: int| 0 <= i < 12 ==> replace(#[trigger] ps[i], p, r) == ps[i],
    ensures
        replace(joined(ps), p, r) == joined(ps),
{
    lemma_frame_boundaries(ps, p);
    lemma_replace_joined(ps, p, r);
    assert(ps.map_values(|x: Seq<char>| replace(x, p, r)) =~= ps);
}

proof fn lemma_kept(x: Seq<char>, p: Seq<char>, r: Seq<char>)
    requires
        p.len() > 0,
        p[0] == '{',
        free_of(x, '{'),
    ensures
        replace(x, p, r) == x,
{
    lemma_replace_absent(x, p, r);
}

proof fn lemma_joined_twelve(ps: Seq<Seq<char>>)
    requires
        ps.len() == 12,
    ensures
        joined(ps) == ps[0] + ps[1] + ps[2] + ps[3] + ps[4] + ps[5] + ps[6] + ps[7] + ps[8] + ps[9]
            + ps[10] + ps[11],
{
    reveal_with_fuel(joined, 13);
    assert(ps.skip(12) =~= Seq::<Seq<char>>::empty());
    assert(ps.drop_first() =~= ps.skip(1));
    assert(ps.skip(1).drop_first() =~= ps.skip(2));
    assert(ps.skip(2).drop_first() =~= ps.skip(3));
    assert(ps.skip(3).drop_first() =~= ps.skip(4));
    assert(ps.skip(4).drop_first() =~= ps.skip(5));
    assert(ps.skip(5).drop_first() =~= ps.skip(6));
    assert(ps.skip(6).drop_first() =~= ps.skip(7));
    assert(ps.skip(7).drop_first() =~= ps.skip(8));
    assert(ps.skip(8).drop_first() =~= ps.skip(9));
    assert(ps.skip(9).drop_first() =~= ps.skip(10));
    assert(ps.skip(10).drop_first() =~= ps.skip(11));
    assert(ps.skip(11).drop_first() =~= ps.skip(12));
    assert(joined(ps.skip(11)) =~= ps[11]);
    assert(joined(ps) =~= ps[0] + ps[1] + ps[2] + ps[3] + ps[4] + ps[5] + ps[6] + ps[7] + ps[8]
        + ps[9] + ps[10] + ps[11]);
}

proof fn lemma_var_name(v: Seq<char>)
    requires
        v.len() > 2,
        v[0] == '{',
        v.last() == '}',
        forall|k: int| 0 < k < v.len() - 1 ==> 'a' <= #[trigger] v[k] <= 'z',
    ensures
        forall|k: int| 0 <= k < v.len() ==> var_char(#[trigger] v[k]),
        free_of(v.drop_first(), '{'),
{
    assert forall|k: int| 0 <= k < v.len() implies var_char(#[trigger] v[k]) by {
        if 0 < k < v.len() - 1 {
            assert('a' <= v[k] <= 'z');
        }
    }
    assert forall|k: int| 0 <= k < v.drop_first().len() implies #[trigger] v.drop_first()[k] != '{' by {
        assert(v.drop_first()[k] == v[k + 1]);
        if k + 1 < v.len() - 1 {
            assert('a' <= v[k + 1] <= 'z');
        }
    }
}

proof fn lemma_literals_free()
    ensures
        forall|i: int| 0 <= i < 6 ==> free_of(#[trigger] line_literals()[i], '{'),
{
    assert forall|i: int| 0 <= i < 6 implies free_of(#[trigger] line_literals()[i], '{') by {
        let l = line_literals()[i];
        assert forall|k: int| 0 <= k < l.len() implies #[trigger] l[k] != '{' by {
            if i == 0 {
            } else if i == 1 {
            } else if i == 2 {
            } else if i == 3 {
            } else if i == 4 {
            } else {
            }
        }
    }
}

/// The default template yields the documented line: for a clock time,
/// elapsed time, title and artist without `{` (so that no value can be
/// taken for a later variable), the rendered line is exactly `- `, the
/// number in three digits, `. **`, the time, `** (+`, the elapsed time,
/// `) Deck `, the deck, `｜`, the title, ` / ` and the artist.
#[verifier::rlimit(60)]
pub proof fn lemma_default_line(
    no: u32,
    time: Seq<char>,
    elapsed: Seq<char>,
    deck: u8,
    title: Seq<char>,
    artist: Seq<char>,
    artwork: Seq<char>,
)
    requires
        free_of(time, '{'),
        free_of(elapsed, '{'),
        free_of(title, '{'),
        free_of(artist, '{'),
    ensures
        rendered(DEFAULT_LINE_TEMPLATE@, no, time, elapsed, deck, title, artist, artwork)
            == documented_line(no as nat, time, elapsed, deck, title, artist),
{
    reveal_strlit("- {no}. **{time}** (+{elapsed}) Deck {deck}｜{title} / {artist}");
    reveal_strlit("{no}");
    reveal_strlit("{time}");
    reveal_strlit("{elapsed}");
    reveal_strlit("{deck}");
    reveal_strlit("{title}");
    reveal_strlit("{artist}");
    reveal_strlit("{artwork}");
    let vno = "{no}"@;
    let vtime = "{time}"@;
    let vel = "{elapsed}"@;
    let vdeck = "{deck}"@;
    let vtitle = "{title}"@;
    let vartist = "{artist}"@;
    let vart = "{artwork}"@;
    lemma_var_name(vno);
    lemma_var_name(vtime);
    lemma_var_name(vel);
    lemma_var_name(vdeck);
    lemma_var_name(vtitle);
    lemma_var_name(vartist);
    lemma_var_name(vart);
    lemma_literals_free();
    let pad = pad3(no as nat);
    let dd = decimal(deck as nat);
    lemma_plain_decimal(no as nat);
    lemma_plain_decimal(deck as nat);
    lemma_plain_free(pad);
    lemma_plain_free(dd);
    let l = line_literals();
    let s0 = seq![l[0], vno, l[1], vtime, l[2], vel, l[3], vdeck, l[4], vtitle, l[5], vartist];
    lemma_joined_twelve(s0);
    assert(DEFAULT_LINE_TEMPLATE@ =~= joined(s0));
    // {no}
    let s1 = s0.update(1, pad);
    assert forall|i: int| 0 <= i < 12 && i != 1 implies replace(#[trigger] s0[i], vno, pad) == s0[i] by {
        if i == 0 {
            assert(s0[0] == l[0]);
            lemma_kept(l[0], vno, pad);
        } else if i == 2 {
            assert(s0[2] == l[1]);
            lemma_kept(l[1], vno, pad);
        } else if i == 3 {
            assert(vtime.take(vno.len() as int)[1] != vno[1]);
            lemma_var_other(vtime, vno, pad);
        } else if i == 4 {
            assert(s0[4] == l[2]);
            lemma_kept(l[2], vno, pad);
        } else if i == 5 {
            assert(vel.take(vno.len() as int)[1] != vno[1]);
            lemma_var_other(vel, vno, pad);
        } else if i == 6 {
            assert(s0[6] == l[3]);
            lemma_kept(l[3], vno, pad);
        } else if i == 7 {
            assert(vdeck.take(vno.len() as int)[1] != vno[1]);
            lemma_var_other(vdeck, vno, pad);
        } else if i == 8 {
            assert(s0[8] == l[4]);
            lemma_kept(l[4], vno, pad);
        } else if i == 9 {
            assert(vtitle.take(vno.len() as int)[1] != vno[1]);
            lemma_var_other(vtitle, vno, pad);
        } else if i == 10 {
            assert(s0[10] == l[5]);
            lemma_kept(l[5], vno, pad);
        } else if i == 11 {
            assert(vartist.take(vno.len() as int)[1] != vno[1]);
            lemma_var_other(vartist, vno, pad);
        }
    }
    lemma_frame_step(s0, 1, vno, pad);
    // {time}
    let s2 = s1.update(3, time);
    assert forall|i: int| 0 <= i < 12 && i != 3 implies replace(#[trigger] s1[i], vtime, time) == s1[i] by {
        if i == 0 {
            assert(s1[0] == l[0]);
            lemma_kept(l[0], vtime, time);
        } else if i == 1 {
            lemma_kept(pad, vtime, time);
        } else if i == 2 {
            assert(s1[2] == l[1]);
            lemma_kept(l[1], vtime, time);
        } else if i == 4 {
            assert(s1[4] == l[2]);
            lemma_kept(l[2], vtime, time);
        } else if i == 5 {
            assert(vel.take(vtime.len() as int)[1] != vtime[1]);
            lemma_var_other(vel, vtime, time);
        } else if i == 6 {
            assert(s1[6] == l[3]);
            lemma_kept(l[3], vtime, time);
        } else if i == 7 {
            assert(vdeck.take(vtime.len() as int)[1] != vtime[1]);
            lemma_var_other(vdeck, vtime, time);
        } else if i == 8 {
            assert(s1[8] == l[4]);
            lemma_kept(l[4], vtime, time);
        } else if i == 9 {
            assert(vtitle.take(vtime.len() as int)[3] != vtime[3]);
            lemma_var_other(vtitle, vtime, time);
        } else if i == 10 {
            assert(s1[10] == l[5]);
            lemma_kept(l[5], vtime, time);
        } else if i == 11 {
            assert(vartist.take(vtime.len() as int)[1] != vtime[1]);
            lemma_var_other(vartist, vtime, time);
        }
    }
    lemma_frame_step(s1, 3, vtime, time);
    // {elapsed}
    let s3 = s2.update(5, elapsed);
    assert forall|i: int| 0 <= i < 12 && i != 5 implies replace(#[trigger] s2[i], vel, elapsed) == s2[i] by {
        if i == 0 {
            assert(s2[0] == l[0]);
            lemma_kept(l[0], vel, elapsed);
        } else if i == 1 {
            lemma_kept(pad, vel, elapsed);
        } else if i == 2 {
            assert(s2[2] == l[1]);
            lemma_kept(l[1], vel, elapsed);
        } else if i == 3 {
            lemma_kept(time, vel, elapsed);
        } else if i == 4 {
            assert(s2[4] == l[2]);
            lemma_kept(l[2], vel, elapsed);
        } else if i == 6 {
            assert(s2[6] == l[3]);
            lemma_kept(l[3], vel, elapsed);
        } else if i == 7 {
            assert(vel.len() > vdeck.len());
            lemma_var_other(vdeck, vel, elapsed);
        } else if i == 8 {
            assert(s2[8] == l[4]);
            lemma_kept(l[4], vel, elapsed);
        } else if i == 9 {
            assert(vel.len() > vtitle.len());
            lemma_var_other(vtitle, vel, elapsed);
        } else if i == 10 {
            assert(s2[10] == l[5]);
            lemma_kept(l[5], vel, elapsed);
        } else if i == 11 {
            assert(vel.len() > vartist.len());
            lemma_var_other(vartist, vel, elapsed);
        }
    }
    lemma_frame_step(s2, 5, vel, elapsed);
    // {deck}
    let s4 = s3.update(7, dd);
    assert forall|i: int| 0 <= i < 12 && i != 7 implies replace(#[trigger] s3[i], vdeck, dd) == s3[i] by {
        if i == 0 {
            assert(s3[0] == l[0]);
            lemma_kept(l[0], vdeck, dd);
        } else if i == 1 {
            lemma_kept(pad, vdeck, dd);
        } else if i == 2 {
            assert(s3[2] == l[1]);
            lemma_kept(l[1], vdeck, dd);
        } else if i == 3 {
            lemma_kept(time, vdeck, dd);
        } else if i == 4 {
            assert(s3[4] == l[2]);
            lemma_kept(l[2], vdeck, dd);
        } else if i == 5 {
            lemma_kept(elapsed, vdeck, dd);
        } else if i == 6 {
            assert(s3[6] == l[3]);
            lemma_kept(l[3], vdeck, dd);
        } else if i == 8 {
            assert(s3[8] == l[4]);
            lemma_kept(l[4], vdeck, dd);
        } else if i == 9 {
            assert(vtitle.take(vdeck.len() as int)[1] != vdeck[1]);
            lemma_var_other(vtitle, vdeck, dd);
        } else if i == 10 {
            assert(s3[10] == l[5]);
            lemma_kept(l[5], vdeck, dd);
        } else if i == 11 {
            assert(vartist.take(vdeck.len() as int)[1] != vdeck[1]);
            lemma_var_other(vartist, vdeck, dd);
        }
    }
    lemma_frame_step(s3, 7, vdeck, dd);
    // {title}
    let s5 = s4.update(9, title);
    assert forall|i: int| 0 <= i < 12 && i != 9 implies replace(#[trigger] s4[i], vtitle, title) == s4[i] by {
        if i == 0 {
            assert(s4[0] == l[0]);
            lemma_kept(l[0], vtitle, title);
        } else if i == 1 {
            lemma_kept(pad, vtitle, title);
        } else if i == 2 {
            assert(s4[2] == l[1]);
            lemma_kept(l[1], vtitle, title);
        } else if i == 3 {
            lemma_kept(time, vtitle, title);
        } else if i == 4 {
            assert(s4[4] == l[2]);
            lemma_kept(l[2], vtitle, title);
        } else if i == 5 {
            lemma_kept(elapsed, vtitle, title);
        } else if i == 6 {
            assert(s4[6] == l[3]);
            lemma_kept(l[3], vtitle, title);
        } else if i == 7 {
            lemma_kept(dd, vtitle, title);
        } else if i == 8 {
            assert(s4[8] == l[4]);
            lemma_kept(l[4], vtitle, title);
        } else if i == 10 {
            assert(s4[10] == l[5]);
            lemma_kept(l[5], vtitle, title);
        } else if i == 11 {
            assert(vartist.take(vtitle.len() as int)[1] != vtitle[1]);
            lemma_var_other(vartist, vtitle, title);
        }
    }
    lemma_frame_step(s4, 9, vtitle, title);
    // {artist}
    let s6 = s5.update(11, artist);
    assert forall|i: int| 0 <= i < 12 && i != 11 implies replace(#[trigger] s5[i], vartist, artist) == s5[i] by {
        if i == 0 {
            assert(s5[0] == l[0]);
            lemma_kept(l[0], vartist, artist);
        } else if i == 1 {
            lemma_kept(pad, vartist, artist);
        } else if i == 2 {
            assert(s5[2] == l[1]);
            lemma_kept(l[1], vartist, artist);
        } else if i == 3 {
            lemma_kept(time, vartist, artist);
        } else if i == 4 {
            assert(s5[4] == l[2]);
            lemma_kept(l[2], vartist, artist);
        } else if i == 5 {
            lemma_kept(elapsed, vartist, artist);
        } else if i == 6 {
            assert(s5[6] == l[3]);
            lemma_kept(l[3], vartist, artist);
        } else if i == 7 {
            lemma_kept(dd, vartist, artist);
        } else if i == 8 {
            assert(s5[8] == l[4]);
            lemma_kept(l[4], vartist, artist);
        } else if i == 9 {
            lemma_kept(title, vartist, artist);
        } else if i == 10 {
            assert(s5[10] == l[5]);
            lemma_kept(l[5], vartist, artist);
        }
    }
    lemma_frame_step(s5, 11, vartist, artist);
    // {artwork} does not occur
    assert forall|i: int| 0 <= i < 12 implies replace(#[trigger] s6[i], vart, artwork) == s6[i] by {
        if i % 2 == 0 {
            assert(s6[i] == l[i / 2]);
            lemma_kept(l[i / 2], vart, artwork);
        } else if i == 1 {
            lemma_kept(pad, vart, artwork);
        } else if i == 3 {
            lemma_kept(time, vart, artwork);
        } else if i == 5 {
            lemma_kept(elapsed, vart, artwork);
        } else if i == 7 {
            lemma_kept(dd, vart, artwork);
        } else if i == 9 {
            lemma_kept(title, vart, artwork);
        } else {
            lemma_kept(artist, vart, artwork);
        }
    }
    lemma_frame_keep(s6, vart, artwork);
    lemma_joined_twelve(s6);
    assert(joined(s6) =~= documented_line(no as nat, time, elapsed, deck, title, artist));
}

/// The line appended to a session log is the documented line: its number
/// is one more than the entries already there, its time the clock time of
/// the load and its elapsed time the one `elapsed_for` gives (for titles
/// and artists without `{`).
pub proof fn lemma_session_line_format(
    content: Seq<char>,
    now_secs: nat,
    deck: u8,
    title: Seq<char>,
    artist: Seq<char>,
)
    requires
        entry_count(content) < u32::MAX,
        free_of(title, '{'),
        free_of(artist, '{'),
    ensures
        session_line_text(content, now_secs, deck, title, artist) == documented_line(
            entry_count(content) + 1,
            clock_of(now_secs),
            elapsed_for(entry_count(content) + 1, first_time(content), now_secs),
            deck,
            title,
            artist,
        ),
{
    let no = entry_count(content) + 1;
    let elapsed = elapsed_for(no, first_time(content), now_secs);
    lemma_plain_times(
        now_secs,
        if no != 1 && first_time(content) is Some && now_secs >= first_time(content)->0 {
            now_secs - first_time(content)->0
        } else {
            0
        },
    );
    lemma_plain_free(clock_of(now_secs));
    lemma_plain_free(elapsed);
    lemma_default_line(
        no as u32,
        clock_of(now_secs),
        elapsed,
        deck,
        title,
        artist,
        Seq::<char>::empty(),
    );
}

/// The sequence number is written in three digits (more only from 1000 on).
pub proof fn lemma_pad3_digits(n: nat)
    ensures
        n < 1000 ==> pad3(n) == seq![
            crate::text::digit_char((n / 100) as int),
            crate::text::digit_char(((n / 10) % 10) as int),
            crate::text::digit_char((n % 10) as int),
        ],
        n >= 1000 ==> pad3(n) == decimal(n),
{
    reveal_with_fuel(decimal, 3);
    assert(crate::text::digit_char(0) == '0');
    if n < 10 {
        assert(pad3(n) =~= seq![
            crate::text::digit_char((n / 100) as int),
            crate::text::digit_char(((n / 10) % 10) as int),
            crate::text::digit_char((n % 10) as int),
        ]);
    } else if n < 100 {
        assert(decimal(n / 10) == seq![crate::text::digit_char((n / 10) as int)]);
        assert(pad3(n) =~= seq![
            crate::text::digit_char((n / 100) as int),
            crate::text::digit_char(((n / 10) % 10) as int),
            crate::text::digit_char((n % 10) as int),
        ]);
    } else if n < 1000 {
        assert(decimal(n / 100) == seq![crate::text::digit_char((n / 100) as int)]);
        assert((n / 10) / 10 == n / 100);
        assert(decimal(n / 10) == decimal(n / 100).push(crate::text::digit_char(((n / 10) % 10) as int)));
        assert(pad3(n) =~= seq![
            crate::text::digit_char((n / 100) as int),
            crate::text::digit_char(((n / 10) % 10) as int),
            crate::text::digit_char((n % 10) as int),
        ]);
    }
}

/// The clock time of a load is two digits each of its hours, minutes and
/// seconds, separated by colons.
pub proof fn lemma_clock_digits(secs: nat)
    requires
        secs < 86400,
    ensures
        ({
            let h = secs / 3600;
            let m = (secs % 3600) / 60;
            let s = secs % 60;
            clock_of(secs) == seq![
                crate::text::digit_char((h / 10) as int),
                crate::text::digit_char((h % 10) as int),
                ':',
                crate::text::digit_char((m / 10) as int),
                crate::text::digit_char((m % 10) as int),
                ':',
                crate::text::digit_char((s / 10) as int),
                crate::text::digit_char((s % 10) as int),
            ]
        }),
{
    let h = secs / 3600;
    let m = (secs % 3600) / 60;
    let s = secs % 60;
    crate::text::lemma_pad2_digits(h);
    crate::text::lemma_pad2_digits(m);
    crate::text::lemma_pad2_digits(s);
    assert(clock_of(secs) =~= seq![
        crate::text::digit_char((h / 10) as int),
        crate::text::digit_char((h % 10) as int),
        ':',
        crate::text::digit_char((m / 10) as int),
        crate::text::digit_char((m % 10) as int),
        ':',
        crate::text::digit_char((s / 10) as int),
        crate::text::digit_char((s % 10) as int),
    ]);
}

} // verus!
