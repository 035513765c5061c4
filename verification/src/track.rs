//! The selected track of Swinsian or Music.app: what is read from the
//! players' table cells and AppleScript output is turned into a
//! `TrackInfo`, and the order in which the running players are asked.
//! Reading the Accessibility tree and running `osascript` stay with the
//! caller, which hands in what it read.
use vstd::prelude::*;

use crate::text::{
    chars_of, decimal, find_char, pad2, push_all, push_decimal, push_pad2, same_chars, slice_chars,
    split_char, split_on, string_of, trim, trimmed, until, views,
};

verus! {

/// The selected track.
pub struct TrackInfo {
    /// The player the track was read from: `Swinsian` or `iTunes`.
    pub source: String,
    pub title: String,
    pub artist: String,
    pub album: String,
    pub duration: String,
    pub file_path: String,
    pub comment: String,
}

// ---------------------------------------------------------------------------
// Decimal numbers in text
// ---------------------------------------------------------------------------

/// An ASCII decimal digit.
pub open spec fn is_digit(c: char) -> bool {
    '0' <= c && c <= '9'
}

/// The value of a string of decimal digits (0 for the empty string).
pub open spec fn digits_value(s: Seq<char>) -> nat
    decreases s.len(),
{
    if s.len() == 0 {
        0
    } else {
        digits_value(s.drop_last()) * 10 + ((s.last() as u32) - 48) as nat
    }
}

/// Whether `s` is a non-empty string of decimal digits.
pub open spec fn is_number(s: Seq<char>) -> bool {
    s.len() > 0 && forall|k: int| 0 <= k < s.len() ==> is_digit(#[trigger] s[k])
}

/// What `s.parse::<u32>()` yields: an optional `+` and at least one digit,
/// of a value that fits in a `u32`.
pub open spec fn parsed_u32(s: Seq<char>) -> Option<u32> {
    let d = if s.len() > 0 && s[0] == '+' {
        s.drop_first()
    } else {
        s
    };
    if is_number(d) && digits_value(d) <= u32::MAX {
        Some(digits_value(d) as u32)
    } else {
        None
    }
}

/// What `s.parse::<i32>()` yields: an optional sign and at least one digit,
/// of a value that fits in an `i32`.
pub open spec fn parsed_i32(s: Seq<char>) -> Option<i32> {
    let negative = s.len() > 0 && s[0] == '-';
    let d = if s.len() > 0 && (s[0] == '+' || s[0] == '-') {
        s.drop_first()
    } else {
        s
    };
    if !is_number(d) {
        None
    } else if negative {
        if digits_value(d) <= 2147483648 {
            Some((-digits_value(d)) as i32)
        } else {
            None
        }
    } else if digits_value(d) <= 2147483647 {
        Some(digits_value(d) as i32)
    } else {
        None
    }
}

proof fn lemma_digits_take(s: Seq<char>, i: int)
    requires
        0 <= i < s.len(),
    ensures
        digits_value(s.take(i + 1)) == digits_value(s.take(i)) * 10 + ((s[i] as u32) - 48) as nat,
{
    assert(s.take(i + 1).drop_last() =~= s.take(i));
}

proof fn lemma_digits_mono(s: Seq<char>, i: int)
    requires
        0 <= i <= s.len(),
    ensures
        digits_value(s.take(i)) <= digits_value(s),
    decreases s.len() - i,
{
    if i < s.len() {
        lemma_digits_take(s, i);
        lemma_digits_mono(s, i + 1);
    } else {
        assert(s.take(i) =~= s);
    }
}

/// The value of the digits of `s` from `from` on, when they are all digits,
/// there is at least one, and the value is at most `cap`.
fn digits_up_to(s: &[char], from: usize, cap: u64) -> (r: Option<u64>)
    requires
        from <= s@.len(),
        9 <= cap <= u32::MAX,
    ensures
        r == (if is_number(s@.skip(from as int)) && digits_value(s@.skip(from as int)) <= cap {
            Some(digits_value(s@.skip(from as int)) as u64)
        } else {
            None
        }),
{
    let n = s.len();
    let ghost d = s@.skip(from as int);
    if from == n {
        return None;
    }
    let mut i: usize = from;
    while i < n
        invariant
            n == s@.len(),
            from <= i <= n,
            d == s@.skip(from as int),
            forall|k: int| from <= k < i ==> is_digit(#[trigger] s@[k]),
        decreases n - i,
    {
        if !('0' <= s[i] && s[i] <= '9') {
            assert(d[i - from] == s@[i as int]);
            return None;
        }
        i = i + 1;
    }
    assert forall|k: int| 0 <= k < d.len() implies is_digit(#[trigger] d[k]) by {
        assert(d[k] == s@[k + from]);
    }
    let mut v: u64 = 0;
    let mut j: usize = from;
    assert(d.take(0) =~= Seq::<char>::empty());
    while j < n
        invariant
            n == s@.len(),
            from <= j <= n,
            d == s@.skip(from as int),
            9 <= cap <= u32::MAX,
            forall|k: int| 0 <= k < d.len() ==> is_digit(#[trigger] d[k]),
            v <= cap,
            v == digits_value(d.take(j - from)),
        decreases n - j,
    {
        let c = s[j];
        proof {
            assert(d[j - from] == c);
            lemma_digits_take(d, j - from);
            assert(j + 1 - from == (j - from) + 1);
            assert(is_digit(d[j - from]));
        }
        let dv: u64 = ((c as u32) - 48) as u64;
        if v > (cap - dv) / 10 {
            proof {
                lemma_digits_mono(d, j + 1 - from);
                assert(v * 10 + dv > cap) by (nonlinear_arith)
                    requires
                        v > (cap - dv) / 10,
                        dv <= cap || dv > cap,
                ;
            }
            return None;
        }
        proof {
            assert(v * 10 + dv <= cap) by (nonlinear_arith)
                requires
                    v <= (cap - dv) / 10,
                    dv <= 9,
            ;
        }
        v = v * 10 + dv;
        j = j + 1;
    }
    assert(d.take(n - from) =~= d);
    Some(v)
}

/// Parses a `u32` the way `str::parse::<u32>` does.
pub fn parse_u32(s: &[char]) -> (r: Option<u32>)
    ensures
        r == parsed_u32(s@),
{
    let from: usize = if s.len() > 0 && s[0] == '+' {
        1
    } else {
        0
    };
    proof {
        if from == 1 {
            assert(s@.skip(1) =~= s@.drop_first());
        } else {
            assert(s@.skip(0) =~= s@);
        }
    }
    match digits_up_to(s, from, 4294967295) {
        Some(v) => Some(v as u32),
        None => None,
    }
}

/// Parses an `i32` the way `str::parse::<i32>` does.
pub fn parse_i32(s: &[char]) -> (r: Option<i32>)
    ensures
        r == parsed_i32(s@),
{
    let negative = s.len() > 0 && s[0] == '-';
    let from: usize = if s.len() > 0 && (s[0] == '+' || s[0] == '-') {
        1
    } else {
        0
    };
    proof {
        if from == 1 {
            assert(s@.skip(1) =~= s@.drop_first());
        } else {
            assert(s@.skip(0) =~= s@);
        }
    }
    if negative {
        match digits_up_to(s, from, 2147483648) {
            Some(v) => Some((0 - (v as i64)) as i32),
            None => None,
        }
    } else {
        match digits_up_to(s, from, 2147483647) {
            Some(v) => Some(v as i32),
            None => None,
        }
    }
}

// ---------------------------------------------------------------------------
// Durations
// ---------------------------------------------------------------------------

/// A duration as Swinsian shows it, with the leading field rewritten
/// without leading zeros (`"03:45"` becomes `"3:45"`): the text before the
/// first `:` is read as a `u32` (0 when it is not one) and the rest is kept.
/// Text without `:` is kept as it is.
pub open spec fn normalized_duration(s: Seq<char>) -> Seq<char> {
    let k = until(s, ':');
    if k < s.len() {
        decimal(
            match parsed_u32(s.take(k as int)) {
                Some(v) => v as nat,
                None => 0,
            },
        ) + seq![':'] + s.skip(k + 1 as int)
    } else {
        s
    }
}

/// Rewrites the leading field of a duration without leading zeros.
pub fn normalize_duration(s: &str) -> (r: String)
    ensures
        r@ == normalized_duration(s@),
{
    let cs = chars_of(s);
    let k = find_char(cs.as_slice(), ':', 0);
    proof {
        assert(cs@.skip(0) =~= cs@);
    }
    if k == cs.len() {
        return String::from_str(s);
    }
    let first = slice_chars(cs.as_slice(), 0, k);
    let v = match parse_u32(first.as_slice()) {
        Some(v) => v,
        None => 0,
    };
    let mut out: Vec<char> = Vec::new();
    push_decimal(&mut out, v as u64);
    out.push(':');
    let rest = slice_chars(cs.as_slice(), k + 1, cs.len());
    push_all(&mut out, &rest);
    proof {
        assert(first@ =~= s@.take(k as int));
        assert(rest@ =~= s@.skip(k + 1));
    }
    string_of(&out)
}

/// The decimal text of a number reads back as that number.
pub proof fn lemma_decimal_value(n: nat)
    ensures
        is_number(decimal(n)),
        digits_value(decimal(n)) == n,
        decimal(n)[0] != '+',
        decimal(n)[0] != '-',
    decreases n,
{
    crate::session_log::lemma_decimal_digits(n);
    let r = (n % 10) as int;
    assert(0 <= r < 10);
    assert((crate::text::digit_char(r) as u32) == r + 48);
    if n >= 10 {
        lemma_decimal_value(n / 10);
        let d = decimal(n);
        assert(d.drop_last() == decimal(n / 10));
        assert(d.last() == crate::text::digit_char(r));
        assert(n == (n / 10) * 10 + r);
        assert(digits_value(d) == digits_value(d.drop_last()) * 10 + ((d.last() as u32) - 48) as nat);
        assert(digits_value(d) == (n / 10) * 10 + r);
    } else {
        let d = decimal(n);
        assert(d.drop_last() =~= Seq::<char>::empty());
        assert(digits_value(d) == digits_value(d.drop_last()) * 10 + ((d.last() as u32) - 48) as nat);
        assert(r == n);
    }
}

/// Normalizing a duration twice gives what normalizing once gives.
pub proof fn lemma_normalize_idempotent(s: Seq<char>)
    ensures
        normalized_duration(normalized_duration(s)) == normalized_duration(s),
{
    crate::text::lemma_until(s, ':');
    let k = until(s, ':');
    if k < s.len() {
        let v: nat = match parsed_u32(s.take(k as int)) {
            Some(x) => x as nat,
            None => 0,
        };
        let dv = decimal(v);
        let rest = s.skip(k + 1 as int);
        let t = dv + seq![':'] + rest;
        lemma_decimal_value(v);
        crate::session_log::lemma_decimal_digits(v);
        assert forall|i: int| 0 <= i < dv.len() implies #[trigger] t[i] != ':' by {
            assert(t[i] == dv[i]);
        }
        assert(t[dv.len() as int] == ':');
        crate::text::lemma_until_at(t, ':', dv.len() as int);
        assert(t.take(dv.len() as int) =~= dv);
        assert(t.skip(dv.len() + 1 as int) =~= rest);
        assert(parsed_u32(dv) == Some(v as u32));
    }
}

// ---------------------------------------------------------------------------
// Swinsian
// ---------------------------------------------------------------------------

/// What was read of one table cell through the Accessibility API: its
/// `AXValue` and `AXDescription`, and the `AXValue` of each of its children
/// (`None` where an attribute could not be read).
pub struct CellText {
    pub value: Option<String>,
    pub description: Option<String>,
    pub children: Option<Vec<Option<String>>>,
}

/// The characters of an attribute that could not be read count as empty.
pub open spec fn text_or_empty(t: Option<String>) -> Seq<char> {
    match t {
        Some(s) => s@,
        None => Seq::<char>::empty(),
    }
}

/// The first child value among `cs` that was read and is not empty.
pub open spec fn first_nonempty(cs: Seq<Option<String>>) -> Option<Seq<char>>
    decreases cs.len(),
{
    if cs.len() == 0 {
        None
    } else if text_or_empty(cs[0]).len() > 0 {
        Some(text_or_empty(cs[0]))
    } else {
        first_nonempty(cs.drop_first())
    }
}

/// The text shown in a cell: the first non-empty child value, else a
/// non-empty description, else the cell's own value (empty if unread).
pub open spec fn cell_text(c: CellText) -> Seq<char> {
    let from_children = match c.children {
        Some(cs) => first_nonempty(cs@),
        None => None,
    };
    match from_children {
        Some(v) => v,
        None => if text_or_empty(c.description).len() > 0 {
            text_or_empty(c.description)
        } else {
            text_or_empty(c.value)
        },
    }
}

fn text_of(t: &Option<String>) -> (r: Vec<char>)
    ensures
        r@ == text_or_empty(*t),
{
    match t {
        Some(s) => chars_of(s.as_str()),
        None => Vec::new(),
    }
}

fn first_nonempty_exec(cs: &Vec<Option<String>>) -> (r: Option<Vec<char>>)
    ensures
        match first_nonempty(cs@) {
            Some(v) => r matches Some(x) && x@ == v,
            None => r is None,
        },
{
    let n = cs.len();
    assert(cs@.skip(0) =~= cs@);
    for i in 0..n
        invariant
            n == cs@.len(),
            first_nonempty(cs@) == first_nonempty(cs@.skip(i as int)),
    {
        let t = text_of(&cs[i]);
        proof {
            assert(cs@.skip(i as int)[0] == cs@[i as int]);
            assert(cs@.skip(i as int).drop_first() =~= cs@.skip(i + 1));
        }
        if t.len() > 0 {
            return Some(t);
        }
    }
    assert(cs@.skip(n as int) =~= Seq::<Option<String>>::empty());
    None
}

/// The text shown in a cell.
pub fn cell_value(cell: &CellText) -> (v: Vec<char>)
    ensures
        v@ == cell_text(*cell),
{
    let from_children = match &cell.children {
        Some(cs) => first_nonempty_exec(cs),
        None => None,
    };
    match from_children {
        Some(v) => v,
        None => {
            let d = text_of(&cell.description);
            if d.len() > 0 {
                d
            } else {
                text_of(&cell.value)
            }
        },
    }
}

/// The first child value among `cs` that starts with `/`.
pub open spec fn first_path(cs: Seq<Option<String>>) -> Option<Seq<char>>
    decreases cs.len(),
{
    if cs.len() == 0 {
        None
    } else if starts_with_slash(text_or_empty(cs[0])) {
        Some(text_or_empty(cs[0]))
    } else {
        first_path(cs.drop_first())
    }
}

pub open spec fn starts_with_slash(s: Seq<char>) -> bool {
    s.len() > 0 && s[0] == '/'
}

/// The file path of a cell: its description, its value, or one of its
/// child values, the first of these that starts with `/`.
pub open spec fn cell_path(c: CellText) -> Option<Seq<char>> {
    if starts_with_slash(text_or_empty(c.description)) {
        Some(text_or_empty(c.description))
    } else if starts_with_slash(text_or_empty(c.value)) {
        Some(text_or_empty(c.value))
    } else {
        match c.children {
            Some(cs) => first_path(cs@),
            None => None,
        }
    }
}

/// The file path found in the first cell, in order, that holds one.
pub open spec fn path_in_cells(cells: Seq<CellText>) -> Option<Seq<char>>
    decreases cells.len(),
{
    if cells.len() == 0 {
        None
    } else {
        match cell_path(cells[0]) {
            Some(p) => Some(p),
            None => path_in_cells(cells.drop_first()),
        }
    }
}

fn starts_with_slash_exec(v: &Vec<char>) -> (b: bool)
    ensures
        b == starts_with_slash(v@),
{
    v.len() > 0 && v[0] == '/'
}

fn first_path_exec(cs: &Vec<Option<String>>) -> (r: Option<Vec<char>>)
    ensures
        match first_path(cs@) {
            Some(v) => r matches Some(x) && x@ == v,
            None => r is None,
        },
{
    let n = cs.len();
    assert(cs@.skip(0) =~= cs@);
    for i in 0..n
        invariant
            n == cs@.len(),
            first_path(cs@) == first_path(cs@.skip(i as int)),
    {
        let t = text_of(&cs[i]);
        proof {
            assert(cs@.skip(i as int)[0] == cs@[i as int]);
            assert(cs@.skip(i as int).drop_first() =~= cs@.skip(i + 1));
        }
        if starts_with_slash_exec(&t) {
            return Some(t);
        }
    }
    assert(cs@.skip(n as int) =~= Seq::<Option<String>>::empty());
    None
}

fn cell_path_exec(c: &CellText) -> (r: Option<Vec<char>>)
    ensures
        match cell_path(*c) {
            Some(v) => r matches Some(x) && x@ == v,
            None => r is None,
        },
{
    let d = text_of(&c.description);
    if starts_with_slash_exec(&d) {
        return Some(d);
    }
    let v = text_of(&c.value);
    if starts_with_slash_exec(&v) {
        return Some(v);
    }
    match &c.children {
        Some(cs) => first_path_exec(cs),
        None => None,
    }
}

/// The file path shown in a row's cells, if any of them holds one.
pub fn file_path_from_cells(cells: &Vec<CellText>) -> (r: Option<String>)
    ensures
        match path_in_cells(cells@) {
            Some(p) => r matches Some(x) && x@ == p,
            None => r is None,
        },
{
    let n = cells.len();
    assert(cells@.skip(0) =~= cells@);
    for i in 0..n
        invariant
            n == cells@.len(),
            path_in_cells(cells@) == path_in_cells(cells@.skip(i as int)),
    {
        proof {
            assert(cells@.skip(i as int)[0] == cells@[i as int]);
            assert(cells@.skip(i as int).drop_first() =~= cells@.skip(i + 1));
        }
        match cell_path_exec(&cells[i]) {
            Some(p) => {
                return Some(string_of(&p));
            },
            None => {},
        }
    }
    assert(cells@.skip(n as int) =~= Seq::<CellText>::empty());
    None
}

/// The text of cell `i` of a row, or nothing when the row is shorter.
pub open spec fn column(cells: Seq<CellText>, i: int) -> Seq<char> {
    if cells.len() > i {
        cell_text(cells[i])
    } else {
        Seq::<char>::empty()
    }
}

fn column_exec(cells: &Vec<CellText>, i: usize) -> (v: Vec<char>)
    ensures
        v@ == column(cells@, i as int),
{
    if cells.len() > i {
        cell_value(&cells[i])
    } else {
        Vec::new()
    }
}

/// The track that a selected Swinsian row shows: title, artist and album in
/// columns 5, 6 and 9, the duration in column 3 (normalized), and the first
/// file path among the cells.
pub fn swinsian_track(cells: &Vec<CellText>) -> (t: TrackInfo)
    ensures
        t.source@ == "Swinsian"@,
        t.title@ == column(cells@, 5),
        t.artist@ == column(cells@, 6),
        t.album@ == column(cells@, 9),
        t.duration@ == (if cells@.len() > 3 {
            normalized_duration(cell_text(cells@[3]))
        } else {
            Seq::<char>::empty()
        }),
        t.file_path@ == match path_in_cells(cells@) {
            Some(p) => p,
            None => Seq::<char>::empty(),
        },
        t.comment@ == Seq::<char>::empty(),
{
    let title = string_of(&column_exec(cells, 5));
    let artist = string_of(&column_exec(cells, 6));
    let album = string_of(&column_exec(cells, 9));
    let duration = if cells.len() > 3 {
        let d = string_of(&cell_value(&cells[3]));
        normalize_duration(d.as_str())
    } else {
        String::new()
    };
    let file_path = match file_path_from_cells(cells) {
        Some(p) => p,
        None => String::new(),
    };
    TrackInfo {
        source: String::from_str("Swinsian"),
        title,
        artist,
        album,
        duration,
        file_path,
        comment: String::new(),
    }
}

// ---------------------------------------------------------------------------
// Music.app
// ---------------------------------------------------------------------------

/// The tab-separated fields that the Music.app AppleScript prints.
pub struct ItunesFields {
    pub title: String,
    pub artist: String,
    pub album_artist: String,
    pub album: String,
    /// The POSIX path of the track's file (empty when Music.app has none).
    pub location: String,
    /// The duration in seconds, as AppleScript prints a real number.
    pub duration: String,
}

/// The fields of the AppleScript output `out`: its trimmed text split at
/// tabs.
pub open spec fn itunes_pieces(out: Seq<char>) -> Seq<Seq<char>> {
    split_on(trim(out), '\t')
}

/// Splits the trimmed output of the Music.app AppleScript at tabs into
/// title, artist, album artist, album, location and duration; `None` when
/// there are fewer than six fields.  The location comes before the duration,
/// so trimming the output never shortens a path.
pub fn split_itunes_output(out: &str) -> (r: Option<ItunesFields>)
    ensures
        itunes_pieces(out@).len() < 6 ==> r is None,
        itunes_pieces(out@).len() >= 6 ==> (r matches Some(f) && f.title@ == itunes_pieces(out@)[0]
            && f.artist@ == itunes_pieces(out@)[1] && f.album_artist@ == itunes_pieces(out@)[2]
            && f.album@ == itunes_pieces(out@)[3] && f.location@ == itunes_pieces(out@)[4]
            && f.duration@ == itunes_pieces(out@)[5]),
{
    let cs = chars_of(out);
    let t = trimmed(cs.as_slice());
    let ps = split_char(&t, '\t');
    if ps.len() < 6 {
        return None;
    }
    proof {
        assert(views(ps@)[0] == ps@[0]@);
        assert(views(ps@)[1] == ps@[1]@);
        assert(views(ps@)[2] == ps@[2]@);
        assert(views(ps@)[3] == ps@[3]@);
        assert(views(ps@)[4] == ps@[4]@);
        assert(views(ps@)[5] == ps@[5]@);
    }
    Some(
        ItunesFields {
            title: string_of(&ps[0]),
            artist: string_of(&ps[1]),
            album_artist: string_of(&ps[2]),
            album: string_of(&ps[3]),
            location: string_of(&ps[4]),
            duration: string_of(&ps[5]),
        },
    )
}

/// `M:SS` for a duration of `total` seconds.
pub open spec fn minutes_seconds(total: nat) -> Seq<char> {
    decimal(total / 60) + seq![':'] + pad2(total % 60)
}

/// A duration reads as its whole minutes, a colon and exactly two digits of
/// seconds: the tens and the units of the seconds left over.
pub proof fn lemma_duration_digits(total: nat)
    ensures
        minutes_seconds(total) == decimal(total / 60) + seq![
            ':',
            crate::text::digit_char(((total % 60) / 10) as int),
            crate::text::digit_char(((total % 60) % 10) as int),
        ],
        minutes_seconds(total).len() == decimal(total / 60).len() + 3,
        digits_value(decimal(total / 60)) == total / 60,
{
    crate::text::lemma_pad2_digits(total % 60);
    lemma_decimal_value(total / 60);
    assert(minutes_seconds(total) =~= decimal(total / 60) + seq![
        ':',
        crate::text::digit_char(((total % 60) / 10) as int),
        crate::text::digit_char(((total % 60) % 10) as int),
    ]);
}

/// The track that Music.app reports: its fields, the artist falling back to
/// the album artist when empty, and the duration (already read as whole
/// seconds) written as `M:SS`, and the file path taken from the location.
pub fn itunes_track(f: &ItunesFields, total_secs: u64) -> (t: TrackInfo)
    ensures
        t.source@ == "iTunes"@,
        t.title@ == f.title@,
        t.artist@ == if f.artist@.len() == 0 {
            f.album_artist@
        } else {
            f.artist@
        },
        t.album@ == f.album@,
        t.duration@ == minutes_seconds(total_secs as nat),
        t.file_path@ == f.location@,
        t.comment@ == Seq::<char>::empty(),
{
    let mut d: Vec<char> = Vec::new();
    push_decimal(&mut d, total_secs / 60);
    d.push(':');
    push_pad2(&mut d, total_secs % 60);
    let artist = if f.artist.as_str().is_empty() {
        f.album_artist.clone()
    } else {
        f.artist.clone()
    };
    TrackInfo {
        source: String::from_str("iTunes"),
        title: f.title.clone(),
        artist,
        album: f.album.clone(),
        duration: string_of(&d),
        file_path: f.location.clone(),
        comment: String::new(),
    }
}

/// A window of Swinsian as its Accessibility tree shows it: its role, and
/// for each table inside it (in tree order) whether a row is selected.
pub struct WindowState {
    pub role: String,
    pub tables: Vec<bool>,
}

/// Table `t` of window `w` holds the selection: the window is a real
/// window (`AXWindow`, not a tooltip or help tag) and the table has a
/// selected row.
pub open spec fn offers_selection(w: WindowState, t: int) -> bool {
    w.role@ == "AXWindow"@ && 0 <= t < w.tables@.len() && w.tables@[t]
}

/// The table of Swinsian's windows to read the selection from: the first
/// table with a selected row in the first real window that has one, as
/// (window index, table index).
pub fn first_selected_table(windows: &Vec<WindowState>) -> (r: Option<(usize, usize)>)
    ensures
        match r {
            Some((w, t)) => w < windows@.len() && offers_selection(windows@[w as int], t as int)
                && (forall|v: int, u: int|
                0 <= v < w ==> !#[trigger] offers_selection(windows@[v], u)) && (forall|u: int|
                0 <= u < t ==> !#[trigger] offers_selection(windows@[w as int], u)),
            None => forall|v: int, u: int|
                0 <= v < windows@.len() ==> !#[trigger] offers_selection(windows@[v], u),
        },
{
    let role = chars_of("AXWindow");
    for w in 0..windows.len()
        invariant
            role@ == "AXWindow"@,
            forall|v: int, u: int| 0 <= v < w ==> !#[trigger] offers_selection(windows@[v], u),
    {
        let win = &windows[w];
        let cs = chars_of(win.role.as_str());
        if same_chars(cs.as_slice(), role.as_slice()) {
            for t in 0..win.tables.len()
                invariant
                    w < windows@.len(),
                    *win == windows@[w as int],
                    win.role@ == "AXWindow"@,
                    forall|v: int, u: int|
                        0 <= v < w ==> !#[trigger] offers_selection(windows@[v], u),
                    forall|u: int| 0 <= u < t ==> !#[trigger] offers_selection(*win, u),
            {
                if win.tables[t] {
                    return Some((w, t));
                }
            }
        }
    }
    None
}

/// The track Music.app yields when its selection's metadata cannot be read
/// through AppleScript: the source alone, every other field empty.
pub fn itunes_unknown_track() -> (t: TrackInfo)
    ensures
        t.source@ == "iTunes"@,
        t.title@ == Seq::<char>::empty(),
        t.artist@ == Seq::<char>::empty(),
        t.album@ == Seq::<char>::empty(),
        t.duration@ == Seq::<char>::empty(),
        t.file_path@ == Seq::<char>::empty(),
        t.comment@ == Seq::<char>::empty(),
{
    TrackInfo {
        source: String::from_str("iTunes"),
        title: String::new(),
        artist: String::new(),
        album: String::new(),
        duration: String::new(),
        file_path: String::new(),
        comment: String::new(),
    }
}

/// A table of Music.app's window: its `AXIdentifier` and whether it has a
/// selected row.
pub struct TableState {
    pub identifier: String,
    pub has_selection: bool,
}

/// The table holding the selected track: the track list (`trackTable`)
/// with a selected row.
pub open spec fn is_selected_track_table(t: TableState) -> bool {
    t.identifier@ == "trackTable"@ && t.has_selection
}

/// The first table of Music.app's window that is the track list with a
/// selected row, if any.
pub fn first_track_table(tables: &Vec<TableState>) -> (r: Option<usize>)
    ensures
        match r {
            Some(i) => i < tables@.len() && is_selected_track_table(tables@[i as int]) && forall|
                j: int,
            | 0 <= j < i ==> !is_selected_track_table(#[trigger] tables@[j]),
            None => forall|j: int|
                0 <= j < tables@.len() ==> !is_selected_track_table(#[trigger] tables@[j]),
        },
{
    let id = chars_of("trackTable");
    for i in 0..tables.len()
        invariant
            id@ == "trackTable"@,
            forall|j: int| 0 <= j < i ==> !is_selected_track_table(#[trigger] tables@[j]),
    {
        let t = &tables[i];
        let cs = chars_of(t.identifier.as_str());
        if t.has_selection && same_chars(cs.as_slice(), id.as_slice()) {
            return Some(i);
        }
    }
    None
}

// ---------------------------------------------------------------------------
// Which player to ask
// ---------------------------------------------------------------------------

/// A running player: its process id and whether it is the active
/// application.
#[derive(PartialEq, Eq, Structural, Clone, Copy, Debug)]
pub struct RunningPlayer {
    pub pid: i32,
    pub active: bool,
}

/// A player to read the selection from.
#[derive(PartialEq, Eq, Structural, Clone, Copy, Debug)]
pub struct Candidate {
    pub pid: i32,
    pub is_swinsian: bool,
}

#[derive(PartialEq, Eq, Structural, Clone, Copy, Debug)]
pub enum TrackError {
    /// Neither Swinsian nor Music.app is running.
    NoPlayerRunning,
}

/// The player if it is running and its `active` flag equals `active`.
pub open spec fn pick(p: Option<RunningPlayer>, swinsian: bool, active: bool) -> Seq<Candidate> {
    match p {
        Some(r) => if r.active == active {
            seq![Candidate { pid: r.pid, is_swinsian: swinsian }]
        } else {
            seq![]
        },
        None => seq![],
    }
}

/// The order in which players are asked: active ones before inactive ones,
/// Swinsian before Music.app within each group.
pub open spec fn candidate_order(swinsian: Option<RunningPlayer>, itunes: Option<RunningPlayer>) -> Seq<
    Candidate,
> {
    pick(swinsian, true, true) + pick(itunes, false, true) + pick(swinsian, true, false) + pick(
        itunes,
        false,
        false,
    )
}

fn push_pick(out: &mut Vec<Candidate>, p: Option<RunningPlayer>, swinsian: bool, active: bool)
    ensures
        final(out)@ == old(out)@ + pick(p, swinsian, active),
{
    match p {
        Some(r) => {
            if r.active == active {
                out.push(Candidate { pid: r.pid, is_swinsian: swinsian });
            }
        },
        None => {},
    }
    assert(final(out)@ =~= old(out)@ + pick(p, swinsian, active));
}

/// The players to ask for the selected track, in order; an error when
/// neither is running.
pub fn candidates(swinsian: Option<RunningPlayer>, itunes: Option<RunningPlayer>) -> (r: Result<
    Vec<Candidate>,
    TrackError,
>)
    ensures
        (swinsian is None && itunes is None) ==> r == Err::<Vec<Candidate>, TrackError>(
            TrackError::NoPlayerRunning,
        ),
        !(swinsian is None && itunes is None) ==> (r matches Ok(v) && v@ == candidate_order(
            swinsian,
            itunes,
        )),
{
    if swinsian.is_none() && itunes.is_none() {
        return Err(TrackError::NoPlayerRunning);
    }
    let mut v: Vec<Candidate> = Vec::new();
    push_pick(&mut v, swinsian, true, true);
    push_pick(&mut v, itunes, false, true);
    push_pick(&mut v, swinsian, true, false);
    push_pick(&mut v, itunes, false, false);
    assert(v@ =~= candidate_order(swinsian, itunes));
    Ok(v)
}

/// Every running player is asked exactly once, and an active player is
/// asked before any inactive one.
pub proof fn lemma_candidates_cover(swinsian: Option<RunningPlayer>, itunes: Option<RunningPlayer>)
    ensures
        candidate_order(swinsian, itunes).len() == (if swinsian is Some {
            1int
        } else {
            0
        }) + (if itunes is Some {
            1int
        } else {
            0
        }),
        swinsian matches Some(s) ==> candidate_order(swinsian, itunes).contains(
            Candidate { pid: s.pid, is_swinsian: true },
        ),
        itunes matches Some(i) ==> candidate_order(swinsian, itunes).contains(
            Candidate { pid: i.pid, is_swinsian: false },
        ),
        forall|a: int, b: int|
            0 <= a < b < candidate_order(swinsian, itunes).len() && #[trigger] is_active_candidate(
                swinsian,
                itunes,
                candidate_order(swinsian, itunes)[b],
            ) ==> is_active_candidate(swinsian, itunes, #[trigger] candidate_order(swinsian, itunes)[a]),
{
    let o = candidate_order(swinsian, itunes);
    if let Some(s) = swinsian {
        let c = Candidate { pid: s.pid, is_swinsian: true };
        if s.active {
            assert(o[0] == c);
        } else {
            assert(o[o.len() - 1 - pick(itunes, false, false).len()] == c);
        }
    }
    if let Some(i) = itunes {
        let c = Candidate { pid: i.pid, is_swinsian: false };
        if i.active {
            assert(o[pick(swinsian, true, true).len() as int] == c);
        } else {
            assert(o[o.len() - 1] == c);
        }
    }
}

/// Whether a candidate is the active one of the two players.
pub open spec fn is_active_candidate(
    swinsian: Option<RunningPlayer>,
    itunes: Option<RunningPlayer>,
    c: Candidate,
) -> bool {
    if c.is_swinsian {
        swinsian matches Some(s) && s.active
    } else {
        itunes matches Some(i) && i.active
    }
}

} // verus!
