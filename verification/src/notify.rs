//! macOS notifications through `osascript`'s `display notification`: the
//! texts of a notification and the AppleScript that shows it.  Running
//! `osascript` is left to the caller.
use vstd::prelude::*;

use crate::text::{chars_of, decimal, push_all, push_decimal, push_str, string_of};
use crate::track::TrackInfo;

verus! {

/// The text of one character inside an AppleScript string literal:
/// backslash and double quote are escaped, line breaks become spaces.
pub open spec fn escape_char(c: char) -> Seq<char> {
    if c == '\\' {
        seq!['\\', '\\']
    } else if c == '"' {
        seq!['\\', '"']
    } else if c == '\n' || c == '\r' {
        seq![' ']
    } else {
        seq![c]
    }
}

/// `s` escaped for an AppleScript string literal, character by character.
pub open spec fn escaped(s: Seq<char>) -> Seq<char>
    decreases s.len(),
{
    if s.len() == 0 {
        seq![]
    } else {
        escape_char(s[0]) + escaped(s.drop_first())
    }
}

/// Escapes `s` for use inside a double-quoted AppleScript string: `\` and
/// `"` get a backslash, `\n` and `\r` become spaces.
pub fn escape_applescript(s: &str) -> (e: String)
    ensures
        e@ == escaped(s@),
{
    let cs = chars_of(s);
    let n = cs.len();
    let mut out: Vec<char> = Vec::new();
    assert(cs@.skip(0) =~= cs@);
    assert(out@ + escaped(cs@) =~= escaped(cs@));
    for i in 0..n
        invariant
            n == cs@.len(),
            cs@ == s@,
            escaped(s@) == out@ + escaped(cs@.skip(i as int)),
    {
        let c = cs[i];
        let ghost before = out@;
        if c == '\\' {
            out.push('\\');
            out.push('\\');
        } else if c == '"' {
            out.push('\\');
            out.push('"');
        } else if c == '\n' || c == '\r' {
            out.push(' ');
        } else {
            out.push(c);
        }
        proof {
            let rest = cs@.skip(i as int);
            assert(rest[0] == c);
            assert(rest.drop_first() =~= cs@.skip(i + 1));
            assert(out@ =~= before + escape_char(c));
            assert(out@ + escaped(cs@.skip(i + 1)) =~= before + (escape_char(c) + escaped(
                cs@.skip(i + 1),
            )));
        }
    }
    assert(cs@.skip(n as int) =~= Seq::<char>::empty());
    assert(out@ + Seq::<char>::empty() =~= out@);
    string_of(&out)
}

/// How AppleScript reads the body of a string literal: a backslash takes
/// the next character literally.
pub open spec fn unescaped(t: Seq<char>) -> Seq<char>
    decreases t.len(),
{
    if t.len() == 0 {
        seq![]
    } else if t[0] == '\\' && t.len() >= 2 {
        seq![t[1]] + unescaped(t.skip(2))
    } else {
        seq![t[0]] + unescaped(t.drop_first())
    }
}

/// Whether `t` can stand between the quotes of an AppleScript string
/// literal: no bare `"` that would close it early, and no backslash left
/// without a character to escape (it would escape the closing quote).
pub open spec fn quote_safe(t: Seq<char>) -> bool
    decreases t.len(),
{
    if t.len() == 0 {
        true
    } else if t[0] == '\\' {
        t.len() >= 2 && quote_safe(t.skip(2))
    } else {
        t[0] != '"' && quote_safe(t.drop_first())
    }
}

/// `s` with each line break replaced by a space.
pub open spec fn breaks_to_spaces(s: Seq<char>) -> Seq<char> {
    s.map_values(|c: char| if c == '\n' || c == '\r' { ' ' } else { c })
}

/// What escaping promises: the escaped text stays inside its string literal
/// and AppleScript reads back the original text, line breaks turned into
/// spaces.
pub proof fn lemma_escape_round_trip(s: Seq<char>)
    ensures
        quote_safe(escaped(s)),
        unescaped(escaped(s)) == breaks_to_spaces(s),
    decreases s.len(),
{
    if s.len() > 0 {
        lemma_escape_round_trip(s.drop_first());
        let c = s[0];
        let e = escape_char(c);
        let rest = escaped(s.drop_first());
        let t = e + rest;
        assert(escaped(s) == t);
        if e.len() == 2 {
            assert(t.skip(2) =~= rest);
        } else {
            assert(t.drop_first() =~= rest);
        }
        assert(breaks_to_spaces(s) =~= seq![breaks_to_spaces(s)[0]] + breaks_to_spaces(
            s.drop_first(),
        ));
    } else {
        assert(breaks_to_spaces(s) =~= Seq::<char>::empty());
    }
}

/// The three texts of a notification.
pub struct Notification {
    pub title: String,
    pub subtitle: String,
    pub message: String,
}

/// `display notification "<message>" with title "<title>" subtitle "<subtitle>"`,
/// each text escaped.
pub open spec fn notification_script_text(title: Seq<char>, subtitle: Seq<char>, message: Seq<
    char,
>) -> Seq<char> {
    "display notification \""@ + escaped(message) + "\" with title \""@ + escaped(title)
        + "\" subtitle \""@ + escaped(subtitle) + "\""@
}

impl Notification {
    /// The AppleScript that displays this notification.
    pub fn script(&self) -> (s: String)
        ensures
            s@ == notification_script_text(self.title@, self.subtitle@, self.message@),
    {
        let m = escape_applescript(self.message.as_str());
        let t = escape_applescript(self.title.as_str());
        let st = escape_applescript(self.subtitle.as_str());
        let mut out: Vec<char> = Vec::new();
        push_str(&mut out, "display notification \"");
        push_str(&mut out, m.as_str());
        push_str(&mut out, "\" with title \"");
        push_str(&mut out, t.as_str());
        push_str(&mut out, "\" subtitle \"");
        push_str(&mut out, st.as_str());
        push_str(&mut out, "\"");
        assert(out@ =~= notification_script_text(self.title@, self.subtitle@, self.message@));
        string_of(&out)
    }
}

/// The title of the notification for a track loaded on `deck`.
pub open spec fn success_title(deck: u8) -> Seq<char> {
    "✅ デッキ "@ + decimal(deck as nat) + " にロード"@
}

/// The success title names the deck that was loaded: between its fixed
/// beginning and end stand the decimal digits of exactly that deck, so
/// loads on different decks never get the same title.
pub proof fn lemma_success_title_deck(a: u8, b: u8)
    ensures
        success_title(a).len() == decimal(a as nat).len() + 11,
        success_title(a).take(6) == seq!['✅', ' ', 'デ', 'ッ', 'キ', ' '],
        success_title(a).skip(success_title(a).len() - 5) == seq![' ', 'に', 'ロ', 'ー', 'ド'],
        crate::track::digits_value(success_title(a).subrange(6, success_title(a).len() - 5))
            == a,
        success_title(a) == success_title(b) ==> a == b,
{
    reveal_strlit("✅ デッキ ");
    reveal_strlit(" にロード");
    let pre = seq!['✅', ' ', 'デ', 'ッ', 'キ', ' '];
    let post = seq![' ', 'に', 'ロ', 'ー', 'ド'];
    assert("✅ デッキ "@ =~= pre);
    assert(" にロード"@ =~= post);
    let ta = success_title(a);
    let tb = success_title(b);
    let da = decimal(a as nat);
    let db = decimal(b as nat);
    assert(ta =~= pre + da + post);
    assert(tb =~= pre + db + post);
    assert(ta.take(6) =~= pre);
    assert(ta.skip(ta.len() - 5) =~= post);
    assert(ta.subrange(6, ta.len() - 5) =~= da);
    assert(tb.subrange(6, tb.len() - 5) =~= db);
    crate::track::lemma_decimal_value(a as nat);
    crate::track::lemma_decimal_value(b as nat);
}

/// The notification for a track loaded on `deck`: the deck in the title,
/// `artist - title` (or the bare title when there is no artist) as
/// subtitle, and the comment after a speech balloon as message (none when
/// there is no comment).
pub fn notify_success(track: &TrackInfo, deck: u8) -> (n: Notification)
    ensures
        n.title@ == success_title(deck),
        n.subtitle@ == if track.artist@.len() == 0 {
            track.title@
        } else {
            track.artist@ + " - "@ + track.title@
        },
        n.message@ == if track.comment@.len() == 0 {
            Seq::<char>::empty()
        } else {
            "💬 "@ + track.comment@
        },
{
    let mut t: Vec<char> = Vec::new();
    push_str(&mut t, "✅ デッキ ");
    push_decimal(&mut t, deck as u64);
    push_str(&mut t, " にロード");
    let title = string_of(&t);
    let subtitle = if track.artist.as_str().is_empty() {
        track.title.clone()
    } else {
        let mut s: Vec<char> = Vec::new();
        push_str(&mut s, track.artist.as_str());
        push_str(&mut s, " - ");
        push_str(&mut s, track.title.as_str());
        string_of(&s)
    };
    let message = if track.comment.as_str().is_empty() {
        String::new()
    } else {
        let mut m: Vec<char> = Vec::new();
        push_str(&mut m, "💬 ");
        push_str(&mut m, track.comment.as_str());
        string_of(&m)
    };
    Notification { title, subtitle, message }
}

/// The notification for a failed load: a fixed title and the error message
/// as subtitle.
pub fn notify_error(error_message: &str) -> (n: Notification)
    ensures
        n.title@ == "❌ エラー"@,
        n.subtitle@ == error_message@,
        n.message@ == Seq::<char>::empty(),
{
    Notification {
        title: String::from_str("❌ エラー"),
        subtitle: String::from_str(error_message),
        message: String::new(),
    }
}

/// Severity of a log record.
#[derive(PartialEq, Eq, Structural, Clone, Copy, Debug)]
pub enum LogLevel {
    Error,
    Warn,
    Info,
    Debug,
    Trace,
}

/// `s` with each `"` preceded by a backslash (`s.replace('"', "\\\"")`).
pub open spec fn quotes_escaped(s: Seq<char>) -> Seq<char>
    decreases s.len(),
{
    if s.len() == 0 {
        seq![]
    } else {
        (if s[0] == '"' {
            seq!['\\', '"']
        } else {
            seq![s[0]]
        }) + quotes_escaped(s.drop_first())
    }
}

fn escape_quotes(s: &str) -> (e: Vec<char>)
    ensures
        e@ == quotes_escaped(s@),
{
    let cs = chars_of(s);
    let n = cs.len();
    let mut out: Vec<char> = Vec::new();
    assert(cs@.skip(0) =~= cs@);
    assert(out@ + quotes_escaped(cs@) =~= quotes_escaped(cs@));
    for i in 0..n
        invariant
            n == cs@.len(),
            cs@ == s@,
            quotes_escaped(s@) == out@ + quotes_escaped(cs@.skip(i as int)),
    {
        let c = cs[i];
        let ghost before = out@;
        if c == '"' {
            out.push('\\');
            out.push('"');
        } else {
            out.push(c);
        }
        proof {
            let rest = cs@.skip(i as int);
            assert(rest[0] == c);
            assert(rest.drop_first() =~= cs@.skip(i + 1));
            let piece = if c == '"' {
                seq!['\\', '"']
            } else {
                seq![c]
            };
            assert(out@ =~= before + piece);
            assert(out@ + quotes_escaped(cs@.skip(i + 1)) =~= before + (piece + quotes_escaped(
                cs@.skip(i + 1),
            )));
        }
    }
    assert(cs@.skip(n as int) =~= Seq::<char>::empty());
    assert(out@ + Seq::<char>::empty() =~= out@);
    out
}

/// The title of the notification that a log record of level `level` gets:
/// only errors are shown as notifications.
pub open spec fn alert_title(level: LogLevel) -> Option<Seq<char>> {
    match level {
        LogLevel::Error => Some("djay-audio-loader: エラー"@),
        _ => None,
    }
}

/// The AppleScript that shows a log record as a notification, or `None`
/// for the levels that are not shown (all but errors): the message and the
/// title with their double quotes escaped.
pub fn log_alert_script(level: LogLevel, message: &str) -> (s: Option<String>)
    ensures
        match alert_title(level) {
            Some(title) => s matches Some(t) && t@ == "display notification \""@
                + quotes_escaped(message@) + "\" with title \""@ + quotes_escaped(title) + "\""@,
            None => s is None,
        },
{
    match level {
        LogLevel::Error => {
            let title = "djay-audio-loader: エラー";
            let m = escape_quotes(message);
            let t = escape_quotes(title);
            let mut out: Vec<char> = Vec::new();
            push_str(&mut out, "display notification \"");
            push_all(&mut out, &m);
            push_str(&mut out, "\" with title \"");
            push_all(&mut out, &t);
            push_str(&mut out, "\"");
            assert(out@ =~= "display notification \""@ + quotes_escaped(message@)
                + "\" with title \""@ + quotes_escaped(title@) + "\""@);
            Some(string_of(&out))
        },
        _ => None,
    }
}

} // verus!
