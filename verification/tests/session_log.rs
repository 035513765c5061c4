use djay_audio_loader::session_dir::frontmatter;
use djay_audio_loader::session_log::{
    count_entries, first_entry_time, format_elapsed, render_line, session_line,
    DEFAULT_LINE_TEMPLATE,
};

fn session_header() -> String {
    frontmatter("2026-06-26-2315", "2026-06-26", "2026-06-26T23:15:00+09:00")
}

#[test]
fn render_line_fills_default_template() {
    let line = render_line(
        DEFAULT_LINE_TEMPLATE,
        3,
        "12:34:56",
        "0:05:00",
        1,
        "Song",
        "Artist",
        "",
    );
    assert_eq!(line, "- 003. **12:34:56** (+0:05:00) Deck 1｜Song / Artist");
}

#[test]
fn render_line_replaces_in_order() {
    // a title holding a later variable's name has it replaced as well
    let line = render_line("{title}|{artwork}", 1, "", "", 2, "x{artist}y", "A", "art.jpg");
    assert_eq!(line, "xAy|art.jpg");
    // a variable's name in an earlier value stays once its turn has passed
    let line = render_line("{artist}", 1, "", "", 2, "", "{no}", "");
    assert_eq!(line, "{no}");
    let line = render_line("{no}{no}-{deck}", 42, "", "", 255, "", "", "");
    assert_eq!(line, "042042-255");
}

#[test]
fn count_entries_counts_body_lines() {
    let header = session_header();
    assert_eq!(count_entries(&header), 0);
    let one = format!("{}1. **23:15:30** (+0:00:00) Deck 1 | A / B\n", header);
    assert_eq!(count_entries(&one), 1);
    let two = format!("{}\n   \n2. **23:20:00** (+0:04:30) Deck 2 | C / D\r\n", one);
    assert_eq!(count_entries(&two), 2);
    // a delimiter in the body is not an entry
    let three = format!("{}---\nthird\n", two);
    assert_eq!(count_entries(&three), 3);
    // no front matter: nothing counts
    assert_eq!(count_entries("a\nb\nc\n"), 0);
    assert_eq!(count_entries(""), 0);
    assert_eq!(count_entries("---\n---\nx"), 1);
    assert_eq!(count_entries("  ---  \n\t---\r\nx\ny"), 2);
}

#[test]
fn first_entry_time_reads_the_first_entry() {
    let header = session_header();
    assert_eq!(first_entry_time(&header), None);
    let one = format!("{}1. **23:15:30** (+0:00:00) Deck 1 | A / B\n", header);
    assert_eq!(first_entry_time(&one), Some(23 * 3600 + 15 * 60 + 30));
    let two = format!("{}2. **23:20:00** (+0:04:30) Deck 2 | C / D\n", one);
    assert_eq!(first_entry_time(&two), Some(23 * 3600 + 15 * 60 + 30));
    // the first entry decides, even when its time is unreadable
    let bad = format!("{}1. **noon** x\n2. **10:00:00** y\n", header);
    assert_eq!(first_entry_time(&bad), None);
    let no_marks = format!("{}1. 10:00:00\n", header);
    assert_eq!(first_entry_time(&no_marks), None);
    let one_mark = format!("{}1. **10:00:00\n", header);
    assert_eq!(first_entry_time(&one_mark), None);
    assert_eq!(first_entry_time("---\n---\n**00:00:00**\n"), Some(0));
    assert_eq!(first_entry_time("---\n---\n**24:00:00**\n"), None);
}

#[test]
fn format_elapsed_examples() {
    assert_eq!(format_elapsed(0), "0:00:00");
    assert_eq!(format_elapsed(59), "0:00:59");
    assert_eq!(format_elapsed(330), "0:05:30");
    assert_eq!(format_elapsed(3661), "1:01:01");
    assert_eq!(format_elapsed(36000), "10:00:00");
    assert_eq!(format_elapsed(360000 + 7), "100:00:07");
    assert_eq!(format_elapsed(-5), "0:00:-5");
    assert_eq!(format_elapsed(-3661), "-1:-1:-1");
    assert_eq!(format_elapsed(i64::MAX), "2562047788015215:30:07");
    assert_eq!(format_elapsed(i64::MIN), "-2562047788015215:-30:-8");
}

#[test]
fn format_elapsed_matches_std_format() {
    for n in [-7200i64, -61, -1, 1, 9, 10, 600, 3599, 3600, 86399, 123456789] {
        let expected = format!("{}:{:02}:{:02}", n / 3600, (n % 3600) / 60, n % 60);
        assert_eq!(format_elapsed(n), expected);
    }
}

#[test]
fn session_line_first_track() {
    let header = session_header();
    let line = session_line(&header, 23 * 3600 + 15 * 60 + 30, 1, "Track Name", "Artist Name");
    assert_eq!(line, "- 001. **23:15:30** (+0:00:00) Deck 1｜Track Name / Artist Name");
}

#[test]
fn session_line_counts_and_measures_from_first_track() {
    let header = session_header();
    let first = session_line(&header, 23 * 3600, 1, "A", "B");
    let content = format!("{}{}\n", header, first);
    let second = session_line(&content, 23 * 3600 + 5 * 60 + 30, 2, "C", "D");
    assert_eq!(second, "- 002. **23:05:30** (+0:05:30) Deck 2｜C / D");
    let content = format!("{}{}\n", content, second);
    let third = session_line(&content, 23 * 3600 + 3599, 1, "E", "F");
    assert_eq!(third, "- 003. **23:59:59** (+0:59:59) Deck 1｜E / F");
}

#[test]
fn session_line_after_midnight_is_not_negative() {
    let header = session_header();
    let content = format!("{}1. **23:59:00** (+0:00:00) Deck 1 | A / B\n", header);
    let line = session_line(&content, 60, 2, "C", "D");
    assert_eq!(line, "- 002. **00:01:00** (+0:00:00) Deck 2｜C / D");
}

#[test]
fn session_line_unreadable_first_time() {
    let header = session_header();
    let content = format!("{}first entry without a time\n", header);
    let line = session_line(&content, 0, 1, "A", "B");
    assert_eq!(line, "- 002. **00:00:00** (+0:00:00) Deck 1｜A / B");
}

#[test]
fn session_line_without_readable_file() {
    let line = session_line("", 86399, 2, "", "");
    assert_eq!(line, "- 001. **23:59:59** (+0:00:00) Deck 2｜ / ");
}

#[test]
fn render_line_pads_the_number_like_format() {
    for no in [0u32, 7, 10, 99, 100, 999, 1000, 123456, u32::MAX] {
        let line = render_line("{no}", no, "", "", 1, "", "", "");
        assert_eq!(line, format!("{:03}", no));
    }
}

#[test]
fn session_line_matches_documented_format() {
    let header = session_header();
    let mut content = header.clone();
    let times = [23 * 3600 + 15 * 60 + 30, 23 * 3600 + 20 * 60, 23 * 3600 + 41 * 60 + 2];
    for (i, now) in times.iter().enumerate() {
        let no = i + 1;
        let line = session_line(&content, *now, 2, "T", "A");
        let e = now - times[0];
        let expected = format!(
            "- {:03}. **{:02}:{:02}:{:02}** (+{}:{:02}:{:02}) Deck {}｜{} / {}",
            no, now / 3600, (now % 3600) / 60, now % 60, e / 3600, (e % 3600) / 60, e % 60, 2, "T", "A"
        );
        assert_eq!(line, expected);
        content = format!("{}{}\n", content, line);
        assert_eq!(count_entries(&content), no as u32);
        // the time written for the first track is read back
        assert_eq!(first_entry_time(&content), Some(times[0]));
    }
}

#[test]
fn logs_in_the_older_form_still_count() {
    let header = session_header();
    let old = format!("{}1. **23:15:30** (+0:00:00) Deck 1 | A / B\n", header);
    assert_eq!(count_entries(&old), 1);
    assert_eq!(first_entry_time(&old), Some(23 * 3600 + 15 * 60 + 30));
    let line = session_line(&old, 23 * 3600 + 16 * 60, 2, "C", "D");
    assert_eq!(line, "- 002. **23:16:00** (+0:00:30) Deck 2｜C / D");
}
