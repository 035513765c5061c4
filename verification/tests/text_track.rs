use djay_audio_loader::drag::{deck_slot, djay_activation_script, drag_plan, pid_from_output, source_activation_script, DragStep, PidError};
use djay_audio_loader::text::{chars_of, decimal_string, replace_all, split_lines, string_of, trimmed};
use djay_audio_loader::track::{
    candidates, cell_value, first_selected_table, first_track_table, WindowState, itunes_unknown_track, TableState, file_path_from_cells, itunes_track, normalize_duration, parse_i32,
    parse_u32, split_itunes_output, swinsian_track, Candidate, CellText, RunningPlayer,
    TrackError,
};

fn cell(value: Option<&str>, description: Option<&str>, children: Option<Vec<Option<&str>>>) -> CellText {
    CellText {
        value: value.map(|s| s.to_string()),
        description: description.map(|s| s.to_string()),
        children: children.map(|cs| cs.into_iter().map(|c| c.map(|s| s.to_string())).collect()),
    }
}

fn text(v: Vec<char>) -> String {
    v.into_iter().collect()
}

#[test]
fn split_lines_like_std() {
    for s in ["", "a", "a\n", "a\n\n", "\n", "a\r\nb", "a\rb\n", "\r", "x\r\n\r\n", "one\ntwo\nthree"] {
        let expected: Vec<String> = s.lines().map(|l| l.to_string()).collect();
        let got: Vec<String> = split_lines(&chars_of(s)).into_iter().map(text).collect();
        assert_eq!(got, expected, "input {:?}", s);
    }
}

#[test]
fn trimmed_like_std() {
    for s in ["", "  ", " a ", "\u{3000}x\u{a0}", "\t---\r", "a b", "\u{200b}z"] {
        let got = text(trimmed(&chars_of(s)));
        assert_eq!(got, s.trim(), "input {:?}", s);
    }
}

#[test]
fn replace_all_like_std() {
    for (s, p, r) in [("aaa", "aa", "b"), ("abcabc", "bc", ""), ("x", "xy", "z"), ("{no}{no}", "{no}", "7")] {
        let got = text(replace_all(&chars_of(s), &chars_of(p), &chars_of(r)));
        assert_eq!(got, s.replace(p, r));
    }
}

#[test]
fn decimal_and_strings() {
    assert_eq!(decimal_string(0), "0");
    assert_eq!(decimal_string(10), "10");
    assert_eq!(decimal_string(u64::MAX), u64::MAX.to_string());
    assert_eq!(string_of(&vec!['ä', 'b']), "äb");
}

#[test]
fn parse_numbers_like_std() {
    for s in ["0", "42", "+7", "-7", "", "+", "-", "4294967295", "4294967296", "00012", "1a", " 1", "2147483647", "2147483648", "-2147483648", "-2147483649", "-0"] {
        let cs = chars_of(s);
        assert_eq!(parse_u32(&cs), s.parse::<u32>().ok(), "u32 {:?}", s);
        assert_eq!(parse_i32(&cs), s.parse::<i32>().ok(), "i32 {:?}", s);
    }
}

#[test]
fn normalize_duration_examples() {
    assert_eq!(normalize_duration("03:45"), "3:45");
    assert_eq!(normalize_duration("1:02:03"), "1:02:03");
    assert_eq!(normalize_duration("01:02:03"), "1:02:03");
    assert_eq!(normalize_duration("ab:cd"), "0:cd");
    assert_eq!(normalize_duration("345"), "345");
    assert_eq!(normalize_duration(""), "");
    assert_eq!(normalize_duration("+07:00"), "7:00");
    assert_eq!(normalize_duration(":15"), "0:15");
    assert_eq!(normalize_duration("99999999999:00"), "0:00");
    assert_eq!(normalize_duration(&normalize_duration("007:3")), "7:3");
}

#[test]
fn cell_value_prefers_children_then_description() {
    assert_eq!(text(cell_value(&cell(Some("v"), Some("d"), Some(vec![None, Some(""), Some("child")])))), "child");
    assert_eq!(text(cell_value(&cell(Some("v"), Some("d"), Some(vec![Some("")])))), "d");
    assert_eq!(text(cell_value(&cell(Some("v"), Some(""), None))), "v");
    assert_eq!(text(cell_value(&cell(None, None, None))), "");
}

#[test]
fn file_path_from_cells_takes_first_path() {
    let cells = vec![
        cell(Some("x"), Some("y"), Some(vec![Some("z")])),
        cell(Some("no"), Some("not/a/path"), Some(vec![Some("other"), Some("/Music/b.mp3")])),
        cell(Some("/Music/c.mp3"), None, None),
    ];
    assert_eq!(file_path_from_cells(&cells), Some("/Music/b.mp3".to_string()));
    let cells = vec![cell(Some("/v"), Some("/d"), None)];
    assert_eq!(file_path_from_cells(&cells), Some("/d".to_string()));
    assert_eq!(file_path_from_cells(&vec![cell(Some("a"), None, None)]), None);
}

#[test]
fn swinsian_track_columns() {
    let mut cells: Vec<CellText> = (0..10).map(|i| cell(Some(&format!("c{}", i)), None, None)).collect();
    cells[3] = cell(Some("04:05"), None, None);
    cells[8] = cell(None, Some("/Users/dj/song.m4a"), None);
    let t = swinsian_track(&cells);
    assert_eq!(t.source, "Swinsian");
    assert_eq!(t.title, "c5");
    assert_eq!(t.artist, "c6");
    assert_eq!(t.album, "c9");
    assert_eq!(t.duration, "4:05");
    assert_eq!(t.file_path, "/Users/dj/song.m4a");
    assert_eq!(t.comment, "");
    let short = swinsian_track(&cells.drain(..).take(4).collect());
    assert_eq!(short.title, "");
    assert_eq!(short.duration, "4:05");
    let mut again: Vec<CellText> = (0..3).map(|i| cell(Some(&format!("c{}", i)), None, None)).collect();
    again.truncate(3);
    let shorter = swinsian_track(&again);
    assert_eq!(shorter.duration, "");
    assert_eq!(shorter.file_path, "");
}

#[test]
fn itunes_output_and_track() {
    let f = split_itunes_output("  Title\tArtist\tAlbum Artist\tAlbum\t\t245.5\n").unwrap();
    assert_eq!(f.title, "Title");
    assert_eq!(f.artist, "Artist");
    assert_eq!(f.album_artist, "Album Artist");
    assert_eq!(f.album, "Album");
    assert_eq!(f.location, "");
    assert_eq!(f.duration, "245.5");
    assert_eq!(itunes_track(&f, 245).file_path, "");
    assert!(split_itunes_output("a\tb\tc\td\te").is_none());
    assert!(split_itunes_output("a\tb\tc\td\t245.5\n").is_none());
    let f = split_itunes_output("T\t\tAA\tAl\t/Music/a b.m4a\t61\n").unwrap();
    let t = itunes_track(&f, 61);
    assert_eq!(t.source, "iTunes");
    assert_eq!(t.artist, "AA");
    assert_eq!(t.duration, "1:01");
    assert_eq!(t.file_path, "/Music/a b.m4a");
    // a path ending in whitespace keeps it
    let f2 = split_itunes_output("T\tA\tAA\tAl\t/Music/x \t61\n").unwrap();
    assert_eq!(f2.location, "/Music/x ");
    assert_eq!(itunes_track(&f2, 61).file_path, "/Music/x ");
    assert_eq!(itunes_track(&f, 245).duration, "4:05");
    assert_eq!(itunes_track(&f, 0).duration, "0:00");
    assert_eq!(itunes_track(&f, 6000).duration, "100:00");
}

#[test]
fn candidates_order_active_first() {
    let s_active = RunningPlayer { pid: 10, active: true };
    let s_idle = RunningPlayer { pid: 10, active: false };
    let i_active = RunningPlayer { pid: 20, active: true };
    let i_idle = RunningPlayer { pid: 20, active: false };
    let sw = Candidate { pid: 10, is_swinsian: true };
    let it = Candidate { pid: 20, is_swinsian: false };
    assert_eq!(candidates(None, None).unwrap_err(), TrackError::NoPlayerRunning);
    assert_eq!(candidates(Some(s_idle), Some(i_active)).unwrap(), vec![it, sw]);
    assert_eq!(candidates(Some(s_active), Some(i_active)).unwrap(), vec![sw, it]);
    assert_eq!(candidates(Some(s_idle), Some(i_idle)).unwrap(), vec![sw, it]);
    assert_eq!(candidates(None, Some(i_idle)).unwrap(), vec![it]);
    assert_eq!(candidates(Some(s_active), None).unwrap(), vec![sw]);
}

#[test]
fn deck_slots() {
    assert_eq!(deck_slot(1), Some(0));
    assert_eq!(deck_slot(2), Some(1));
    assert_eq!(deck_slot(0), None);
    assert_eq!(deck_slot(3), None);
}

#[test]
fn pid_from_system_events_output() {
    assert_eq!(pid_from_output("1234\n").unwrap(), 1234);
    assert_eq!(pid_from_output("  -5 ").unwrap(), -5);
    assert!(matches!(pid_from_output(" \n"), Err(PidError::NotRunning)));
    match pid_from_output(" abc \n") {
        Err(PidError::Unparsable(s)) => assert_eq!(s, "abc"),
        other => panic!("unexpected {:?}", other),
    }
    assert!(matches!(pid_from_output("99999999999"), Err(PidError::Unparsable(_))));
}

#[test]
fn activation_scripts() {
    assert_eq!(
        source_activation_script("Swinsian").unwrap(),
        "tell application \"System Events\" to set frontmost of (first process whose bundle identifier is \"com.swinsian.Swinsian\") to true"
    );
    assert_eq!(
        source_activation_script("iTunes").unwrap(),
        "tell application \"System Events\" to set frontmost of (first process whose bundle identifier is \"com.apple.Music\") to true"
    );
    assert!(source_activation_script("Spotify").is_none());
    assert_eq!(
        djay_activation_script(),
        "tell application \"System Events\" to set frontmost of (first process whose bundle identifier is \"com.algoriddim.djay-iphone-free\") to true"
    );
}

#[test]
fn normalize_duration_twice_is_once() {
    for s in ["03:45", "1:02:03", "ab:cd", "345", "", "+07:00", ":15", "007:3", "0:0:0", "12:", "::"] {
        let once = normalize_duration(s);
        assert_eq!(normalize_duration(&once), once, "input {:?}", s);
    }
}

fn plan_text(plan: &[DragStep]) -> Vec<String> {
    plan.iter().map(|s| format!("{:?}", s)).collect()
}

fn moves() -> Vec<String> {
    let mut v = Vec::new();
    for i in 1..=10u32 {
        v.push(format!("{:?}", DragStep::Drag { step: i, of: 10 }));
        v.push(format!("{:?}", DragStep::Sleep { ms: 10 }));
    }
    v
}

#[test]
fn drag_plan_with_activation() {
    let plan = drag_plan("Swinsian", false, 250);
    let mut expected = vec![
        format!("{:?}", DragStep::RunScript(source_activation_script("Swinsian").unwrap())),
        format!("{:?}", DragStep::Sleep { ms: 200 }),
        format!("{:?}", DragStep::MouseDown),
        format!("{:?}", DragStep::Sleep { ms: 50 }),
        format!("{:?}", DragStep::RunScript(djay_activation_script())),
        format!("{:?}", DragStep::Sleep { ms: 200 }),
    ];
    expected.extend(moves());
    expected.push(format!("{:?}", DragStep::Sleep { ms: 250 }));
    expected.push(format!("{:?}", DragStep::MouseUp));
    assert_eq!(plan_text(&plan), expected);
    assert_eq!(plan.len(), 28);
}

#[test]
fn drag_plan_without_activation_or_unknown_source() {
    let plan = drag_plan("iTunes", true, 0);
    let mut expected = vec![
        format!("{:?}", DragStep::MouseDown),
        format!("{:?}", DragStep::Sleep { ms: 50 }),
        format!("{:?}", DragStep::RunScript(djay_activation_script())),
        format!("{:?}", DragStep::Sleep { ms: 100 }),
    ];
    expected.extend(moves());
    expected.push(format!("{:?}", DragStep::Sleep { ms: 0 }));
    expected.push(format!("{:?}", DragStep::MouseUp));
    assert_eq!(plan_text(&plan), expected);
    // an unknown player is not activated, but the wait stays
    let plan = drag_plan("Other", false, 5);
    assert_eq!(format!("{:?}", plan[0]), format!("{:?}", DragStep::Sleep { ms: 200 }));
    assert_eq!(format!("{:?}", plan[1]), format!("{:?}", DragStep::MouseDown));
    assert_eq!(plan.len(), 27);
}

fn table(id: &str, has_selection: bool) -> TableState {
    TableState { identifier: id.to_string(), has_selection }
}

#[test]
fn first_track_table_picks_the_selected_track_list() {
    assert_eq!(first_track_table(&vec![]), None);
    assert_eq!(
        first_track_table(&vec![table("sidebar", true), table("trackTable", false), table("trackTable", true), table("trackTable", true)]),
        Some(2)
    );
    assert_eq!(first_track_table(&vec![table("trackTable", false), table("TrackTable", true)]), None);
    assert_eq!(first_track_table(&vec![table("trackTable", true)]), Some(0));
}

#[test]
fn unknown_music_track_is_empty() {
    let t = itunes_unknown_track();
    assert_eq!(t.source, "iTunes");
    assert!(t.title.is_empty() && t.artist.is_empty() && t.album.is_empty());
    assert!(t.duration.is_empty() && t.file_path.is_empty() && t.comment.is_empty());
}

fn window(role: &str, tables: Vec<bool>) -> WindowState {
    WindowState { role: role.to_string(), tables }
}

#[test]
fn first_selected_table_skips_help_tags_and_empty_windows() {
    assert_eq!(first_selected_table(&vec![]), None);
    let ws = vec![
        window("AXHelpTag", vec![true]),
        window("AXWindow", vec![false, false]),
        window("AXWindow", vec![false, true, true]),
        window("AXWindow", vec![true]),
    ];
    assert_eq!(first_selected_table(&ws), Some((2, 1)));
    assert_eq!(first_selected_table(&vec![window("AXHelpTag", vec![true]), window("AXWindow", vec![])]), None);
    assert_eq!(first_selected_table(&vec![window("AXWindow", vec![true])]), Some((0, 0)));
}
