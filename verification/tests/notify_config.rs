use chrono::TimeZone;
use djay_audio_loader::config::{apply_helper_args, session_source, Config, HelperArgs, HelperError, HotkeyDef, Modifiers, SessionSource};
use djay_audio_loader::hotkey::{drag_args, resolve_drag_binary, tap_action, LoadGuard, TapAction, EVENT_KEY_DOWN};
use djay_audio_loader::notify::{escape_applescript, log_alert_script, notify_error, notify_success, LogLevel, Notification};
use djay_audio_loader::session_dir::{expand_tilde, frontmatter, frontmatter_at, is_valid_local, session_name_at, LocalTime, is_ndp_leftover, ndp_dj_id, session_file_name, session_name};
use djay_audio_loader::config::NdpConfig;
use djay_audio_loader::track::TrackInfo;

fn track(title: &str, artist: &str, comment: &str) -> TrackInfo {
    TrackInfo {
        source: "Swinsian".to_string(),
        title: title.to_string(),
        artist: artist.to_string(),
        album: String::new(),
        duration: String::new(),
        file_path: String::new(),
        comment: comment.to_string(),
    }
}

fn no_args() -> HelperArgs {
    HelperArgs {
        no_activate: false,
        session_basedir: None,
        session_dir: None,
        ndp_publish: None,
        ndp_out: None,
        ndp_dj_id: None,
        ndp_dj_name: None,
    }
}

#[test]
fn escape_applescript_examples() {
    assert_eq!(escape_applescript("plain"), "plain");
    assert_eq!(escape_applescript("a\"b\\c\nd\re"), "a\\\"b\\\\c d e");
    assert_eq!(escape_applescript(""), "");
}

#[test]
fn escape_applescript_matches_chained_replace() {
    for s in ["\\\"", "\"\"\\\\", "x\r\ny", "日本\"語"] {
        let expected = s.replace('\\', "\\\\").replace('"', "\\\"").replace('\n', " ").replace('\r', " ");
        assert_eq!(escape_applescript(s), expected);
    }
}

#[test]
fn success_notification_texts() {
    let n = notify_success(&track("Song", "Artist", ""), 2);
    assert_eq!(n.title, "✅ デッキ 2 にロード");
    assert_eq!(n.subtitle, "Artist - Song");
    assert_eq!(n.message, "");
    let n = notify_success(&track("Song", "", "warm up"), 1);
    assert_eq!(n.subtitle, "Song");
    assert_eq!(n.message, "💬 warm up");
}

#[test]
fn error_notification_script() {
    let n = notify_error("file \"x\" missing");
    assert_eq!(n.title, "❌ エラー");
    assert_eq!(n.subtitle, "file \"x\" missing");
    assert_eq!(n.message, "");
    assert_eq!(
        n.script(),
        "display notification \"\" with title \"❌ エラー\" subtitle \"file \\\"x\\\" missing\""
    );
}

#[test]
fn notification_script_order() {
    let n = Notification { title: "T".to_string(), subtitle: "S".to_string(), message: "M\n".to_string() };
    assert_eq!(n.script(), "display notification \"M \" with title \"T\" subtitle \"S\"");
}

#[test]
fn log_alerts_only_for_errors() {
    assert_eq!(
        log_alert_script(LogLevel::Error, "bad \"thing\"").unwrap(),
        "display notification \"bad \\\"thing\\\"\" with title \"djay-audio-loader: エラー\""
    );
    assert!(log_alert_script(LogLevel::Warn, "w").is_none());
    assert!(log_alert_script(LogLevel::Info, "i").is_none());
}

#[test]
fn cg_flags_of_modifiers() {
    let m = Modifiers { shift: true, control: true, option: false, command: false };
    assert_eq!(m.as_cg_flags(), 0x0006_0000);
    let all = Modifiers { shift: true, control: true, option: true, command: true };
    assert_eq!(all.as_cg_flags(), 0x001E_0000);
    let none = Modifiers { shift: false, control: false, option: false, command: false };
    assert_eq!(none.as_cg_flags(), 0);
    let cmd = Modifiers { shift: false, control: false, option: false, command: true };
    assert_eq!(cmd.as_cg_flags(), 0x0010_0000);
}

#[test]
fn default_config() {
    let c = Config::load();
    assert_eq!(c.hotkey_deck1.keycode, 18);
    assert_eq!(c.hotkey_deck1.deck, 1);
    assert_eq!(c.hotkey_deck2.keycode, 29);
    assert_eq!(c.hotkey_deck2.deck, 2);
    assert_eq!(c.hotkey_ndp_publish.keycode, 23);
    assert_eq!(c.hotkey_ndp_publish.deck, 0);
    assert_eq!(c.hotkey_deck1.modifiers.as_cg_flags(), 0x0006_0000);
    assert_eq!(c.drop_delay, 250);
    assert!(c.no_activate);
    assert!(c.drag_binary.is_none() && c.session_file.is_none() && c.ndp.is_none());
}

#[test]
fn helper_args_apply() {
    let mut args = no_args();
    args.ndp_publish = Some("/bin/ndp-publish".to_string());
    assert_eq!(apply_helper_args(Config::load(), &args).unwrap_err(), HelperError::NdpOutMissing);
    args.ndp_out = Some("~/ndp".to_string());
    args.ndp_dj_name = Some("DJ".to_string());
    let c = apply_helper_args(Config::load(), &args).unwrap();
    let ndp = c.ndp.unwrap();
    assert_eq!(ndp.publisher_binary, "/bin/ndp-publish");
    assert_eq!(ndp.out_dir, "~/ndp");
    assert_eq!(ndp.dj_id, None);
    assert_eq!(ndp.dj_name, Some("DJ".to_string()));
    let c = apply_helper_args(Config::load(), &no_args()).unwrap();
    assert!(c.ndp.is_none());
    assert!(c.no_activate);
}

#[test]
fn session_option_precedence() {
    let mut args = no_args();
    assert_eq!(session_source(&args), SessionSource::Disabled);
    args.session_basedir = Some("~/sessions".to_string());
    assert_eq!(session_source(&args), SessionSource::BaseDirectory);
    args.session_dir = Some("/tmp/s".to_string());
    assert_eq!(session_source(&args), SessionSource::Directory);
}

#[test]
fn tap_actions() {
    let c = Config::load();
    let hotkeys = vec![c.hotkey_deck1, c.hotkey_deck2];
    let ctrl_shift = 0x0006_0000u64;
    assert_eq!(tap_action(0xFFFF_FFFE, 0, 0, &hotkeys, false), TapAction::Reenable);
    assert_eq!(tap_action(0xFFFF_FFFF, 18, ctrl_shift, &hotkeys, true), TapAction::Reenable);
    assert_eq!(tap_action(11, 18, ctrl_shift, &hotkeys, false), TapAction::PassThrough);
    assert_eq!(tap_action(10, 18, ctrl_shift, &hotkeys, false), TapAction::Launch { deck: 1 });
    // caps lock and other non-modifier bits are ignored
    assert_eq!(tap_action(10, 29, ctrl_shift | 0x0001_0100, &hotkeys, false), TapAction::Launch { deck: 2 });
    assert_eq!(tap_action(10, 29, ctrl_shift, &hotkeys, true), TapAction::Busy);
    assert_eq!(tap_action(10, 18, 0x0002_0000, &hotkeys, false), TapAction::PassThrough);
    assert_eq!(tap_action(10, 18, ctrl_shift | 0x0010_0000, &hotkeys, false), TapAction::PassThrough);
    assert_eq!(tap_action(10, 23, ctrl_shift, &hotkeys, false), TapAction::PassThrough);
    let dup = vec![
        HotkeyDef { keycode: 1, modifiers: c.hotkey_deck1.modifiers, deck: 7 },
        HotkeyDef { keycode: 1, modifiers: c.hotkey_deck1.modifiers, deck: 8 },
    ];
    assert_eq!(tap_action(10, 1, ctrl_shift, &dup, false), TapAction::Launch { deck: 7 });
}

#[test]
fn drag_invocation() {
    assert_eq!(drag_args(2, 250, false, &None), vec!["--deck", "2", "--drop-delay", "250"]);
    assert_eq!(
        drag_args(1, 0, true, &Some("/s/x.md".to_string())),
        vec!["--deck", "1", "--drop-delay", "0", "--no-activate", "--session-file", "/s/x.md"]
    );
    assert_eq!(resolve_drag_binary(&Some("/x".to_string()), &Some("/y".to_string())), "/x");
    assert_eq!(resolve_drag_binary(&None, &Some("/y".to_string())), "/y");
    assert_eq!(resolve_drag_binary(&None, &None), "drag-into-djay");
}

#[test]
fn session_directory_texts() {
    assert_eq!(expand_tilde("~/dj", &Some("/Users/me".to_string())), "/Users/me/dj");
    assert_eq!(expand_tilde("~", &None), "/tmp");
    assert_eq!(expand_tilde("/abs/~x", &Some("/h".to_string())), "/abs/~x");
    assert_eq!(
        frontmatter("2026-06-26-2315", "2026-06-26", "2026-06-26T23:15:00+09:00"),
        "---\ntype: DJ Session\ntitle: \"2026-06-26-2315\"\ndescription: DJ セッションログ\ndate: 2026-06-26\ntags: [dj, session]\ntimestamp: 2026-06-26T23:15:00+09:00\n---\n"
    );
    assert_eq!(session_file_name("2026-06-26-2315"), "2026-06-26-2315.md");
    assert_eq!(session_name(&Some("set1".to_string())), "set1");
    assert_eq!(session_name(&None), "session");
}

#[test]
fn ndp_output_cleanup() {
    let mut n = NdpConfig {
        publisher_binary: "p".to_string(),
        out_dir: "o".to_string(),
        dj_id: None,
        dj_name: None,
    };
    assert_eq!(ndp_dj_id(&n), "dj-000");
    n.dj_id = Some("dj-7".to_string());
    assert_eq!(ndp_dj_id(&n), "dj-7");
    assert!(is_ndp_leftover("now_playing.json"));
    assert!(is_ndp_leftover(".ready"));
    assert!(is_ndp_leftover("artwork.jpg"));
    assert!(is_ndp_leftover("artwork."));
    assert!(!is_ndp_leftover("artwork"));
    assert!(!is_ndp_leftover("my_artwork.png"));
    assert!(!is_ndp_leftover("now_playing.json.bak"));
}

/// Reads an AppleScript string body back: a backslash takes the next
/// character literally.
fn read_back(s: &str) -> String {
    let mut out = String::new();
    let mut it = s.chars();
    while let Some(c) = it.next() {
        if c == '\\' {
            if let Some(d) = it.next() {
                out.push(d);
            }
        } else {
            out.push(c);
        }
    }
    out
}

#[test]
fn escaped_text_reads_back_with_breaks_as_spaces() {
    for s in ["", "plain", "\"", "\\", "a\\\"b", "x\r\ny\n", "\\\\\"\"", "曲 \"名\""] {
        let e = escape_applescript(s);
        assert_eq!(read_back(&e), s.replace('\n', " ").replace('\r', " "), "input {:?}", s);
        // no quote ends the literal early: each one is escaped
        let cs: Vec<char> = e.chars().collect();
        let mut i = 0;
        while i < cs.len() {
            if cs[i] == '\\' {
                i += 2;
            } else {
                assert_ne!(cs[i], '"', "input {:?}", s);
                assert_ne!(cs[i], '\n', "input {:?}", s);
                i += 1;
            }
        }
    }
}

#[test]
fn cg_flags_are_distinct_and_inside_the_mask() {
    let mut seen = Vec::new();
    for bits in 0u8..16 {
        let m = Modifiers {
            shift: bits & 1 != 0,
            control: bits & 2 != 0,
            option: bits & 4 != 0,
            command: bits & 8 != 0,
        };
        let f = m.as_cg_flags();
        assert_eq!(f & 0x001E_0000, f);
        assert!(!seen.contains(&f));
        seen.push(f);
    }
}

#[test]
fn hotkey_fires_with_extra_flag_bits() {
    let hk = HotkeyDef {
        keycode: 18,
        modifiers: Modifiers { shift: true, control: true, option: false, command: false },
        deck: 1,
    };
    let hotkeys = vec![hk];
    let flags = 0x0006_0000u64 | 0x0000_0100 | 0x0080_0000;
    assert_eq!(tap_action(djay_audio_loader::hotkey::EVENT_KEY_DOWN, 18, flags, &hotkeys, false), TapAction::Launch { deck: 1 });
}

#[test]
fn one_load_at_a_time() {
    let hotkeys = vec![Config::load().hotkey_deck1, Config::load().hotkey_deck2];
    let mut guard = LoadGuard::new();
    assert!(!guard.running);
    // Ctrl+Shift+1 launches deck 1
    assert_eq!(guard.on_tap(EVENT_KEY_DOWN, 18, 0x0006_0000, &hotkeys), TapAction::Launch { deck: 1 });
    assert!(guard.running);
    // while it runs, hotkeys are swallowed without launching
    assert_eq!(guard.on_tap(EVENT_KEY_DOWN, 29, 0x0006_0000, &hotkeys), TapAction::Busy);
    assert_eq!(guard.on_tap(EVENT_KEY_DOWN, 18, 0x0006_0000, &hotkeys), TapAction::Busy);
    // other keys pass and leave the flag alone
    assert_eq!(guard.on_tap(EVENT_KEY_DOWN, 0, 0, &hotkeys), TapAction::PassThrough);
    assert!(guard.running);
    guard.on_load_finished();
    assert!(!guard.running);
    assert_eq!(guard.on_tap(EVENT_KEY_DOWN, 29, 0x0006_0000, &hotkeys), TapAction::Launch { deck: 2 });
    assert!(guard.running);
}

fn local(year: i32, month: u32, day: u32, hour: u32, minute: u32, second: u32, offset_secs: i32) -> LocalTime {
    LocalTime { year, month, day, hour, minute, second, offset_secs }
}

#[test]
fn session_name_and_front_matter_from_local_time() {
    let t = local(2026, 6, 26, 23, 15, 0, 9 * 3600);
    assert!(is_valid_local(&t));
    assert_eq!(session_name_at(&t), "2026-06-26-2315");
    assert_eq!(
        frontmatter_at("2026-06-26-2315", &t),
        frontmatter("2026-06-26-2315", "2026-06-26", "2026-06-26T23:15:00+09:00")
    );
}

#[test]
fn local_time_texts_match_chrono() {
    for t in [
        local(2026, 6, 26, 23, 15, 0, 9 * 3600),
        local(5, 1, 2, 3, 4, 5, 0),
        local(2024, 2, 29, 0, 0, 59, -(5 * 3600 + 30 * 60)),
        local(1999, 12, 31, 12, 1, 2, 19_800 + 45),
        local(9999, 11, 30, 9, 9, 9, -86_399),
    ] {
        assert!(is_valid_local(&t));
        let off = chrono::FixedOffset::east_opt(t.offset_secs).unwrap();
        let dt = off.with_ymd_and_hms(t.year, t.month, t.day, t.hour, t.minute, t.second).unwrap();
        assert_eq!(session_name_at(&t), dt.format("%Y-%m-%d-%H%M").to_string());
        let name = session_name_at(&t);
        assert_eq!(
            frontmatter_at(&name, &t),
            frontmatter(&name, &dt.format("%Y-%m-%d").to_string(), &dt.format("%Y-%m-%dT%H:%M:%S%:z").to_string())
        );
    }
}

#[test]
fn invalid_local_times() {
    assert!(!is_valid_local(&local(2023, 2, 29, 0, 0, 0, 0)));
    assert!(is_valid_local(&local(2000, 2, 29, 0, 0, 0, 0)));
    assert!(!is_valid_local(&local(1900, 2, 29, 0, 0, 0, 0)));
    assert!(!is_valid_local(&local(2026, 4, 31, 0, 0, 0, 0)));
    assert!(!is_valid_local(&local(2026, 13, 1, 0, 0, 0, 0)));
    assert!(!is_valid_local(&local(10000, 1, 1, 0, 0, 0, 0)));
    assert!(!is_valid_local(&local(2026, 1, 1, 24, 0, 0, 0)));
    assert!(!is_valid_local(&local(2026, 1, 1, 0, 0, 0, 86_400)));
}
