use airwire::client::{NetCommand, UiEvent};
use airwire::paths::LocalPath;
use airwire::tui::{
    cursor_x, normalize_terminal_path, path_of_url, strip_wrapping_quotes, truncate,
    unescape_posix_terminal_path, App, Ink, Key, Styled, Submission, TerminalEvent, Tone,
    ViewConfig,
};

fn test_app() -> App {
    App {
        config: ViewConfig {
            code: "aB3xY9".into(),
            relay_display: "test relay".into(),
            is_host: false,
            voice_enabled: false,
            startup_message: None,
        },
        input: String::new(),
        entries: Vec::new(),
        connection: "testing".into(),
        secure: true,
        peers: 2,
        should_quit: false,
        progress: None,
    }
}

fn pieces(line: &[Styled]) -> Vec<(&str, Ink, bool)> {
    line.iter().map(|piece| (piece.text.as_str(), piece.ink, piece.bold)).collect()
}

fn footer_text(app: &App) -> String {
    app.footer()[2].text.clone()
}

fn path(text: &str) -> LocalPath {
    LocalPath::of_text(text.to_owned())
}

fn press(key: Key) -> TerminalEvent {
    TerminalEvent::Key { key, control: false, release: false }
}

fn typed(app: &mut App, line: &str) -> Submission {
    let _ = app.handle_terminal_event(TerminalEvent::Paste(line.to_owned()), false, false);
    app.handle_terminal_event(press(Key::Enter), false, false)
}

#[test]
fn ignores_windows_style_key_release_events() {
    let mut app = test_app();
    let _ = app.handle_terminal_event(press(Key::Char('a')), false, false);
    let _ = app.handle_terminal_event(
        TerminalEvent::Key { key: Key::Char('a'), control: false, release: true },
        false,
        false,
    );
    assert_eq!(app.input, "a");
}

#[test]
fn accepts_quoted_and_escaped_drag_paths() {
    assert_eq!(
        normalize_terminal_path("\"/tmp/a file.txt\"", false),
        path("/tmp/a file.txt")
    );
    assert_eq!(
        normalize_terminal_path("\"/tmp/a file.txt\"", true),
        path("/tmp/a file.txt")
    );
    assert_eq!(
        normalize_terminal_path("/tmp/a\\ file.txt", false),
        path("/tmp/a file.txt")
    );
    assert_eq!(
        normalize_terminal_path(
            "/Users/riki/Downloads/ChatGPT\\ Image\\ Jul\\ 19\\,\\ 2026\\,\\ 06_05_41\\ PM.png",
            false
        ),
        path("/Users/riki/Downloads/ChatGPT Image Jul 19, 2026, 06_05_41 PM.png")
    );
    assert_eq!(
        normalize_terminal_path("/tmp/photo\\ \\#1\\ \\&\\ final.png", false),
        path("/tmp/photo #1 & final.png")
    );
}

#[test]
fn recognizes_a_real_file_with_macos_drag_escaping() {
    let directory = tempfile::tempdir().unwrap();
    let _file = tempfile::Builder::new()
        .prefix("Photo Jul 19, 2026, 06_05_41 PM")
        .suffix(".png")
        .rand_bytes(0)
        .tempfile_in(directory.path())
        .unwrap();
    let file = directory.path().join("Photo Jul 19, 2026, 06_05_41 PM.png");
    let escaped = file
        .to_string_lossy()
        .replace(' ', "\\ ")
        .replace(',', "\\,");
    let dropped = normalize_terminal_path(&escaped, false);
    assert_eq!(dropped, path(&file.to_string_lossy()));
    assert!(std::path::Path::new(&dropped.shown).is_file());
    let mut app = test_app();
    match typed(&mut app, &escaped) {
        Submission::Message { path, text } => {
            let command = app.send_message(path, text, true);
            assert!(matches!(command, Some(NetCommand::SendFile(_))));
        }
        other => panic!("{other:?}"),
    }
    assert!(app.entries.is_empty());
}

#[test]
fn file_urls_name_paths() {
    assert_eq!(normalize_terminal_path("file:///tmp/a%20b", false), path("/tmp/a b"));
    assert_eq!(normalize_terminal_path("file://", false), path("/"));
    assert_eq!(
        normalize_terminal_path("file://host.example/x", false),
        path("file://host.example/x")
    );
    assert_eq!(normalize_terminal_path("file://[", false), path("file://["));
    for (url, drive) in [
        ("file:///C:", "/C:/"),
        ("file:///C%3A", "/C:/"),
        ("file://localhost/c:", "/c:/"),
    ] {
        assert_eq!(normalize_terminal_path(url, false), path(drive));
        assert_eq!(normalize_terminal_path(url, true), path(url));
    }
    for url in ["file://host.example/", "file://host.example/%5Cx", "file://host.example/%2fx"] {
        assert_eq!(normalize_terminal_path(url, false), path(url));
        assert_eq!(normalize_terminal_path(url, true), path(url));
    }
    assert_eq!(normalize_terminal_path("file:///d/C:", false), path("/d/C:/"));
    assert_eq!(
        normalize_terminal_path("file:///tmp/a%FFb", false),
        LocalPath {
            shown: "/tmp/a\u{fffd}b".to_owned(),
            bytes: b"/tmp/a\xffb".to_vec(),
        }
    );
    assert_eq!(path_of_url("file:///x".to_owned(), None), path("file:///x"));
    assert_eq!(path_of_url("file:///x".to_owned(), Some(path("/x"))), path("/x"));
    assert_eq!(path_of_url("/y".to_owned(), Some(path("/x"))), path("/y"));
}

#[test]
fn quotes_and_backslashes_are_read_as_in_a_shell() {
    assert_eq!(strip_wrapping_quotes("\"a\""), "a");
    assert_eq!(strip_wrapping_quotes("'a'"), "a");
    assert_eq!(strip_wrapping_quotes("'a\""), "'a\"");
    assert_eq!(strip_wrapping_quotes("\""), "\"");
    assert_eq!(unescape_posix_terminal_path("a'b\\c'd"), "ab\\cd");
    assert_eq!(unescape_posix_terminal_path("\"a\\\"b'\""), "a\"b'");
    assert_eq!(unescape_posix_terminal_path("end\\"), "end\\");
    assert_eq!(unescape_posix_terminal_path("'open"), "open");
}

#[test]
fn keys_edit_the_input() {
    let mut app = test_app();
    let _ = app.handle_terminal_event(TerminalEvent::Paste("aé".to_owned()), false, false);
    let _ = app.handle_terminal_event(press(Key::Backspace), false, false);
    assert_eq!(app.input, "a");
    let _ = app.handle_terminal_event(press(Key::Backspace), false, false);
    let _ = app.handle_terminal_event(press(Key::Backspace), false, false);
    assert_eq!(app.input, "");
    let control = |key| TerminalEvent::Key { key, control: true, release: false };
    let _ = app.handle_terminal_event(control(Key::Char('x')), false, false);
    assert_eq!(app.input, "");
    assert!(!app.should_quit);
    let _ = app.handle_terminal_event(control(Key::Char('c')), false, false);
    assert!(app.should_quit);
    let mut app = test_app();
    let _ = app.handle_terminal_event(press(Key::Other), false, false);
    let _ = app.handle_terminal_event(TerminalEvent::Other, false, false);
    assert!(!app.should_quit);
    let _ = app.handle_terminal_event(press(Key::Esc), false, false);
    assert!(app.should_quit);
}

#[test]
fn commands_are_obeyed() {
    let mut app = test_app();
    assert!(matches!(typed(&mut app, "  "), Submission::Nothing));
    assert!(app.entries.is_empty());
    let _ = typed(&mut app, "/help");
    assert_eq!(
        app.entries[0].body,
        "/send <path> · /call · /hangup · /clear · /quit · drag-and-drop a file"
    );
    assert_eq!(app.entries[0].label, "system");
    assert_eq!(app.entries[0].tone, Tone::Status);
    match typed(&mut app, "/nope") {
        Submission::Message { path, text } => assert!(app.send_message(path, text, false).is_none()),
        other => panic!("{other:?}"),
    }
    assert_eq!(app.entries[1].body, "unknown command: /nope");
    assert_eq!(app.entries[1].label, "error");
    assert_eq!(app.entries[1].tone, Tone::Error);
    let _ = typed(&mut app, "/clear");
    assert!(app.entries.is_empty());
    let _ = typed(&mut app, "/call");
    assert_eq!(app.entries[0].body, "voice is disabled or no audio device is available");
    assert!(matches!(typed(&mut app, "/hangup"), Submission::Nothing));
    app.input = "/call".to_owned();
    assert!(matches!(app.submit_input(true, false), Submission::StartVoice));
    app.input = "/hangup".to_owned();
    assert!(matches!(app.submit_input(true, false), Submission::StopVoice));
    match typed(&mut app, "/send  /tmp/a\\ b ") {
        Submission::SendPath(sent) => assert_eq!(sent, path("/tmp/a b")),
        other => panic!("{other:?}"),
    }
    match typed(&mut app, " hello there ") {
        Submission::Message { path: named, text } => {
            assert_eq!(named, path("hello there"));
            assert_eq!(text, "hello there");
        }
        other => panic!("{other:?}"),
    }
    assert_eq!(app.input, "");
    let _ = typed(&mut app, "/exit");
    assert!(app.should_quit);
}

#[test]
fn files_are_sent_if_they_are_there() {
    let mut app = test_app();
    match app.send_path(path("/tmp/x"), true) {
        Some(NetCommand::SendFile(sent)) => assert_eq!(sent, path("/tmp/x")),
        other => panic!("{other:?}"),
    }
    assert!(app.send_path(path("/tmp/x"), false).is_none());
    assert_eq!(app.entries[0].body, "file not found: /tmp/x");
    assert!(matches!(
        app.send_message(path("p"), "t".to_owned(), true),
        Some(NetCommand::SendFile(_))
    ));
    assert!(matches!(
        app.send_message(path("p"), "t".to_owned(), false),
        Some(NetCommand::Chat(_))
    ));
    app.not_queued(true);
    app.not_queued(false);
    assert_eq!(app.entries[1].body, "network connection is closed");
    assert_eq!(app.entries[2].body, "outgoing queue is busy; try again");
}

#[test]
fn the_first_screen_greets() {
    let config = ViewConfig {
        code: "aB3xY9".into(),
        relay_display: "relay".into(),
        is_host: true,
        voice_enabled: false,
        startup_message: Some("airwire aB3xY9@x".into()),
    };
    let app = App::new(config);
    assert_eq!(app.entries.len(), 2);
    assert_eq!(app.entries[0].label, "airwire");
    assert_eq!(app.entries[1].label, "share");
    assert_eq!(app.entries[1].body, "airwire aB3xY9@x");
    assert_eq!(app.connection, "connecting…");
    let header = app.header();
    assert_eq!(header.len(), 3);
    assert_eq!(
        pieces(&header[0]),
        vec![(" AIRWIRE ", Ink::Brand, true), ("  anonymous rpc chat", Ink::Muted, false)]
    );
    assert_eq!(
        pieces(&header[1]),
        vec![
            (" room aB3xY9 ", Ink::Text, false),
            ("· host · 1 peers · ", Ink::Muted, false),
            ("○ negotiating", Ink::Warning, false),
        ]
    );
    assert_eq!(pieces(&header[2]), vec![(" connecting…", Ink::Muted, false)]);
    assert_eq!(app.input_text(), "› ");
    assert_eq!(app.input_border(), Ink::Border);
    assert_eq!(
        pieces(&app.footer()),
        vec![
            (" developed by H34TB145T ", Ink::Muted, false),
            ("· ", Ink::Border, false),
            ("relay", Ink::Muted, false),
        ]
    );
}

#[test]
fn the_screen_follows_events() {
    let mut app = test_app();
    let _ = app.handle_ui_event(UiEvent::Ready { secure: false, detail: "detail".into() });
    assert!(!app.secure);
    assert_eq!(app.connection, "detail");
    let _ = app.handle_ui_event(UiEvent::Chat { alias: "me".into(), text: "hi".into(), mine: true });
    let _ = app.handle_ui_event(UiEvent::Chat { alias: "you".into(), text: "ho".into(), mine: false });
    assert_eq!(app.entries[0].tone, Tone::Mine);
    assert_eq!(app.entries[1].tone, Tone::Peer);
    let _ = app.handle_ui_event(UiEvent::PeerCount(5));
    assert_eq!(app.peers, 5);
    let _ = app.handle_ui_event(UiEvent::FileProgress { label: "sending x".into(), transferred: 1, total: 3 });
    assert_eq!(footer_text(&app), "sending x · 33%");
    let _ = app.handle_ui_event(UiEvent::FileProgress { label: "x".into(), transferred: u64::MAX / 2, total: u64::MAX });
    assert_eq!(footer_text(&app), "x · 1%");
    let _ = app.handle_ui_event(UiEvent::FileProgress { label: "x".into(), transferred: 0, total: 0 });
    assert_eq!(footer_text(&app), "test relay");
    let _ = app.handle_ui_event(UiEvent::FileReceived { from: "you".into(), path: "/d/x".into() });
    assert_eq!(app.entries[2].body, "file from you saved to /d/x");
    let _ = app.handle_ui_event(UiEvent::VoiceStarted("you".into()));
    let _ = app.handle_ui_event(UiEvent::VoiceStopped("you".into()));
    assert_eq!(app.entries[3].body, "you started voice");
    assert_eq!(app.entries[4].body, "you stopped voice");
    let playback = app
        .handle_ui_event(UiEvent::VoicePcm { sample_rate: 8000, samples: vec![1, 2] })
        .unwrap();
    assert_eq!((playback.sample_rate, playback.samples), (8000, vec![1, 2]));
    app.secure = true;
    let _ = app.handle_ui_event(UiEvent::Closed("gone".into()));
    assert!(!app.secure);
    assert_eq!(app.connection, "gone");
    assert_eq!(app.entries[5].body, "gone");
    assert_eq!(app.entries[5].tone, Tone::Error);
}

#[test]
fn old_entries_are_dropped() {
    let mut app = test_app();
    for number in 0..2000 {
        let _ = app.handle_ui_event(UiEvent::Status(format!("{number}")));
    }
    assert_eq!(app.entries.len(), 2000);
    let _ = app.handle_ui_event(UiEvent::Error("last".into()));
    assert_eq!(app.entries.len(), 1501);
    assert_eq!(app.entries[0].body, "500");
    assert_eq!(app.entries[1500].body, "last");
}

#[test]
fn long_labels_are_cut() {
    assert_eq!(truncate("short", 10), "short");
    assert_eq!(truncate("exactly-10", 10), "exactly-10");
    assert_eq!(truncate("more-than-ten", 10), "more-than…");
    assert_eq!(truncate("ab", 1), "a");
    assert_eq!(truncate("ab", 0), "");
    let mut app = test_app();
    let _ = app.handle_ui_event(UiEvent::Chat { alias: "me".into(), text: "hi".into(), mine: true });
    let _ = app.handle_ui_event(UiEvent::Chat {
        alias: "more-than-ten".into(),
        text: "ho".into(),
        mine: false,
    });
    let _ = app.handle_ui_event(UiEvent::Status("s".into()));
    let _ = app.handle_ui_event(UiEvent::Error("e".into()));
    let lines = app.messages(20);
    assert_eq!(pieces(&lines[0]), vec![("         me ", Ink::Accent, true), ("hi", Ink::Text, false)]);
    assert_eq!(pieces(&lines[1]), vec![(" more-than… ", Ink::Peer, true), ("ho", Ink::Text, false)]);
    assert_eq!(pieces(&lines[2]), vec![("     system ", Ink::Muted, true), ("s", Ink::Muted, false)]);
    assert_eq!(pieces(&lines[3]), vec![("      error ", Ink::Error, true), ("e", Ink::Error, false)]);
    assert_eq!(app.header()[1][2].text, "● encrypted");
    assert_eq!(app.header()[1][2].ink, Ink::Accent);
    assert_eq!(app.input_border(), Ink::Accent);
}

#[test]
fn the_newest_entries_are_shown() {
    let mut app = test_app();
    for number in 0..100 {
        let _ = app.handle_ui_event(UiEvent::Status(format!("{number}")));
    }
    for (height, expected) in [(12, 10), (4, 2), (3, 1), (0, 1), (200, 100)] {
        let lines = app.messages(height);
        assert_eq!(lines.len(), expected);
        assert_eq!(lines[expected - 1][1].text, "99");
    }
}

#[test]
fn the_cursor_follows_the_input() {
    assert_eq!(cursor_x(0, 80, ""), 2);
    assert_eq!(cursor_x(0, 80, "héllo"), 7);
    assert_eq!(cursor_x(0, 80, &"x".repeat(200)), 78);
    assert_eq!(cursor_x(0, 1, "x"), 0);
    assert_eq!(cursor_x(65_535, 65_535, "x"), 65_533);
}
