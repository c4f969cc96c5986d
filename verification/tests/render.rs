use oaifai::cli::{
    connect_report, connecting_line, list_error, list_lines, parse_args, row_text, status_line,
    Command, USAGE,
};
use oaifai::geometry::Area;
use oaifai::render::{Draw, Highlight, Level, Line, Rgb};
use oaifai::scan::Network;
use oaifai::signal::{Color, Signal};
use oaifai::tui::{App, Key, Msg, Screen};

const AREA: Area = Area { x: 0, y: 0, width: 74, height: 18 };

fn net(ssid: &str) -> Network {
    Network { ssid: ssid.to_string(), signal: Signal { bits: 0xc234_0000 } }
}

fn listing(names: &[&str], connected: Option<&str>, ip: Option<&str>) -> App {
    let mut app = App::new(false);
    app.handle_msg(Msg::Scanned {
        nets: names.iter().map(|n| net(n)).collect(),
        ssid: connected.map(String::from),
        ip: ip.map(String::from),
        error: None,
    });
    app
}

fn plain(line: &Line) -> String {
    line.spans.iter().map(|s| s.text.as_str()).collect()
}

fn texts(lines: &[Line]) -> Vec<String> {
    lines.iter().map(plain).collect()
}

fn area(x: u16, y: u16, width: u16, height: u16) -> Area {
    Area { x, y, width, height }
}

/// The area and the texts of a paragraph.
fn paragraph(draw: &Draw) -> (Area, Vec<String>, bool, bool) {
    match draw {
        Draw::Paragraph { area, lines, centered, wrapped } => {
            (*area, texts(lines), *centered, *wrapped)
        }
        _ => panic!("no paragraph: {draw:?}"),
    }
}

#[test]
fn the_loading_screen_is_centred() {
    let mut app = App::new(false);
    app.spinner = 13;
    let draws = app.render(AREA, &Vec::new());
    assert_eq!(draws.len(), 3);
    assert_eq!(
        draws[0],
        Draw::Border {
            area: AREA,
            title: "  oaifai  ".to_string(),
            centered: true,
            color: Color::Cyan,
        }
    );
    let (body, lines, centered, wrapped) = paragraph(&draws[1]);
    assert_eq!(body, area(1, 1, 72, 15));
    assert!(centered && wrapped);
    assert_eq!(lines.len(), 8);
    assert!(lines[..7].iter().all(|l| l.is_empty()));
    assert_eq!(lines[7], "⠸  Scanning for networks…");
    let (foot, lines, centered, wrapped) = paragraph(&draws[2]);
    assert_eq!(foot, area(1, 16, 72, 1));
    assert!(!centered && !wrapped);
    assert_eq!(lines, ["  q quit"]);
}

#[test]
fn the_list_shows_every_network() {
    let app = listing(
        &["Home", "a-very-long-network-name-here", "x"],
        Some("Home"),
        Some("10.0.0.4"),
    );
    let levels = vec![
        Level { quality: 80, dbm: -42 },
        Level { quality: 30, dbm: -72 },
        Level { quality: 0, dbm: -100 },
    ];
    let draws = app.render(AREA, &levels);
    assert_eq!(draws.len(), 3);
    match &draws[1] {
        Draw::Rows { area: rows_area, rows, selected, highlight } => {
            assert_eq!(*rows_area, area(2, 1, 70, 15));
            assert_eq!(*selected, Some(2));
            assert_eq!(
                *highlight,
                Highlight {
                    symbol: " ▶ ".to_string(),
                    background: Rgb { red: 40, green: 42, blue: 66 },
                    bold: true,
                }
            );
            assert_eq!(
                texts(rows),
                [
                    "+  Enter network name manually",
                    "▂▄▆█  Home                  ● connected · 10.0.0.4",
                    "▂▄··  a-very-long-network-n…-72 dBm",
                    "▂···  x                     -100 dBm",
                ]
            );
            assert_eq!(rows[0].spans[0].color, Some(Color::Cyan));
            assert!(rows[1].spans.iter().all(|s| s.color == Some(Color::Green)));
            assert!(rows[1].spans[1].bold);
            assert_eq!(rows[2].spans[0].color, Some(Color::Yellow));
            assert_eq!(rows[2].spans[1].color, Some(Color::White));
            assert_eq!(rows[2].spans[2].color, Some(Color::DarkGray));
            assert_eq!(rows[3].spans[0].color, Some(Color::Red));
        }
        other => panic!("{other:?}"),
    }
    let (foot, lines, _, _) = paragraph(&draws[2]);
    assert_eq!(foot, area(1, 16, 72, 1));
    assert_eq!(lines, ["  ↑/↓ move    ⏎ select    r rescan    q quit"]);
}

#[test]
fn the_marked_row_is_the_selected_one() {
    let mut app = listing(&["a", "b"], None, None);
    let levels = vec![Level { quality: 9, dbm: -85 }, Level { quality: 9, dbm: -85 }];
    for expected in [1, 2, 0, 1] {
        match &app.render(AREA, &levels)[1] {
            Draw::Rows { selected, .. } => assert_eq!(*selected, Some(expected)),
            other => panic!("{other:?}"),
        }
        app.handle_key(Key::Down, 0);
    }
}

#[test]
fn an_entry_shows_its_value_or_its_length() {
    let mut app = App::new(false);
    let hidden = app.render_input(AREA, "Pin", "1234", true);
    assert_eq!(hidden, app.render_input(AREA, "Pin", "abcd", true));
    assert_ne!(hidden, app.render_input(AREA, "Pin", "12345", true));
    assert_eq!(paragraph(&hidden[0]).1[3], "    ●●●●▏");
    assert_ne!(
        app.render_input(AREA, "Pin", "1234", false),
        app.render_input(AREA, "Pin", "abcd", false)
    );
    app.show_password = true;
    assert_eq!(paragraph(&app.render_input(AREA, "Pin", "1234", true)[0]).1[3], "    1234▏");
}

#[test]
fn a_connected_network_may_have_no_address() {
    let app = listing(&["Home"], Some("Home"), None);
    let draws = app.render(AREA, &vec![Level { quality: 60, dbm: -54 }]);
    match &draws[1] {
        Draw::Rows { rows, .. } => {
            assert_eq!(plain(&rows[1]), "▂▄▆·  Home                  ● connected · no IP");
        }
        other => panic!("{other:?}"),
    }
}

#[test]
fn an_empty_list_says_why() {
    let mut app = listing(&[], None, None);
    let draws = app.render(AREA, &Vec::new());
    assert_eq!(draws.len(), 3);
    let (body, lines, _, _) = paragraph(&draws[1]);
    assert_eq!(body, area(1, 1, 72, 14));
    assert_eq!(lines.len(), 7);
    assert_eq!(lines[6], "No networks found.");
    let (foot, lines, _, _) = paragraph(&draws[2]);
    assert_eq!(foot, area(1, 16, 72, 1));
    assert_eq!(lines, ["  r rescan    q quit"]);
    app.scan_error = Some("no device".to_string());
    let draws = app.render(AREA, &Vec::new());
    let (_, lines, _, _) = paragraph(&draws[1]);
    assert_eq!(lines[6], "✗  no device");
}

#[test]
fn the_password_is_hidden_until_shown() {
    let mut app = listing(&["Home"], None, None);
    app.handle_key(Key::Enter, 0);
    for c in "sécret".chars() {
        app.handle_key(Key::Char(c), 0);
    }
    let levels = vec![Level { quality: 60, dbm: -54 }];
    let draws = app.render(AREA, &levels);
    assert_eq!(draws.len(), 2);
    let (body, lines, centered, wrapped) = paragraph(&draws[1]);
    assert_eq!(body, area(1, 1, 72, 16));
    assert!(!centered && wrapped);
    assert_eq!(
        lines,
        [
            "",
            "  Password for \"Home\"",
            "",
            "    ●●●●●●▏",
            "",
            "  empty = open network     Tab show/hide     ⏎ connect     Esc back",
        ]
    );
    let mut other = listing(&["Home"], None, None);
    other.handle_key(Key::Enter, 0);
    other.password = "123456".to_string();
    assert_eq!(other.render(AREA, &levels), draws);
    app.handle_key(Key::Tab, 0);
    let draws = app.render(AREA, &levels);
    let (_, lines, _, _) = paragraph(&draws[1]);
    assert_eq!(lines[3], "    sécret▏");
}

#[test]
fn a_name_is_always_shown() {
    let mut app = listing(&[], None, None);
    app.handle_key(Key::Enter, 0);
    app.handle_key(Key::Char('n'), 0);
    let draws = app.render(AREA, &Vec::new());
    let (_, lines, _, _) = paragraph(&draws[1]);
    assert_eq!(lines[1], "  Network name (SSID)");
    assert_eq!(lines[3], "    n▏");
    assert_eq!(lines[5], "  ⏎ continue     Esc back");
}

#[test]
fn the_end_of_an_attempt_is_told() {
    let mut app = listing(&[], None, None);
    app.target_ssid = "Home".to_string();
    app.screen = Screen::Connecting;
    let draws = app.render(AREA, &Vec::new());
    let (_, lines, _, _) = paragraph(&draws[1]);
    assert_eq!(lines[7], "⠋  Connecting to \"Home\" …");
    assert_eq!(paragraph(&draws[2]).1, ["  please wait"]);

    app.handle_msg(Msg::Connected(Ok("10.0.0.4".to_string())));
    let draws = app.render(AREA, &Vec::new());
    let (_, lines, _, _) = paragraph(&draws[1]);
    assert_eq!(lines[6..], ["✓  Connected to \"Home\"", "", "IP 10.0.0.4"]);
    assert_eq!(paragraph(&draws[2]).1, ["  ⏎ back to list    q quit"]);

    app.handle_msg(Msg::Connected(Err("no".to_string())));
    let draws = app.render(AREA, &Vec::new());
    let (_, lines, _, _) = paragraph(&draws[1]);
    assert_eq!(lines[6..], ["✗  Failed to connect to \"Home\"", "", "no"]);

    app.result = None;
    let draws = app.render(AREA, &Vec::new());
    let (_, lines, _, _) = paragraph(&draws[1]);
    assert_eq!(lines[7..], ["…"]);
}

/// Where the body and the footer of a centred screen come to stand.
fn layout(screen: Area) -> (Area, Area) {
    let draws = App::new(false).render(screen, &Vec::new());
    (paragraph(&draws[1]).0, paragraph(&draws[2]).0)
}

/// Where they are expected.
fn expected(screen: Area) -> (Area, Area) {
    let inner = Area {
        x: screen.x.saturating_add(screen.width.min(1)),
        y: screen.y.saturating_add(screen.height.min(1)),
        width: screen.width.saturating_sub(2),
        height: screen.height.saturating_sub(2),
    };
    let rows = inner.y.saturating_add(inner.height) - inner.y;
    let foot = rows.min(1);
    (
        Area { height: rows - foot, ..inner },
        Area { y: inner.y + rows - foot, height: foot, ..inner },
    )
}

#[test]
fn small_screens_are_divided() {
    for height in 0..60 {
        for width in [0, 1, 2, 3, 80] {
            for y in [0, 1, 7] {
                let screen = area(3, y, width, height);
                assert_eq!(layout(screen), expected(screen), "{screen:?}");
            }
        }
    }
}

#[test]
fn large_screens_are_divided() {
    let values = [0, 1, 2, 3, 255, 1000, 32767, 32768, 65533, 65534, 65535];
    for y in values {
        for height in values {
            for x in [0, 1, 65534, 65535] {
                let screen = area(x, y, 65535 - x / 2, height);
                assert_eq!(layout(screen), expected(screen), "{screen:?}");
            }
        }
    }
}

#[test]
fn screens_of_any_height_are_divided() {
    for height in (0..=65535u16).step_by(251) {
        let screen = area(0, height / 3, 80, height);
        assert_eq!(layout(screen), expected(screen), "{screen:?}");
    }
}

#[test]
fn narrow_lists_have_no_room() {
    let app = listing(&["a"], None, None);
    let levels = vec![Level { quality: 1, dbm: -89 }];
    for (width, expected) in [
        (3, area(0, 0, 0, 0)),
        (4, area(2, 1, 0, 7)),
        (5, area(2, 1, 1, 7)),
    ] {
        let draws = app.render(area(0, 0, width, 10), &levels);
        match &draws[1] {
            Draw::Rows { area: rows_area, .. } => assert_eq!(*rows_area, expected),
            other => panic!("{other:?}"),
        }
    }
}

fn args(list: &[&str]) -> Command {
    let all: Vec<String> = list.iter().map(|a| a.to_string()).collect();
    parse_args(&all)
}

#[test]
fn arguments_ask_for_a_command() {
    let connect = |ssid: &str, password: &str, dry_run: bool| Command::Connect {
        ssid: ssid.to_string(),
        password: password.to_string(),
        dry_run,
    };
    assert_eq!(args(&["oaifai"]), Command::Interactive { dry_run: false });
    assert_eq!(args(&[]), Command::Interactive { dry_run: false });
    assert_eq!(args(&["oaifai", "--dry-run"]), Command::Interactive { dry_run: true });
    assert_eq!(args(&["oaifai", "--list", "--dry-run"]), Command::List);
    assert_eq!(args(&["oaifai", "--connect", "a", "b"]), connect("a", "b", false));
    assert_eq!(args(&["oaifai", "--connect", "a"]), connect("a", "", false));
    assert_eq!(
        args(&["oaifai", "--list", "--connect", "a", "--dry-run"]),
        connect("a", "--dry-run", true)
    );
    assert_eq!(args(&["oaifai", "--connect", "", "b"]), Command::Usage);
    assert_eq!(args(&["oaifai", "--snapshot", "--connect"]), Command::Usage);
    assert_eq!(args(&["oaifai", "--snapshot"]), Command::Snapshot("list".to_string()));
    assert_eq!(
        args(&["oaifai", "--list", "--snapshot", "done"]),
        Command::Snapshot("done".to_string())
    );
}

#[test]
fn printed_lines_are_exact() {
    assert_eq!(USAGE, "usage: oaifai --connect \"SSID\" \"PASSWORD\"");
    assert_eq!(connecting_line("a"), "Connecting to \"a\"…");
    assert_eq!(
        connect_report("a", &Ok("10.0.0.1".to_string())),
        "✓ Connected to \"a\" — IP 10.0.0.1"
    );
    assert_eq!(connect_report("a", &Err("no".to_string())), "✗ no");
    assert_eq!(
        status_line(&Some("a".to_string()), &Some("10.0.0.1".to_string())),
        "Connected: \"a\"  —  IP 10.0.0.1\n"
    );
    assert_eq!(
        status_line(&Some("a".to_string()), &None),
        "Connected: \"a\"  —  IP no IP\n"
    );
    assert_eq!(status_line(&None, &Some("10.0.0.1".to_string())), "Not connected\n");
    assert_eq!(list_error("no"), "Error: no");
}

#[test]
fn the_printed_list_marks_the_active_network() {
    let nets = vec![net("a"), net("b")];
    let levels = vec![Level { quality: 100, dbm: -7 }, Level { quality: 40, dbm: -100 }];
    assert_eq!(
        list_lines(&nets, &levels, &Some("b".to_string())),
        ["▂▄▆█    -7 dBm  a", "▂▄··  -100 dBm  b  ✓"]
    );
    assert_eq!(list_lines(&Vec::new(), &Vec::new(), &None), ["(no networks found)"]);
}

#[test]
fn snapshots_stage_a_screen() {
    let mut app = listing(&["a"], None, None);
    app.stage("list");
    assert_eq!(app.screen, Screen::List);
    app.stage("password");
    assert_eq!(app.screen, Screen::Password);
    assert_eq!(app.target_ssid, "S1");
    assert_eq!(app.password, "hunter2");
    app.stage("done");
    assert_eq!(app.screen, Screen::Done);
    assert_eq!(app.result, Some(Ok("192.168.1.30".to_string())));
    let mut app = listing(&["a"], Some("a"), Some("10.0.0.3"));
    app.stage("done");
    assert_eq!(app.target_ssid, "a");
    assert_eq!(app.result, Some(Ok("10.0.0.3".to_string())));
}

#[test]
fn rows_of_cells_lose_their_trailing_space() {
    let cells: Vec<String> = [" ", "│", "ab", " ", "\u{a0}"].iter().map(|c| c.to_string()).collect();
    assert_eq!(row_text(&cells), " │ab");
    assert_eq!(row_text(&Vec::new()), "");
}
