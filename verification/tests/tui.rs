use oaifai::scan::Network;
use oaifai::signal::Signal;
use oaifai::tui::{App, Effect, Key, KeyEvent, Msg, Screen};

const CONTROL: u8 = 0b10;

fn net(ssid: &str) -> Network {
    Network { ssid: ssid.to_string(), signal: Signal { bits: 0xc234_0000 } }
}

/// An app that shows these networks, with one of them connected.
fn listing(names: &[&str], connected: Option<&str>) -> App {
    let mut app = App::new(false);
    app.handle_msg(Msg::Scanned {
        nets: names.iter().map(|n| net(n)).collect(),
        ssid: connected.map(String::from),
        ip: None,
        error: None,
    });
    app
}

fn press(app: &mut App, key: Key) -> Effect {
    app.handle_key(key, 0)
}

fn write(app: &mut App, line: &str) {
    for c in line.chars() {
        assert_eq!(press(app, Key::Char(c)), Effect::Continue);
    }
}

#[test]
fn the_program_begins_with_a_scan() {
    let app = App::new(true);
    assert_eq!(app.screen, Screen::Loading);
    assert!(app.nets.is_empty());
    assert_eq!(app.selected, None);
    assert!(app.dry_run);
    assert!(!App::bare(false).dry_run);
}

#[test]
fn a_list_comes_up_with_the_first_free_network_selected() {
    let app = listing(&["a", "b", "c"], Some("a"));
    assert_eq!(app.screen, Screen::List);
    assert_eq!(app.selectable, [true, false, true, true]);
    assert_eq!(app.selected, Some(2));
    assert_eq!(listing(&["a"], Some("a")).selected, Some(0));
    assert_eq!(listing(&[], None).selected, Some(0));
    assert_eq!(listing(&["a"], None).selected, Some(1));
}

#[test]
fn a_failed_scan_shows_its_error() {
    let mut app = App::new(false);
    app.handle_msg(Msg::scanned(
        Err("no device".to_string()),
        Some("x".to_string()),
        Some("10.0.0.1".to_string()),
    ));
    assert_eq!(app.screen, Screen::List);
    assert_eq!(app.scan_error, Some("no device".to_string()));
    assert_eq!(app.connected_ssid, Some("x".to_string()));
    assert_eq!(app.connected_ip, Some("10.0.0.1".to_string()));
    assert!(app.nets.is_empty());
    let msg = Msg::scanned(Ok(vec![net("a")]), None, None);
    assert_eq!(
        msg,
        Msg::Scanned { nets: vec![net("a")], ssid: None, ip: None, error: None }
    );
}

#[test]
fn the_selection_skips_the_connected_network_and_wraps() {
    let mut app = listing(&["a", "b", "c"], Some("b"));
    assert_eq!(app.selected, Some(1));
    for expected in [3, 0, 1, 3] {
        assert_eq!(press(&mut app, Key::Down), Effect::Continue);
        assert_eq!(app.selected, Some(expected));
    }
    for expected in [1, 0, 3, 1] {
        assert_eq!(press(&mut app, Key::Up), Effect::Continue);
        assert_eq!(app.selected, Some(expected));
    }
    press(&mut app, Key::Char('j'));
    assert_eq!(app.selected, Some(3));
    press(&mut app, Key::Char('k'));
    assert_eq!(app.selected, Some(1));
}

#[test]
fn moving_back_returns_to_the_same_row() {
    for connected in [None, Some("a"), Some("b"), Some("d")] {
        for start in 0..5 {
            let mut app = listing(&["a", "b", "c", "d"], connected);
            if app.selectable[start] {
                app.selected = Some(start);
                app.move_selection(1);
                app.move_selection(-1);
                assert_eq!(app.selected, Some(start));
                app.move_selection(-1);
                app.move_selection(1);
                assert_eq!(app.selected, Some(start));
            }
        }
    }
}

#[test]
fn moving_down_visits_every_free_network() {
    let mut app = listing(&["a", "b", "c", "d"], Some("c"));
    let start = app.selected;
    let mut visited: Vec<Option<usize>> = Vec::new();
    for _ in 0..4 {
        visited.push(app.selected);
        app.move_selection(1);
    }
    assert_eq!(app.selected, start);
    visited.sort();
    assert_eq!(visited, [Some(0), Some(1), Some(2), Some(4)]);
}

#[test]
fn the_selection_moves_by_any_number_of_rows() {
    let mut app = listing(&["a", "b", "c", "d"], None);
    app.selected = Some(1);
    app.move_selection(7);
    assert_eq!(app.selected, Some(3));
    app.move_selection(-9);
    assert_eq!(app.selected, Some(4));
    app.selectable = vec![false, false, false];
    app.selected = Some(1);
    app.move_selection(1);
    assert_eq!(app.selected, Some(1));
    app.selected = None;
    app.selectable = vec![true, true];
    app.move_selection(1);
    assert_eq!(app.selected, Some(1));
    app.selectable = Vec::new();
    app.move_selection(1);
    assert_eq!(app.selected, Some(1));
}

#[test]
fn a_network_is_chosen_and_connected() {
    let mut app = listing(&["a", "b"], None);
    press(&mut app, Key::Down);
    assert_eq!(press(&mut app, Key::Enter), Effect::Continue);
    assert_eq!(app.screen, Screen::Password);
    assert_eq!(app.target_ssid, "b");
    write(&mut app, "querty");
    press(&mut app, Key::Backspace);
    write(&mut app, "Y");
    assert_eq!(
        press(&mut app, Key::Enter),
        Effect::Connect {
            ssid: "b".to_string(),
            password: "quertY".to_string(),
            dry_run: false
        }
    );
    assert_eq!(app.screen, Screen::Connecting);
    for key in [Key::Char('q'), Key::Esc, Key::Enter] {
        assert_eq!(press(&mut app, key), Effect::Continue);
        assert_eq!(app.screen, Screen::Connecting);
    }
    app.handle_msg(Msg::Connected(Ok("10.0.0.2".to_string())));
    assert_eq!(app.screen, Screen::Done);
    assert_eq!(app.result, Some(Ok("10.0.0.2".to_string())));
    assert_eq!(press(&mut app, Key::Enter), Effect::Scan);
    assert_eq!(app.screen, Screen::Loading);
}

#[test]
fn a_name_is_entered_by_hand() {
    let mut app = listing(&[], None);
    assert_eq!(press(&mut app, Key::Enter), Effect::Continue);
    assert_eq!(app.screen, Screen::ManualSsid);
    write(&mut app, "  ");
    press(&mut app, Key::Enter);
    assert_eq!(app.screen, Screen::ManualSsid);
    write(&mut app, "quiet net ");
    press(&mut app, Key::Tab);
    press(&mut app, Key::Enter);
    assert_eq!(app.screen, Screen::Password);
    assert_eq!(app.target_ssid, "quiet net");
    assert_eq!(app.password, "");
    assert_eq!(press(&mut app, Key::Esc), Effect::Continue);
    assert_eq!(app.screen, Screen::List);
    press(&mut app, Key::Enter);
    assert_eq!(app.manual_ssid, "");
}

#[test]
fn control_u_clears_the_line() {
    let mut app = listing(&["a"], None);
    press(&mut app, Key::Enter);
    write(&mut app, "u");
    assert_eq!(app.password, "u");
    app.handle_key(Key::Char('u'), 0b0010_1101);
    assert_eq!(app.password, "uu");
    app.handle_key(Key::Char('x'), CONTROL);
    assert_eq!(app.password, "uux");
    app.handle_key(Key::Char('u'), CONTROL | 1);
    assert_eq!(app.password, "");
    press(&mut app, Key::Backspace);
    assert_eq!(app.password, "");
    press(&mut app, Key::Esc);
    press(&mut app, Key::Up);
    press(&mut app, Key::Enter);
    write(&mut app, "abc");
    app.handle_key(Key::Char('u'), CONTROL | 0b1100_0000);
    assert_eq!(app.manual_ssid, "");
}

#[test]
fn the_password_can_be_shown() {
    let mut app = listing(&["a"], None);
    press(&mut app, Key::Enter);
    assert!(!app.show_password);
    press(&mut app, Key::Tab);
    assert!(app.show_password);
    press(&mut app, Key::Tab);
    assert!(!app.show_password);
}

#[test]
fn what_ends_the_program() {
    let mut app = App::new(false);
    assert_eq!(press(&mut app, Key::Esc), Effect::Continue);
    assert_eq!(press(&mut app, Key::Char('q')), Effect::Quit);
    let mut app = listing(&["a"], None);
    assert_eq!(press(&mut app, Key::Char('q')), Effect::Quit);
    assert_eq!(press(&mut app, Key::Esc), Effect::Quit);
    press(&mut app, Key::Enter);
    assert_eq!(press(&mut app, Key::Char('q')), Effect::Continue);
    assert_eq!(app.password, "q");
    app.handle_msg(Msg::Connected(Err("no".to_string())));
    assert_eq!(press(&mut app, Key::Esc), Effect::Quit);
    assert_eq!(press(&mut app, Key::Char('q')), Effect::Quit);
    assert_eq!(press(&mut app, Key::Other), Effect::Scan);
}

#[test]
fn a_rescan_forgets_the_error() {
    let mut app = App::new(false);
    app.handle_msg(Msg::scanned(Err("busy".to_string()), None, None));
    assert_eq!(press(&mut app, Key::Other), Effect::Continue);
    assert_eq!(press(&mut app, Key::Char('r')), Effect::Scan);
    assert_eq!(app.screen, Screen::Loading);
    assert_eq!(app.scan_error, None);
}

#[test]
fn only_a_press_counts() {
    let mut app = listing(&["a"], None);
    let release = KeyEvent { pressed: false, key: Key::Char('q'), modifiers: 0 };
    assert_eq!(app.handle_event(release), Effect::Continue);
    let hit = KeyEvent { pressed: true, key: Key::Char('q'), modifiers: 0 };
    assert_eq!(app.handle_event(hit), Effect::Quit);
}

#[test]
fn the_spinner_turns_around() {
    let mut app = App::new(false);
    app.tick();
    assert_eq!(app.spinner, 1);
    app.spinner = usize::MAX;
    app.tick();
    assert_eq!(app.spinner, 0);
}
