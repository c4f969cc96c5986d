use oaifai::label::{decimal_text, truncate_ssid};
use oaifai::scan::{parse_scan, signal_fields, Network};
use oaifai::signal::{signal_bars, signal_color, Color, Signal, UNREPORTED};
use oaifai::text::{
    chars_of, find, is_white_space, leading_word, padded_left, split_lines, text_of, trimmed,
};

fn signal(dbm: f32) -> Signal {
    Signal { bits: dbm.to_bits() }
}

fn dbm(net: &Network) -> f32 {
    f32::from_bits(net.signal.bits)
}

fn scan(output: &str) -> Vec<Network> {
    let mut readings: Vec<Option<Signal>> = Vec::new();
    for field in signal_fields(output) {
        readings.push(field.parse::<f32>().ok().map(signal));
    }
    parse_scan(output, &readings)
}

fn quality(dbm: f32) -> u8 {
    let q = (dbm + 90.0) / 60.0 * 100.0;
    q.clamp(0.0, 100.0).round() as u8
}

#[test]
fn parses_and_dedupes_scan() {
    let sample = "\
BSS 20:23:51:4b:1a:07(on wlp1s0)
\tsignal: -45.00 dBm
\tSSID: ZZZ
BSS aa:bb:cc:dd:ee:ff(on wlp1s0)
\tsignal: -70.00 dBm
\tSSID: Neighbor
BSS 11:22:33:44:55:66(on wlp1s0)
\tsignal: -80.00 dBm
\tSSID: ZZZ
BSS 99:88:77:66:55:44(on wlp1s0)
\tsignal: -60.00 dBm
\tSSID: ";
    let nets = scan(sample);
    assert_eq!(nets.len(), 2);
    assert_eq!(nets[0].ssid, "ZZZ");
    assert_eq!(dbm(&nets[0]), -45.0);
    assert_eq!(nets[1].ssid, "Neighbor");
}

#[test]
fn bars_are_four_wide() {
    for dbm in [-95.0, -75.0, -55.0, -35.0] {
        assert_eq!(signal_bars(quality(dbm)).chars().count(), 4);
    }
}

#[test]
fn ssid_truncation() {
    assert_eq!(truncate_ssid("short", 22), "short");
    assert_eq!(
        truncate_ssid("a-very-long-network-name-here", 10).chars().count(),
        10
    );
}

#[test]
fn truncation_keeps_whole_characters() {
    assert_eq!(truncate_ssid("äöüß", 3), "äö…");
    assert_eq!(truncate_ssid("abc", 1), "…");
    assert_eq!(truncate_ssid("abc", 3), "abc");
    assert_eq!(truncate_ssid("", 0), "");
}

#[test]
fn bars_and_colors_follow_the_quality() {
    assert_eq!(signal_bars(0), "▂···");
    assert_eq!(signal_bars(25), "▂···");
    assert_eq!(signal_bars(26), "▂▄··");
    assert_eq!(signal_bars(50), "▂▄··");
    assert_eq!(signal_bars(51), "▂▄▆·");
    assert_eq!(signal_bars(75), "▂▄▆·");
    assert_eq!(signal_bars(76), "▂▄▆█");
    assert_eq!(signal_bars(100), "▂▄▆█");
    assert_eq!(signal_color(25), Color::Red);
    assert_eq!(signal_color(26), Color::Yellow);
    assert_eq!(signal_color(51), Color::LightGreen);
    assert_eq!(signal_color(76), Color::Green);
}

#[test]
fn signals_compare_as_numbers_do() {
    let samples = [
        -100.0f32,
        -45.5,
        -45.0,
        -0.0,
        0.0,
        f32::MIN_POSITIVE,
        1.0,
        30.25,
        f32::MAX,
        f32::INFINITY,
        f32::NEG_INFINITY,
        f32::NAN,
        -f32::NAN,
        -f32::MIN_POSITIVE / 2.0,
    ];
    for a in samples {
        for b in samples {
            assert_eq!(signal(a).is_stronger_than(signal(b)), a > b, "{a} {b}");
        }
    }
}

#[test]
fn unreported_signal_is_minus_hundred() {
    assert_eq!(f32::from_bits(UNREPORTED), -100.0);
}

#[test]
fn a_station_without_a_signal_is_unreported() {
    let nets = scan("BSS 1\nsignal: -40.00 dBm\nSSID: a\nBSS 2\nSSID: b\n");
    assert_eq!(nets.len(), 2);
    assert_eq!(nets[0].ssid, "a");
    assert_eq!(dbm(&nets[0]), -40.0);
    assert_eq!(nets[1].ssid, "b");
    assert_eq!(dbm(&nets[1]), -100.0);
}

#[test]
fn an_unreadable_signal_is_unreported() {
    let output = "BSS 1\nsignal: weak dBm\nSSID: a\nsignal:\nSSID: b\nsignal: -20 dBm\nSSID: c";
    assert_eq!(signal_fields(output), ["weak", "-20"]);
    let nets = scan(output);
    assert_eq!(nets.len(), 3);
    assert_eq!(nets[0].ssid, "c");
    assert_eq!(dbm(&nets[0]), -20.0);
    assert_eq!(nets[1].ssid, "a");
    assert_eq!(dbm(&nets[1]), -100.0);
    assert_eq!(nets[2].ssid, "b");
    assert_eq!(dbm(&nets[2]), -100.0);
}

#[test]
fn hidden_networks_are_left_out() {
    let nets = scan("BSS 1\nSSID: \\x00\\x00\\x00\nSSID:   \nSSID: seen\n");
    assert_eq!(nets.len(), 1);
    assert_eq!(nets[0].ssid, "seen");
}

#[test]
fn the_strongest_signal_of_a_name_is_kept() {
    let nets = scan("signal: -80\nSSID: a\nsignal: -50\nSSID: b\nsignal: -30\nSSID: a\n");
    assert_eq!(nets.len(), 2);
    assert_eq!(nets[0].ssid, "a");
    assert_eq!(dbm(&nets[0]), -30.0);
    assert_eq!(nets[1].ssid, "b");
}

#[test]
fn equally_strong_networks_keep_their_order() {
    let nets = scan(
        "signal: -60\nSSID: a\nSSID: b\nsignal: -20\nSSID: c\nsignal: -60\nSSID: d\nsignal: -70\nSSID: e",
    );
    let names: Vec<&str> = nets.iter().map(|n| n.ssid.as_str()).collect();
    assert_eq!(names, ["c", "a", "b", "d", "e"]);
}

#[test]
fn scan_lines_may_end_in_carriage_returns() {
    let nets = scan("BSS 1\r\n\tsignal: -42.5 dBm\r\n\tSSID: two words\r\n");
    assert_eq!(nets.len(), 1);
    assert_eq!(nets[0].ssid, "two words");
    assert_eq!(dbm(&nets[0]), -42.5);
}

#[test]
fn an_empty_scan_has_no_networks() {
    assert!(scan("").is_empty());
    assert!(signal_fields("nothing here\n").is_empty());
}

#[test]
fn white_space_is_what_unicode_says() {
    for n in 0..=0x10ffffu32 {
        if let Some(c) = char::from_u32(n) {
            assert_eq!(is_white_space(c), c.is_whitespace(), "{n:x}");
        }
    }
}

#[test]
fn text_functions_agree_with_str() {
    let samples = [
        "",
        "\n",
        "a\nb",
        "a\r\nb\r\n",
        "a\rb\n\nc\r",
        "  inet 10.0.0.7/24 brd",
        "\u{3000}x y\u{a0}",
        "aaab",
        " \t ",
    ];
    for s in samples {
        let chars = chars_of(s);
        assert_eq!(text_of(trimmed(&chars)), s.trim());
        let lines: Vec<String> = split_lines(&chars).iter().map(|l| text_of(l)).collect();
        assert_eq!(lines, s.lines().collect::<Vec<&str>>());
        assert_eq!(
            leading_word(&chars).map(text_of),
            s.split_whitespace().next().map(String::from)
        );
        for part in ["", "inet ", "aab", "b", "\n"] {
            assert_eq!(
                find(&chars, part),
                s.find(part).map(|i| s[..i].chars().count())
            );
        }
    }
}

#[test]
fn numbers_are_written_in_decimal() {
    for n in [0, 7, 10, -1, -45, 99, 100, i32::MAX, i32::MIN] {
        assert_eq!(decimal_text(n), format!("{n}"));
        assert_eq!(padded_left(&decimal_text(n), 4), format!("{n:>4}"));
    }
}
