use oaifai::connect::{connect, Action, Connection, Event, POLLS};
use oaifai::netplan::{generate_netplan, IFACE};
use oaifai::system::{
    current_ip, current_ssid, is_connected_to, scan_complaint, scan_networks, scan_retry,
    CommandOutput, ScanStep,
};

fn output(success: bool, stdout: &str, stderr: &str) -> CommandOutput {
    CommandOutput {
        success,
        stdout: stdout.as_bytes().to_vec(),
        stderr: stderr.as_bytes().to_vec(),
    }
}

#[test]
fn a_successful_scan_is_read() {
    let mut out = output(true, "BSS 1 ü\n", "warning");
    assert_eq!(
        scan_networks(&Ok(output(true, "BSS 1 ü\n", "warning"))),
        ScanStep::Read("BSS 1 ü\n".to_string())
    );
    out.stdout = vec![b'a', 0xff, b'b'];
    assert_eq!(
        scan_networks(&Ok(out)),
        ScanStep::Read("a\u{fffd}b".to_string())
    );
}

#[test]
fn a_scan_that_is_not_permitted_fails() {
    for stderr in [
        "command failed: Operation not permitted (-1)",
        "Permission denied, device busy",
    ] {
        assert_eq!(
            scan_networks(&Ok(output(false, "", stderr))),
            ScanStep::Failed("permission denied while scanning — run with sudo".to_string())
        );
    }
}

#[test]
fn a_busy_device_is_tried_again() {
    assert_eq!(
        scan_networks(&Ok(output(
            false,
            "",
            " command failed: Device or resource BUSY (-16)\n"
        ))),
        ScanStep::Retry(
            "scan failed: command failed: Device or resource BUSY (-16)".to_string()
        )
    );
    assert_eq!(
        scan_complaint("BUSY", "BUSY"),
        ScanStep::Failed("scan failed: BUSY".to_string())
    );
    assert_eq!(
        scan_complaint("BUSY", "busy"),
        ScanStep::Retry("scan failed: BUSY".to_string())
    );
}

#[test]
fn a_scan_can_fail_otherwise() {
    assert_eq!(
        scan_networks(&Ok(output(false, "x", "\nno such device \n"))),
        ScanStep::Failed("scan failed: no such device".to_string())
    );
    assert_eq!(
        scan_networks(&Err("not found".to_string())),
        ScanStep::Failed("failed to run `iw`: not found".to_string())
    );
}

#[test]
fn a_second_scan_gives_its_output_or_the_first_error() {
    let first = || "scan failed: busy".to_string();
    assert_eq!(
        scan_retry(first(), &Ok(output(true, "BSS", ""))),
        Ok("BSS".to_string())
    );
    assert_eq!(
        scan_retry(first(), &Ok(output(false, "BSS", "other"))),
        Err(first())
    );
    assert_eq!(scan_retry(first(), &Err("gone".to_string())), Err(first()));
}

#[test]
fn the_link_names_its_network() {
    let link = b"Connected to 20:23:51:4b:1a:07 (on wlp1s0)\n\tSSID: My Net \n\tfreq: 5180\n";
    assert_eq!(current_ssid(link), Some("My Net".to_string()));
    assert_eq!(current_ssid(b"Not connected.\n\tSSID: x\n"), None);
    assert_eq!(current_ssid(b"\tSSID:   \n\tSSID: later\n"), Some("later".to_string()));
    assert_eq!(current_ssid(b""), None);
    assert_eq!(
        current_ssid(b"SSID: \xff"),
        Some("\u{fffd}".to_string())
    );
}

#[test]
fn the_address_is_found() {
    let line = b"3: wlp1s0    inet 192.168.1.30/24 brd 192.168.1.255 scope global\n";
    assert_eq!(current_ip(line), Some("192.168.1.30".to_string()));
    assert_eq!(current_ip(b"3: wlp1s0 inet /24\n4: x inet 10.0.0.1\n"), Some("10.0.0.1".to_string()));
    assert_eq!(current_ip(b"3: wlp1s0 inet6 fe80::1/64\n"), None);
    assert_eq!(current_ip(b""), None);
}

#[test]
fn connected_means_to_that_network() {
    assert!(is_connected_to(&Some("a".to_string()), "a"));
    assert!(!is_connected_to(&Some("a".to_string()), "b"));
    assert!(!is_connected_to(&None, "a"));
    assert!(!is_connected_to(&None, ""));
}

const LINK: &[u8] = b"Connected\n\tSSID: Home\n";
const ADDRESS: &[u8] = b"inet 10.0.0.9/24\n";

fn started() -> Connection {
    let (attempt, first) = connect("Home", "pw", false);
    assert_eq!(first, Action::CheckConfig);
    attempt
}

fn applied() -> Connection {
    let mut c = started();
    let yaml = generate_netplan(IFACE, "Home", "pw");
    assert_eq!(c.step(Event::Exists(true)), Action::BackUp);
    assert_eq!(c.step(Event::Done(Ok(()))), Action::Write(yaml));
    assert_eq!(c.step(Event::Done(Ok(()))), Action::Restrict);
    assert_eq!(c.step(Event::Done(Err("ignored".to_string()))), Action::Apply);
    c
}

#[test]
fn a_dry_run_only_says_what_it_would_write() {
    let (_, first) = connect("Home", "pw", true);
    let yaml = generate_netplan(IFACE, "Home", "pw");
    assert_eq!(
        first,
        Action::Finish(Err(format!("dry-run — would write:\n{yaml}")))
    );
}

#[test]
fn connecting_succeeds_at_the_first_look() {
    let mut c = applied();
    assert_eq!(c.step(Event::Ran(Ok(output(true, "", "")))), Action::Wait);
    assert_eq!(c.step(Event::Done(Ok(()))), Action::QueryLink);
    assert_eq!(c.step(Event::Answer(Some(LINK.to_vec()))), Action::QueryAddress);
    assert_eq!(
        c.step(Event::Answer(Some(ADDRESS.to_vec()))),
        Action::Finish(Ok("10.0.0.9".to_string()))
    );
}

#[test]
fn connecting_looks_again_until_it_has_an_address() {
    let mut c = applied();
    assert_eq!(c.step(Event::Ran(Ok(output(true, "", "")))), Action::Wait);
    assert_eq!(c.step(Event::Done(Ok(()))), Action::QueryLink);
    assert_eq!(c.step(Event::Answer(None)), Action::Wait);
    assert_eq!(c.step(Event::Done(Ok(()))), Action::QueryLink);
    assert_eq!(c.step(Event::Answer(Some(LINK.to_vec()))), Action::QueryAddress);
    assert_eq!(c.step(Event::Answer(Some(Vec::new()))), Action::Wait);
    assert_eq!(c.step(Event::Done(Ok(()))), Action::QueryLink);
    assert_eq!(c.step(Event::Answer(Some(LINK.to_vec()))), Action::QueryAddress);
    assert_eq!(
        c.step(Event::Answer(Some(ADDRESS.to_vec()))),
        Action::Finish(Ok("10.0.0.9".to_string()))
    );
}

#[test]
fn a_configuration_that_does_not_connect_is_undone() {
    let mut c = applied();
    let mut action = c.step(Event::Ran(Ok(output(true, "", ""))));
    let mut looks = 0;
    while action == Action::Wait {
        looks += 1;
        assert_eq!(c.step(Event::Done(Ok(()))), Action::QueryLink);
        action = c.step(Event::Answer(Some(b"Connected\nSSID: Other\n".to_vec())));
    }
    assert_eq!(looks, 20);
    assert_eq!(looks, POLLS);
    assert_eq!(action, Action::CheckBackup);
    assert_eq!(c.step(Event::Exists(true)), Action::CopyBack);
    assert_eq!(c.step(Event::Done(Err("ignored".to_string()))), Action::Reapply);
    assert_eq!(
        c.step(Event::Done(Ok(()))),
        Action::Finish(Err(
            "could not get connectivity — restored your previous network".to_string()
        ))
    );
}

#[test]
fn a_configuration_that_netplan_refuses_is_undone() {
    let mut c = applied();
    assert_eq!(
        c.step(Event::Ran(Ok(output(false, "", " bad yaml\n")))),
        Action::CheckBackup
    );
    assert_eq!(
        c.step(Event::Exists(false)),
        Action::Finish(Err("netplan apply error: bad yaml".to_string()))
    );
}

#[test]
fn each_step_of_connecting_can_fail() {
    let mut c = started();
    assert_eq!(c.step(Event::Exists(true)), Action::BackUp);
    assert_eq!(
        c.step(Event::Done(Err("read-only".to_string()))),
        Action::Finish(Err("backup failed: read-only (run with sudo?)".to_string()))
    );

    let mut c = started();
    assert!(matches!(c.step(Event::Exists(false)), Action::Write(_)));
    assert_eq!(
        c.step(Event::Done(Err("read-only".to_string()))),
        Action::Finish(Err(
            "writing netplan failed: read-only (run with sudo?)".to_string()
        ))
    );

    let mut c = applied();
    assert_eq!(
        c.step(Event::Ran(Err("no netplan".to_string()))),
        Action::Finish(Err("`netplan apply` failed: no netplan".to_string()))
    );
}
