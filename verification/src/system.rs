//! What the commands that the program runs have answered.

use vstd::prelude::*;
use vstd::slice::slice_subrange;

use crate::text;

verus! {

/// What a command left behind when it ended.
#[derive(Debug, PartialEq, Eq)]
pub struct CommandOutput {
    /// Whether it ended with status zero.
    pub success: bool,
    pub stdout: Vec<u8>,
    pub stderr: Vec<u8>,
}

// ---------- scanning ----------

/// How to go on after a scan command was run for the first time.
#[derive(Debug, PartialEq, Eq)]
pub enum ScanStep {
    /// The scan succeeded with this output.
    Read(String),
    /// The device was busy. Run the command once more after `RETRY_SECONDS`; if
    /// that fails too, this is the error.
    Retry(String),
    /// The scan failed with this error.
    Failed(String),
}

/// A scan step, with its text as a sequence of characters.
pub enum ScanStepView {
    Read(Seq<char>),
    Retry(Seq<char>),
    Failed(Seq<char>),
}

impl View for ScanStep {
    type V = ScanStepView;

    open spec fn view(&self) -> ScanStepView {
        match *self {
            ScanStep::Read(s) => ScanStepView::Read(s@),
            ScanStep::Retry(s) => ScanStepView::Retry(s@),
            ScanStep::Failed(s) => ScanStepView::Failed(s@),
        }
    }
}

/// How long a busy device is left alone, in seconds.
pub const RETRY_SECONDS: u64 = 2;

/// The error of a scan that ended with such a complaint.
pub open spec fn scan_error(complaint: Seq<char>) -> Seq<char> {
    "scan failed: "@ + text::trim(complaint)
}

/// How to go on after a scan that ended with a complaint; `lowered` is the
/// complaint in lower case.
pub open spec fn after_complaint(complaint: Seq<char>, lowered: Seq<char>) -> ScanStepView {
    if text::contains(complaint, "Operation not permitted"@) || text::contains(
        complaint,
        "Permission denied"@,
    ) {
        ScanStepView::Failed("permission denied while scanning — run with sudo"@)
    } else if text::contains(lowered, "busy"@) {
        ScanStepView::Retry(scan_error(complaint))
    } else {
        ScanStepView::Failed(scan_error(complaint))
    }
}

/// How to go on after the scan command was run.
pub open spec fn after_scan(run: Result<CommandOutput, String>) -> ScanStepView {
    match run {
        Err(e) => ScanStepView::Failed("failed to run `iw`: "@ + e@),
        Ok(out) => if out.success {
            ScanStepView::Read(text::utf8_lossy(out.stdout@))
        } else {
            let complaint = text::utf8_lossy(out.stderr@);
            after_complaint(complaint, text::lowercase(complaint))
        },
    }
}

/// Whether `part` stands somewhere in `s`.
fn mentions(s: &str, part: &str) -> (found: bool)
    ensures
        found == text::contains(s@, part@),
{
    text::find(text::chars_of(s).as_slice(), part).is_some()
}

/// A text without the white space around it.
fn trimmed_text(s: &str) -> (t: String)
    ensures
        t@ == text::trim(s@),
{
    text::text_of(text::trimmed(text::chars_of(s).as_slice()))
}

/// How to go on after a scan that ended with a complaint; `lowered` is the
/// complaint in lower case.
pub fn scan_complaint(complaint: &str, lowered: &str) -> (step: ScanStep)
    ensures
        step@ == after_complaint(complaint@, lowered@),
{
    if mentions(complaint, "Operation not permitted") || mentions(complaint, "Permission denied") {
        return ScanStep::Failed("permission denied while scanning — run with sudo".to_string());
    }
    let error = text::join("scan failed: ", trimmed_text(complaint).as_str());
    if mentions(lowered, "busy") {
        ScanStep::Retry(error)
    } else {
        ScanStep::Failed(error)
    }
}

/// How to go on after the scan command was run for the first time, or could
/// not be run.
pub fn scan_networks(run: &Result<CommandOutput, String>) -> (step: ScanStep)
    ensures
        step@ == after_scan(*run),
        run is Ok && (run->Ok_0).success && vstd::utf8::valid_utf8((run->Ok_0).stdout@) ==> step@
            == ScanStepView::Read(vstd::utf8::decode_utf8((run->Ok_0).stdout@)),
{
    match run {
        Err(e) => ScanStep::Failed(text::join("failed to run `iw`: ", e.as_str())),
        Ok(out) => {
            if out.success {
                ScanStep::Read(text::decode_lossy(out.stdout.as_slice()))
            } else {
                let complaint = text::decode_lossy(out.stderr.as_slice());
                let lowered = text::to_lowercase(complaint.as_str());
                scan_complaint(complaint.as_str(), lowered.as_str())
            }
        },
    }
}

/// What a scan comes to after its command was run for the second time: the
/// output, or the error of the first time.
pub open spec fn after_retry(
    error: Seq<char>,
    run: Result<CommandOutput, String>,
) -> Result<Seq<char>, Seq<char>> {
    match run {
        Ok(out) => if out.success {
            Ok(text::utf8_lossy(out.stdout@))
        } else {
            Err(error)
        },
        Err(_) => Err(error),
    }
}

/// What a scan comes to after its command was run for the second time, where
/// `error` is what became of the first.
pub fn scan_retry(error: String, run: &Result<CommandOutput, String>) -> (result: Result<
    String,
    String,
>)
    ensures
        text::result_view(result) == after_retry(error@, *run),
        run is Ok && (run->Ok_0).success && vstd::utf8::valid_utf8((run->Ok_0).stdout@) ==> text::result_view(
            result,
        ) == Ok::<Seq<char>, Seq<char>>(vstd::utf8::decode_utf8((run->Ok_0).stdout@)),
{
    match run {
        Ok(out) => {
            if out.success {
                return Ok(text::decode_lossy(out.stdout.as_slice()));
            }
            Err(error)
        },
        Err(_) => Err(error),
    }
}

// ---------- the network that is connected ----------

/// The name that a line of the link state gives, if it gives one.
pub open spec fn link_name(line: Seq<char>) -> Option<Seq<char>> {
    match text::strip_prefix(text::trim(line), "SSID:"@) {
        Some(rest) => if text::trim(rest).len() > 0 {
            Some(text::trim(rest))
        } else {
            None
        },
        None => None,
    }
}

/// The name that the first of the lines with a name gives.
pub open spec fn first_link_name(ls: Seq<Seq<char>>) -> Option<Seq<char>>
    decreases ls.len(),
{
    if ls.len() == 0 {
        None
    } else if link_name(ls[0]) is Some {
        link_name(ls[0])
    } else {
        first_link_name(ls.drop_first())
    }
}

/// The name of the network that a link state says is connected.
pub open spec fn connected_name(state: Seq<char>) -> Option<Seq<char>> {
    if text::contains(state, "Not connected"@) {
        None
    } else {
        first_link_name(text::lines(state))
    }
}

/// The name of the network that a link state says is connected.
pub fn link_ssid(state: &str) -> (ssid: Option<String>)
    ensures
        text::option_view(ssid) == connected_name(state@),
{
    if mentions(state, "Not connected") {
        return None;
    }
    let all = text::chars_of(state);
    let parts = text::split_lines(all.as_slice());
    let ghost ls = text::lines(state@);
    let mut i: usize = 0;
    assert(ls.skip(0) =~= ls);
    while i < parts.len()
        invariant
            i <= parts@.len(),
            ls == parts@.map_values(|l: Vec<char>| l@),
            ls == text::lines(state@),
            !text::contains(state@, "Not connected"@),
            first_link_name(ls.skip(i as int)) == first_link_name(ls),
        decreases parts@.len() - i,
    {
        assert(ls.skip(i as int)[0] == parts@[i as int]@);
        assert(ls.skip(i as int).drop_first() =~= ls.skip(i + 1));
        if let Some(rest) = text::stripped(text::trimmed(parts[i].as_slice()), "SSID:") {
            let name = text::trimmed(rest);
            if name.len() > 0 {
                return Some(text::text_of(name));
            }
        }
        i += 1;
    }
    None
}

/// The name of the connected network, from the output of `iw dev .. link`.
pub fn current_ssid(stdout: &[u8]) -> (ssid: Option<String>)
    ensures
        text::option_view(ssid) == connected_name(text::utf8_lossy(stdout@)),
        vstd::utf8::valid_utf8(stdout@) ==> text::option_view(ssid) == connected_name(vstd::utf8::decode_utf8(stdout@)),
{
    link_ssid(text::decode_lossy(stdout).as_str())
}

/// The address that a line of the address list gives, if it gives one: what
/// stands between the first `inet ` and the next slash.
pub open spec fn inet_address(line: Seq<char>) -> Option<Seq<char>> {
    if text::contains(line, "inet "@) {
        let ip = text::trim(
            text::before(line.skip(text::first_place(line, "inet "@) + "inet "@.len()), '/'),
        );
        if ip.len() > 0 {
            Some(ip)
        } else {
            None
        }
    } else {
        None
    }
}

/// The address that the first of the lines with an address gives.
pub open spec fn first_address(ls: Seq<Seq<char>>) -> Option<Seq<char>>
    decreases ls.len(),
{
    if ls.len() == 0 {
        None
    } else if inet_address(ls[0]) is Some {
        inet_address(ls[0])
    } else {
        first_address(ls.drop_first())
    }
}

/// The address that an address list gives.
pub fn listed_ip(list: &str) -> (ip: Option<String>)
    ensures
        text::option_view(ip) == first_address(text::lines(list@)),
{
    let all = text::chars_of(list);
    let parts = text::split_lines(all.as_slice());
    let ghost ls = text::lines(list@);
    let mut i: usize = 0;
    assert(ls.skip(0) =~= ls);
    proof {
        reveal_strlit("inet ");
    }
    while i < parts.len()
        invariant
            i <= parts@.len(),
            "inet "@.len() == 5,
            ls == parts@.map_values(|l: Vec<char>| l@),
            ls == text::lines(list@),
            first_address(ls.skip(i as int)) == first_address(ls),
        decreases parts@.len() - i,
    {
        let line = parts[i].as_slice();
        assert(ls.skip(i as int)[0] == line@);
        assert(ls.skip(i as int).drop_first() =~= ls.skip(i + 1));
        if let Some(place) = text::find(line, "inet ") {
            let ip = text::trimmed(text::cut_at(slice_subrange(line, place + 5, line.len()), '/'));
            if ip.len() > 0 {
                return Some(text::text_of(ip));
            }
        }
        i += 1;
    }
    None
}

/// The address of the interface, from the output of `ip -4 -o addr show`.
pub fn current_ip(stdout: &[u8]) -> (ip: Option<String>)
    ensures
        text::option_view(ip) == first_address(text::lines(text::utf8_lossy(stdout@))),
        vstd::utf8::valid_utf8(stdout@) ==> text::option_view(ip) == first_address(
            text::lines(vstd::utf8::decode_utf8(stdout@)),
        ),
{
    listed_ip(text::decode_lossy(stdout).as_str())
}

/// Whether the network that is connected, if any, is the one of that name.
pub fn is_connected_to(current: &Option<String>, ssid: &str) -> (connected: bool)
    ensures
        connected == (text::option_view(*current) == Some(ssid@)),
{
    match current {
        Some(name) => text::same_text(name.as_str(), ssid),
        None => false,
    }
}

} // verus!
