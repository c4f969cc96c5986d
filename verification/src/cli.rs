//! The command line: what is asked for, and what is printed.

use vstd::prelude::*;

use crate::label;
use crate::render::Level;
use crate::scan;
use crate::scan::{Network, NetworkView};
use crate::signal;
use crate::text;
use crate::tui::{App, AppView, Screen};

verus! {

// ---------- arguments ----------

/// What the arguments ask for.
#[derive(Debug, PartialEq, Eq)]
pub enum Command {
    /// Connect to a network without the screens.
    Connect { ssid: String, password: String, dry_run: bool },
    /// Nothing that can be done: say how the program is used.
    Usage,
    /// Print one screen.
    Snapshot(String),
    /// Print the networks.
    List,
    /// Show the screens.
    Interactive { dry_run: bool },
}

/// A command, with its texts as sequences of characters.
pub enum CommandView {
    Connect { ssid: Seq<char>, password: Seq<char>, dry_run: bool },
    Usage,
    Snapshot(Seq<char>),
    List,
    Interactive { dry_run: bool },
}

impl View for Command {
    type V = CommandView;

    open spec fn view(&self) -> CommandView {
        match *self {
            Command::Connect { ssid, password, dry_run } => CommandView::Connect {
                ssid: ssid@,
                password: password@,
                dry_run,
            },
            Command::Usage => CommandView::Usage,
            Command::Snapshot(which) => CommandView::Snapshot(which@),
            Command::List => CommandView::List,
            Command::Interactive { dry_run } => CommandView::Interactive { dry_run },
        }
    }
}

/// The arguments, as sequences of characters.
pub open spec fn arg_views(args: Seq<String>) -> Seq<Seq<char>> {
    args.map_values(|a: String| a@)
}

/// Whether `i` is the first place at which `flag` stands among the arguments.
pub open spec fn is_flag_at(args: Seq<Seq<char>>, flag: Seq<char>, i: int) -> bool {
    &&& 0 <= i < args.len()
    &&& args[i] == flag
    &&& forall|j: int| 0 <= j < i ==> #[trigger] args[j] != flag
}

/// The first place at which `flag` stands among the arguments.
pub open spec fn flag_place(args: Seq<Seq<char>>, flag: Seq<char>) -> int {
    choose|i: int| is_flag_at(args, flag, i)
}

/// The argument at a place, or `default` if there is none.
pub open spec fn arg_or(args: Seq<Seq<char>>, i: int, default: Seq<char>) -> Seq<char> {
    if i < args.len() {
        args[i]
    } else {
        default
    }
}

/// What the arguments ask for: `--connect` before `--snapshot` before `--list`,
/// and the screens where there is none of them.
pub open spec fn command(args: Seq<Seq<char>>) -> CommandView {
    let dry_run = args.contains("--dry-run"@);
    if args.contains("--connect"@) {
        let place = flag_place(args, "--connect"@);
        let ssid = arg_or(args, place + 1, ""@);
        if ssid.len() == 0 {
            CommandView::Usage
        } else {
            CommandView::Connect { ssid, password: arg_or(args, place + 2, ""@), dry_run }
        }
    } else if args.contains("--snapshot"@) {
        CommandView::Snapshot(arg_or(args, flag_place(args, "--snapshot"@) + 1, "list"@))
    } else if args.contains("--list"@) {
        CommandView::List
    } else {
        CommandView::Interactive { dry_run }
    }
}

/// The first place at which `flag` stands among the arguments.
fn find_flag(args: &Vec<String>, flag: &str) -> (place: Option<usize>)
    ensures
        place is Some <==> arg_views(args@).contains(flag@),
        place is Some ==> place->0 < args@.len() && place->0 == flag_place(
            arg_views(args@),
            flag@,
        ),
{
    let ghost views = arg_views(args@);
    let mut i: usize = 0;
    while i < args.len()
        invariant
            i <= args@.len(),
            views == arg_views(args@),
            forall|j: int| 0 <= j < i ==> #[trigger] views[j] != flag@,
        decreases args@.len() - i,
    {
        assert(views[i as int] == args@[i as int]@);
        if text::same_text(args[i].as_str(), flag) {
            proof {
                assert(is_flag_at(views, flag@, i as int));
                let k = flag_place(views, flag@);
                assert(is_flag_at(views, flag@, k));
                if k < i {
                    assert(views[k] != flag@);
                }
                if i < k {
                    assert(views[i as int] != flag@);
                }
                assert(views.contains(flag@));
            }
            return Some(i);
        }
        i += 1;
    }
    None
}

/// The argument `offset` places behind `place`, or `default` if there is none.
fn arg_behind(args: &Vec<String>, place: usize, offset: usize, default: &str) -> (arg: String)
    requires
        place < args@.len(),
    ensures
        arg@ == arg_or(arg_views(args@), place + offset, default@),
{
    if offset < args.len() - place {
        args[place + offset].clone()
    } else {
        default.to_string()
    }
}

/// What the arguments of the program ask for.
pub fn parse_args(args: &Vec<String>) -> (asked: Command)
    ensures
        asked@ == command(arg_views(args@)),
{
    let dry_run = find_flag(args, "--dry-run").is_some();
    if let Some(place) = find_flag(args, "--connect") {
        proof {
            reveal_strlit("");
        }
        let ssid = arg_behind(args, place, 1, "");
        let password = arg_behind(args, place, 2, "");
        if ssid.as_str().is_empty() {
            return Command::Usage;
        }
        return Command::Connect { ssid, password, dry_run };
    }
    if let Some(place) = find_flag(args, "--snapshot") {
        return Command::Snapshot(arg_behind(args, place, 1, "list"));
    }
    if find_flag(args, "--list").is_some() {
        return Command::List;
    }
    Command::Interactive { dry_run }
}

// ---------- what is printed ----------

/// How the program is used.
pub const USAGE: &'static str = "usage: oaifai --connect \"SSID\" \"PASSWORD\"";

/// Says that a network is being connected.
pub fn connecting_line(ssid: &str) -> (line: String)
    ensures
        line@ == "Connecting to \""@ + ssid@ + "\"…"@,
{
    text::join3("Connecting to \"", ssid, "\"…")
}

/// What is printed of an attempt to connect.
pub open spec fn report(ssid: Seq<char>, result: Result<Seq<char>, Seq<char>>) -> Seq<char> {
    match result {
        Ok(ip) => "✓ Connected to \""@ + ssid + "\" — IP "@ + ip,
        Err(e) => "✗ "@ + e,
    }
}

/// Says what an attempt to connect came to.
pub fn connect_report(ssid: &str, result: &Result<String, String>) -> (line: String)
    ensures
        line@ == report(ssid@, text::result_view(*result)),
{
    match result {
        Ok(ip) => text::join3("✓ Connected to \"", ssid, "\" — IP ").concat(ip.as_str()),
        Err(e) => text::join("✗ ", e.as_str()),
    }
}

/// What is printed of the network that is connected.
pub open spec fn status(ssid: Option<Seq<char>>, ip: Option<Seq<char>>) -> Seq<char> {
    match ssid {
        Some(name) => "Connected: \""@ + name + "\"  —  IP "@ + (match ip {
            Some(address) => address,
            None => "no IP"@,
        }) + "\n"@,
        None => "Not connected\n"@,
    }
}

/// Says which network is connected, if any, with which address.
pub fn status_line(ssid: &Option<String>, ip: &Option<String>) -> (line: String)
    ensures
        line@ == status(text::option_view(*ssid), text::option_view(*ip)),
{
    match ssid {
        Some(name) => {
            let address = match ip {
                Some(address) => address.clone(),
                None => "no IP".to_string(),
            };
            text::join3("Connected: \"", name.as_str(), "\"  —  IP ").concat(
                address.as_str(),
            ).concat("\n")
        },
        None => "Not connected\n".to_string(),
    }
}

/// What is printed of a network; `active` is the one that is connected.
pub open spec fn network_text(net: NetworkView, level: Level, active: Option<Seq<char>>) -> Seq<
    char,
> {
    signal::bars(level.quality) + "  "@ + text::pad_left(label::decimal(level.dbm as int), 4)
        + " dBm  "@ + net.ssid + (if active == Some(net.ssid) {
        "  ✓"@
    } else {
        ""@
    })
}

/// The line of a network; `active` is the one that is connected.
fn network_line(net: &Network, level: Level, active: &Option<String>) -> (line: String)
    ensures
        line@ == network_text(net@, level, text::option_view(*active)),
{
    let is_active = match active {
        Some(name) => text::same_text(name.as_str(), net.ssid.as_str()),
        None => false,
    };
    let mark = if is_active {
        "  ✓"
    } else {
        ""
    };
    let dbm = text::padded_left(label::decimal_text(level.dbm).as_str(), 4);
    signal::signal_bars(level.quality).concat("  ").concat(dbm.as_str()).concat(" dBm  ").concat(
        net.ssid.as_str(),
    ).concat(mark)
}

/// What is printed of the networks, line by line.
pub open spec fn list_texts(
    nets: Seq<NetworkView>,
    levels: Seq<Level>,
    active: Option<Seq<char>>,
) -> Seq<Seq<char>> {
    if nets.len() == 0 {
        seq!["(no networks found)"@]
    } else {
        Seq::new(nets.len(), |i: int| network_text(nets[i], levels[i], active))
    }
}

/// The lines that tell of the networks. `levels` tells how well each is
/// received, `active` which one is connected.
pub fn list_lines(nets: &Vec<Network>, levels: &Vec<Level>, active: &Option<String>) -> (lines: Vec<
    String,
>)
    requires
        levels@.len() == nets@.len(),
    ensures
        arg_views(lines@) == list_texts(scan::views(nets@), levels@, text::option_view(*active)),
{
    let mut lines: Vec<String> = Vec::new();
    let ghost all = list_texts(scan::views(nets@), levels@, text::option_view(*active));
    if nets.len() == 0 {
        lines.push("(no networks found)".to_string());
        assert(arg_views(lines@) =~= all);
        return lines;
    }
    let mut i: usize = 0;
    while i < nets.len()
        invariant
            i <= nets@.len(),
            nets@.len() > 0,
            levels@.len() == nets@.len(),
            all == list_texts(scan::views(nets@), levels@, text::option_view(*active)),
            arg_views(lines@) == all.take(i as int),
        decreases nets@.len() - i,
    {
        let ghost done = arg_views(lines@);
        let line = network_line(&nets[i], levels[i], active);
        assert(scan::views(nets@)[i as int] == nets@[i as int]@);
        assert(line@ == all[i as int]);
        lines.push(line);
        assert(arg_views(lines@) =~= done.push(line@));
        i += 1;
        assert(arg_views(lines@) =~= all.take(i as int));
    }
    assert(all.take(i as int) =~= all);
    lines
}

/// Says why the networks could not be listed.
pub fn list_error(error: &str) -> (line: String)
    ensures
        line@ == "Error: "@ + error@,
{
    text::join("Error: ", error)
}

// ---------- snapshots ----------

/// The name that a snapshot shows: that of the connected network, or another.
pub open spec fn sample_ssid(app: AppView) -> Seq<char> {
    match app.connected_ssid {
        Some(ssid) => ssid,
        None => "S1"@,
    }
}

/// The state that a snapshot of a screen shows.
pub open spec fn staged(app: AppView, which: Seq<char>) -> AppView {
    if which == "password"@ {
        AppView {
            target_ssid: sample_ssid(app),
            password: "hunter2"@,
            screen: Screen::Password,
            ..app
        }
    } else if which == "done"@ {
        AppView {
            target_ssid: sample_ssid(app),
            result: Some(
                Ok(
                    match app.connected_ip {
                        Some(ip) => ip,
                        None => "192.168.1.30"@,
                    },
                ),
            ),
            screen: Screen::Done,
            ..app
        }
    } else {
        app
    }
}

impl App {
    /// Brings up the screen of which a snapshot is to be taken.
    pub fn stage(&mut self, which: &str)
        ensures
            final(self)@ == staged(old(self)@, which@),
            old(self)@.has_list() ==> final(self)@.has_list(),
    {
        let target = match &self.connected_ssid {
            Some(ssid) => ssid.clone(),
            None => "S1".to_string(),
        };
        if text::same_text(which, "password") {
            self.target_ssid = target;
            self.password = "hunter2".to_string();
            self.screen = Screen::Password;
        } else if text::same_text(which, "done") {
            let ip = match &self.connected_ip {
                Some(ip) => ip.clone(),
                None => "192.168.1.30".to_string(),
            };
            self.target_ssid = target;
            self.result = Some(Ok(ip));
            self.screen = Screen::Done;
        }
    }
}

/// The texts, one after the other.
pub open spec fn joined(parts: Seq<Seq<char>>) -> Seq<char>
    decreases parts.len(),
{
    if parts.len() == 0 {
        Seq::empty()
    } else {
        joined(parts.drop_last()) + parts.last()
    }
}

/// The text of a row of cells, without the white space at its end.
pub fn row_text(symbols: &Vec<String>) -> (line: String)
    ensures
        line@ == text::trim_end(joined(arg_views(symbols@))),
{
    let ghost parts = arg_views(symbols@);
    let mut line = String::new();
    let mut i: usize = 0;
    while i < symbols.len()
        invariant
            i <= symbols@.len(),
            parts == arg_views(symbols@),
            line@ == joined(parts.take(i as int)),
        decreases symbols@.len() - i,
    {
        assert(parts[i as int] == symbols@[i as int]@);
        line.append(symbols[i].as_str());
        i += 1;
        assert(parts.take(i as int).drop_last() =~= parts.take(i - 1));
    }
    assert(parts.take(i as int) =~= parts);
    text::text_of(text::trimmed_end(text::chars_of(line.as_str()).as_slice()))
}

// ---------- laws ----------

/// `--connect` decides over any other request, and with a name behind it that
/// is not empty it asks for that network.
pub proof fn law_connect_comes_first(args: Seq<Seq<char>>, i: int)
    requires
        is_flag_at(args, "--connect"@, i),
    ensures
        i + 1 < args.len() && args[i + 1].len() > 0 ==> command(args) == (CommandView::Connect {
            ssid: args[i + 1],
            password: arg_or(args, i + 2, ""@),
            dry_run: args.contains("--dry-run"@),
        }),
        i + 1 >= args.len() || args[i + 1].len() == 0 ==> command(args) == CommandView::Usage,
{
    reveal_strlit("");
    let k = flag_place(args, "--connect"@);
    assert(is_flag_at(args, "--connect"@, k));
    if k < i {
        assert(args[k] != "--connect"@);
    }
    if i < k {
        assert(args[i] != "--connect"@);
    }
    assert(args.contains("--connect"@));
}

} // verus!
