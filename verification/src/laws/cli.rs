//! Laws of the command line.

use vstd::prelude::*;

use crate::cli;
use crate::cli::CommandView;
use crate::label;
use crate::render::Level;
use crate::scan::NetworkView;
use crate::signal;
use crate::text;
use crate::tui::{AppView, Screen};

verus! {

// ---------- arguments ----------

/// `--connect` asks for an attempt with what stands behind the first of it, or
/// for the usage where no name does. Without it, `--snapshot` asks for the
/// screen that is named behind the first of it, or for the list. Without
/// either, `--list` asks for the networks, and without any the screens come up.
/// Whether the run is a dry one, `--dry-run` says, wherever it stands.
pub proof fn law_what_the_arguments_ask_for(args: Seq<Seq<char>>, i: int)
    ensures
        ({
            let asked = cli::command(args);
            let connect = args.contains("--connect"@);
            let snapshot = args.contains("--snapshot"@);
            let first = |flag: Seq<char>|
                0 <= i < args.len() && args[i] == flag && !args.take(i).contains(flag);
            &&& (asked is Connect || asked is Usage) <==> connect
            &&& asked is Snapshot <==> !connect && snapshot
            &&& asked is List <==> !connect && !snapshot && args.contains("--list"@)
            &&& asked is Interactive <==> !connect && !snapshot && !args.contains("--list"@)
            &&& asked is Interactive ==> asked->Interactive_dry_run == args.contains("--dry-run"@)
            &&& asked is Connect ==> asked->Connect_dry_run == args.contains("--dry-run"@)
            &&& first("--connect"@) ==> {
                let named = i + 1 < args.len() && args[i + 1].len() > 0;
                &&& asked is Connect <==> named
                &&& named ==> asked->Connect_ssid == args[i + 1]
                &&& named && i + 2 < args.len() ==> asked->Connect_password == args[i + 2]
                &&& named && i + 2 >= args.len() ==> asked->Connect_password.len() == 0
            }
            &&& !connect && first("--snapshot"@) ==> {
                &&& i + 1 < args.len() ==> asked == CommandView::Snapshot(args[i + 1])
                &&& i + 1 >= args.len() ==> asked == CommandView::Snapshot("list"@)
            }
        }),
{
    reveal_strlit("");
    lemma_flag(args, "--connect"@, i);
    lemma_flag(args, "--snapshot"@, i);
}

proof fn lemma_flag(args: Seq<Seq<char>>, flag: Seq<char>, i: int)
    ensures
        0 <= i < args.len() && args[i] == flag && !args.take(i).contains(flag)
            ==> cli::flag_place(args, flag) == i && args.contains(flag),
{
    if 0 <= i < args.len() && args[i] == flag && !args.take(i).contains(flag) {
        assert forall|j: int| 0 <= j < i implies #[trigger] args[j] != flag by {
            assert(args.take(i)[j] == args[j]);
        }
        assert(cli::is_flag_at(args, flag, i));
        let k = cli::flag_place(args, flag);
        assert(cli::is_flag_at(args, flag, k));
        if k < i {
            assert(args[k] != flag);
        }
        if i < k {
            assert(args[i] != flag);
        }
    }
}

// ---------- what is printed ----------

/// Where networks were found, there is one line for each, in order, whichever
/// is connected, and also where none is. The line of a network holds its bars,
/// its level, at least four characters wide, its name, and a mark if it is the
/// one that is connected.
pub proof fn law_list_has_a_line_for_each_network(
    nets: Seq<NetworkView>,
    levels: Seq<Level>,
    active: Option<Seq<char>>,
    i: int,
)
    requires
        0 <= i < nets.len(),
        levels.len() == nets.len(),
    ensures
        ({
            let lines = cli::list_texts(nets, levels, active);
            let level = text::pad_left(label::decimal(levels[i].dbm as int), 4);
            let line = signal::bars(levels[i].quality) + "  "@ + level + " dBm  "@ + nets[i].ssid;
            &&& lines.len() == nets.len()
            &&& active == Some(nets[i].ssid) ==> lines[i] == line + "  ✓"@
            &&& active != Some(nets[i].ssid) ==> lines[i] == line
            &&& text::contains(lines[i], nets[i].ssid)
            &&& text::contains(lines[i], label::decimal(levels[i].dbm as int))
            &&& lines[i] != "(no networks found)"@
        }),
{
    reveal_strlit("");
    reveal_strlit("(no networks found)");
    let lines = cli::list_texts(nets, levels, active);
    let bars = signal::bars(levels[i].quality) + "  "@;
    let number = label::decimal(levels[i].dbm as int);
    let level = text::pad_left(number, 4);
    let before = bars + level + " dBm  "@;
    let line = before + nets[i].ssid;
    assert(line + ""@ =~= line);
    assert(lines[i] == line || lines[i] == line + "  ✓"@);
    let name_at = before.len() as int;
    assert(lines[i].subrange(name_at, name_at + nets[i].ssid.len()) =~= nets[i].ssid);
    assert(text::stands_at(lines[i], nets[i].ssid, name_at));
    let number_at = bars.len() + level.len() - number.len();
    assert(lines[i].subrange(number_at, number_at + number.len()) =~= number);
    assert(text::stands_at(lines[i], number, number_at));
    assert(lines[i][0] == '▂');
}

/// Which network is connected makes no difference to the lines of the others.
pub proof fn law_list_marks_only_the_connected_network(
    nets: Seq<NetworkView>,
    levels: Seq<Level>,
    active: Option<Seq<char>>,
    i: int,
)
    requires
        0 <= i < nets.len(),
        levels.len() == nets.len(),
    ensures
        active != Some(nets[i].ssid) ==> cli::list_texts(nets, levels, active)[i]
            == cli::list_texts(nets, levels, None)[i],
        active == Some(nets[i].ssid) ==> cli::list_texts(nets, levels, active)[i]
            == cli::list_texts(nets, levels, None)[i] + "  ✓"@,
{
    law_list_has_a_line_for_each_network(nets, levels, active, i);
    law_list_has_a_line_for_each_network(nets, levels, None, i);
}

/// That no network was found is said where that is so, and nothing else.
pub proof fn law_empty_list_says_so(levels: Seq<Level>, active: Option<Seq<char>>)
    ensures
        cli::list_texts(Seq::empty(), levels, active) == seq!["(no networks found)"@],
{
}

/// The status names the connected network and its address, or says that it has
/// none; without a network it says so, whatever the address is.
pub proof fn law_status_line(name: Seq<char>, ip: Seq<char>, any: Option<Seq<char>>)
    ensures
        cli::status(Some(name), Some(ip)) == "Connected: \""@ + name + "\"  —  IP "@ + ip + "\n"@,
        cli::status(Some(name), None) == cli::status(Some(name), Some("no IP"@)),
        cli::status(None, any) == "Not connected\n"@,
{
}

/// The report of an attempt names the network and its address, or what went
/// wrong.
pub proof fn law_report_line(ssid: Seq<char>, ip: Seq<char>, error: Seq<char>)
    ensures
        cli::report(ssid, Ok(ip)) == "✓ Connected to \""@ + ssid + "\" — IP "@ + ip,
        cli::report(ssid, Err(error)) == "✗ "@ + error,
{
}

// ---------- snapshots ----------

/// A snapshot of the password or of the result shows the connected network, or
/// a sample where there is none, and leaves the list as it is. Of anything else
/// it shows the list.
pub proof fn law_snapshots(app: AppView, which: Seq<char>)
    ensures
        ({
            let after = cli::staged(app, which);
            let ssid = match app.connected_ssid {
                Some(name) => name,
                None => "S1"@,
            };
            let ip = match app.connected_ip {
                Some(address) => address,
                None => "192.168.1.30"@,
            };
            &&& which == "password"@ ==> after == (AppView {
                screen: Screen::Password,
                target_ssid: ssid,
                password: "hunter2"@,
                ..app
            })
            &&& which == "done"@ ==> after == (AppView {
                screen: Screen::Done,
                target_ssid: ssid,
                result: Some(Ok(ip)),
                ..app
            })
            &&& which != "password"@ && which != "done"@ ==> after == app
        }),
{
    reveal_strlit("password");
    reveal_strlit("done");
    assert("password"@.len() != "done"@.len());
}

/// The text of a row is that of its cells, one after the other.
pub proof fn law_joined_cells(a: Seq<Seq<char>>, b: Seq<Seq<char>>, cell: Seq<char>)
    ensures
        cli::joined(seq![cell]) == cell,
        cli::joined(a + b) == cli::joined(a) + cli::joined(b),
    decreases b.len(),
{
    let one = seq![cell];
    assert(one.drop_last() =~= Seq::<Seq<char>>::empty());
    assert(cli::joined(one.drop_last()) =~= Seq::<char>::empty());
    assert(cli::joined(one) =~= cell);
    if b.len() == 0 {
        assert(a + b =~= a);
        assert(cli::joined(b) =~= Seq::<char>::empty());
        assert(cli::joined(a) + cli::joined(b) =~= cli::joined(a));
    } else {
        law_joined_cells(a, b.drop_last(), cell);
        assert((a + b).drop_last() =~= a + b.drop_last());
        assert(cli::joined(a + b) =~= cli::joined(a) + cli::joined(b));
    }
}

} // verus!
