//! Laws of the screens: what keys and messages do.

use vstd::prelude::*;

use crate::scan::NetworkView;
use crate::text;
use crate::tui;
use crate::tui::{AppView, EffectView, Key, MsgView, Screen};

verus! {

// ---------- messages ----------

/// After a scan the list shows what it found, and what is connected. The entry
/// by hand can be selected, and every network but the one that is connected.
/// The first network that can be selected is; if there is none, the entry by
/// hand. What was entered before stays.
pub proof fn law_scan_brings_up_the_list(
    app: AppView,
    nets: Seq<NetworkView>,
    ssid: Option<Seq<char>>,
    ip: Option<Seq<char>>,
    error: Option<Seq<char>>,
)
    ensures
        ({
            let after = app.after_msg(MsgView::Scanned { nets, ssid, ip, error });
            let row = after.selected->0;
            &&& after == (AppView {
                screen: Screen::List,
                nets,
                selectable: after.selectable,
                selected: after.selected,
                connected_ssid: ssid,
                connected_ip: ip,
                scan_error: error,
                ..app
            })
            &&& after.selectable.len() == nets.len() + 1
            &&& after.selectable[0]
            &&& forall|i: int|
                0 <= i < nets.len() ==> after.selectable[i + 1] == !(ssid is Some && ssid->0 == (
                #[trigger] nets[i]).ssid)
            &&& after.selected is Some
            &&& 0 <= row < after.selectable.len()
            &&& after.selectable[row]
            &&& forall|i: int|
                0 <= i < nets.len() && (row == 0 || i + 1 < row) ==> ssid is Some && ssid->0 == (
                #[trigger] nets[i]).ssid
        }),
{
    let msg = MsgView::Scanned { nets, ssid, ip, error };
    let after = app.after_msg(msg);
    tui::law_first_choice(app, msg);
    assert forall|i: int| 0 <= i < nets.len() implies after.selectable[i + 1] == !(ssid is Some
        && ssid->0 == (#[trigger] nets[i]).ssid) by {}
    assert forall|i: int|
        0 <= i < nets.len() && (after.selected->0 == 0 || i + 1 < after.selected->0) implies ssid is Some
        && ssid->0 == (#[trigger] nets[i]).ssid by {
        assert(!after.selectable[i + 1]);
    }
}

/// What an attempt to connect came to is kept and shown, and nothing else
/// changes.
pub proof fn law_result_is_shown(app: AppView, result: Result<Seq<char>, Seq<char>>)
    ensures
        app.after_msg(MsgView::Connected(result)) == (AppView {
            screen: Screen::Done,
            result: Some(result),
            ..app
        }),
{
}

/// The program begins with a scan, and nothing known and nothing entered.
pub proof fn law_program_begins_with_a_scan(dry_run: bool)
    ensures
        ({
            let app = AppView::bare(dry_run).scanning();
            &&& app.screen == Screen::Loading
            &&& app.nets.len() == 0
            &&& app.selectable.len() == 0
            &&& app.selected is None
            &&& app.connected_ssid is None
            &&& app.connected_ip is None
            &&& app.scan_error is None
            &&& app.manual_ssid.len() == 0
            &&& app.password.len() == 0
            &&& !app.show_password
            &&& app.target_ssid.len() == 0
            &&& app.result is None
            &&& app.spinner == 0
            &&& app.dry_run == dry_run
        }),
{
}

// ---------- the list ----------

/// Enter on a row of the list asks for the password of the network in that
/// row, anew and hidden. Row `i` is the one of network `i - 1`. Nothing else
/// changes.
pub proof fn law_enter_chooses_the_network_of_the_row(app: AppView, i: int, control: bool)
    requires
        app.screen == Screen::List,
        app.selected == Some(i),
        1 <= i <= app.nets.len(),
    ensures
        app.after_key(Key::Enter, control).1 == EffectView::Continue,
        app.after_key(Key::Enter, control).0 == (AppView {
            screen: Screen::Password,
            target_ssid: app.nets[i - 1].ssid,
            password: Seq::empty(),
            show_password: false,
            ..app
        }),
{
}

/// Enter on the first row asks for a name, anew. Nothing else changes.
pub proof fn law_enter_on_the_first_row_asks_for_a_name(app: AppView, control: bool)
    requires
        app.screen == Screen::List,
        app.selected == Some(0int),
    ensures
        app.after_key(Key::Enter, control).1 == EffectView::Continue,
        app.after_key(Key::Enter, control).0 == (AppView {
            screen: Screen::ManualSsid,
            manual_ssid: Seq::empty(),
            ..app
        }),
{
}

/// From the choice of a network over its password to the attempt: the network
/// that is connected is the one whose row was selected, with what was typed.
pub proof fn law_chosen_network_is_connected(app: AppView, i: int, line: Seq<char>)
    requires
        app.screen == Screen::List,
        app.selected == Some(i),
        1 <= i <= app.nets.len(),
    ensures
        tui::typed(app.after_key(Key::Enter, false).0, line).after_key(Key::Enter, false).1 == (
        EffectView::Connect {
            ssid: app.nets[i - 1].ssid,
            password: line,
            dry_run: app.dry_run,
        }),
{
    let asked = app.after_key(Key::Enter, false).0;
    tui::law_typed_password_is_used(asked, line);
    assert(asked.password + line =~= line);
}

/// In the list `r` scans again, `q` and Esc end the program, and keys that have
/// no meaning there do nothing.
pub proof fn law_other_keys_of_the_list(app: AppView, key: Key, control: bool)
    requires
        app.screen == Screen::List,
    ensures
        key == Key::Char('r') ==> app.after_key(key, control) == (
            AppView { screen: Screen::Loading, scan_error: None, ..app },
            EffectView::Scan,
        ),
        key == Key::Char('q') || key == Key::Esc ==> app.after_key(key, control) == (
            app,
            EffectView::Quit,
        ),
        key is Char && key->Char_0 != 'r' && key->Char_0 != 'q' && key->Char_0 != 'j'
            && key->Char_0 != 'k' || key == Key::Tab || key == Key::Backspace || key == Key::Other
            || key == Key::Enter && app.selected is None ==> app.after_key(key, control) == (
            app,
            EffectView::Continue,
        ),
{
}

/// The row that lies `k` moves of `delta` rows away, around the ends of a list
/// of `n`.
pub open spec fn row_after(from: int, delta: int, k: int, n: int) -> int {
    (from + k * delta) % n
}

proof fn lemma_seek(rows: Seq<bool>, i: int, delta: int, steps: nat) -> (k: int)
    requires
        rows.len() > 0,
        steps > 0,
    ensures
        ({
            let n = rows.len() as int;
            &&& 1 <= k <= steps
            &&& tui::seek(rows, i, delta, steps) == row_after(i, delta, k, n)
            &&& rows[row_after(i, delta, k, n)] || k == steps
            &&& forall|m: int| 1 <= m < k ==> !rows[#[trigger] row_after(i, delta, m, n)]
        }),
    decreases steps,
{
    let n = rows.len() as int;
    let next = (i + delta) % n;
    assert(row_after(i, delta, 1, n) == next);
    if rows[next] || steps == 1 {
        if steps == 1 {
            reveal_with_fuel(tui::seek, 2);
        }
        1
    } else {
        let k = lemma_seek(rows, next, delta, (steps - 1) as nat);
        assert forall|m: int| row_after(next, delta, m, n) == #[trigger] row_after(
            i,
            delta,
            m + 1,
            n,
        ) by {
            vstd::arithmetic::div_mod::lemma_add_mod_noop_right(m * delta, i + delta, n);
            assert((m + 1) * delta == m * delta + delta) by (nonlinear_arith);
        }
        assert forall|m: int| 1 <= m < k + 1 implies !rows[#[trigger] row_after(
            i,
            delta,
            m,
            n,
        )] by {
            if m > 1 {
                assert(row_after(i, delta, (m - 1) + 1, n) == row_after(next, delta, m - 1, n));
            }
        }
        assert(row_after(i, delta, k + 1, n) == row_after(next, delta, k, n));
        k + 1
    }
}

/// A move of the selection goes on by its number of rows, around the ends of
/// the list, until it comes to a row that can be selected, and past none; or,
/// where it meets no such row, as often as there are rows. Nothing else
/// changes. Where there are no rows, nothing changes at all.
pub proof fn law_move_stops_at_the_first_choice(app: AppView, delta: int) -> (k: int)
    ensures
        app.selectable.len() == 0 ==> app.moved(delta) == app,
        app.selectable.len() > 0 ==> {
            let n = app.selectable.len() as int;
            let from = if app.selected is Some {
                app.selected->0
            } else {
                0
            };
            &&& app.moved(delta) == (AppView {
                selected: Some(row_after(from, delta, k, n)),
                ..app
            })
            &&& 1 <= k <= n
            &&& app.selectable[row_after(from, delta, k, n)] || k == n
            &&& forall|m: int|
                1 <= m < k ==> !app.selectable[#[trigger] row_after(from, delta, m, n)]
        },
{
    if app.selectable.len() > 0 {
        let from = if app.selected is Some {
            app.selected->0
        } else {
            0
        };
        lemma_seek(app.selectable, from, delta, app.selectable.len())
    } else {
        1
    }
}

/// Down and `j` move the selection one row on, Up and `k` one row back.
pub proof fn law_keys_that_move(app: AppView, key: Key, control: bool)
    requires
        app.screen == Screen::List,
        key == Key::Down || key == Key::Up || key == Key::Char('j') || key == Key::Char('k'),
    ensures
        app.after_key(key, control) == (
            app.moved(
                if key == Key::Down || key == Key::Char('j') {
                    1
                } else {
                    -1
                },
            ),
            EffectView::Continue,
        ),
{
}

// ---------- entries ----------

/// A line after some characters were typed is the line with them at its end.
/// Control-U empties it, Backspace takes the last character off, and keys that
/// stand for no character leave it.
pub proof fn law_editing_a_line(line: Seq<char>, key: Key, control: bool)
    ensures
        ({
            let after = tui::edited(line, key, control);
            &&& key is Char && !(control && key->Char_0 == 'u') ==> after == line + seq![
                key->Char_0,
            ]
            &&& key == Key::Char('u') && control ==> after.len() == 0
            &&& key == Key::Backspace && line.len() > 0 ==> after == line.take(line.len() - 1)
            &&& key == Key::Backspace && line.len() == 0 ==> after == line
            &&& !(key is Char) && key != Key::Backspace ==> after == line
        }),
{
    if key is Char {
        assert(line.push(key->Char_0) =~= line + seq![key->Char_0]);
    }
    if line.len() > 0 {
        assert(line.drop_last() =~= line.take(line.len() - 1));
    }
}

/// While a name is entered, Esc goes back to the list with the name kept, Enter
/// goes on to the password of the name without the white space around it unless
/// that leaves nothing, and other keys edit the name. Nothing is to be done
/// beside the screens.
pub proof fn law_keys_of_the_name(app: AppView, key: Key, control: bool)
    requires
        app.screen == Screen::ManualSsid,
    ensures
        ({
            let (after, effect) = app.after_key(key, control);
            let name = text::trim(app.manual_ssid);
            &&& effect == EffectView::Continue
            &&& key == Key::Esc ==> after == (AppView { screen: Screen::List, ..app })
            &&& key == Key::Enter && name.len() == 0 ==> after == app
            &&& key == Key::Enter && name.len() > 0 ==> after == (AppView {
                screen: Screen::Password,
                target_ssid: name,
                password: Seq::empty(),
                show_password: false,
                ..app
            })
            &&& key != Key::Esc && key != Key::Enter ==> after == (AppView {
                manual_ssid: tui::edited(app.manual_ssid, key, control),
                ..app
            })
        }),
{
}

/// What is typed as a name, without the white space around it, is the network
/// whose password is asked for.
pub proof fn law_typed_name_is_used(app: AppView, line: Seq<char>)
    requires
        app.screen == Screen::ManualSsid,
        text::trim(app.manual_ssid + line).len() > 0,
    ensures
        tui::typed(app, line) == (AppView { manual_ssid: app.manual_ssid + line, ..app }),
        tui::typed(app, line).after_key(Key::Enter, false).0.screen == Screen::Password,
        tui::typed(app, line).after_key(Key::Enter, false).0.target_ssid == text::trim(
            app.manual_ssid + line,
        ),
{
    lemma_typed_name(app, line);
}

proof fn lemma_typed_name(app: AppView, line: Seq<char>)
    requires
        app.screen == Screen::ManualSsid,
    ensures
        tui::typed(app, line) == (AppView { manual_ssid: app.manual_ssid + line, ..app }),
    decreases line.len(),
{
    if line.len() > 0 {
        lemma_typed_name(app, line.drop_last());
        assert((app.manual_ssid + line.drop_last()).push(line.last()) =~= app.manual_ssid + line);
    } else {
        assert(app.manual_ssid + line =~= app.manual_ssid);
    }
}

/// While a password is entered, Esc goes back to the list, Tab shows or hides
/// the password and nothing more, Enter connects to the network that was
/// chosen with the password that was entered, forgetting the last result, and
/// other keys edit the password.
pub proof fn law_keys_of_the_password(app: AppView, key: Key, control: bool)
    requires
        app.screen == Screen::Password,
    ensures
        ({
            let (after, effect) = app.after_key(key, control);
            &&& key == Key::Esc ==> after == (AppView { screen: Screen::List, ..app })
            &&& key == Key::Tab ==> after == (AppView { show_password: !app.show_password, ..app })
            &&& key == Key::Enter ==> after == (AppView {
                screen: Screen::Connecting,
                result: None,
                ..app
            })
            &&& key != Key::Esc && key != Key::Tab && key != Key::Enter ==> after == (AppView {
                password: tui::edited(app.password, key, control),
                ..app
            })
            &&& key == Key::Enter ==> effect == (EffectView::Connect {
                ssid: app.target_ssid,
                password: app.password,
                dry_run: app.dry_run,
            })
            &&& key != Key::Enter ==> effect == EffectView::Continue
        }),
{
}

// ---------- the other screens ----------

/// While a scan runs only `q` does anything, and it ends the program; while a
/// network is being connected no key does anything. Once the result is shown,
/// `q` and Esc end the program and any other key scans again.
pub proof fn law_keys_of_the_other_screens(app: AppView, key: Key, control: bool)
    ensures
        app.screen == Screen::Loading && key == Key::Char('q') ==> app.after_key(key, control) == (
            app,
            EffectView::Quit,
        ),
        app.screen == Screen::Loading && key != Key::Char('q') ==> app.after_key(key, control) == (
            app,
            EffectView::Continue,
        ),
        app.screen == Screen::Connecting ==> app.after_key(key, control) == (
            app,
            EffectView::Continue,
        ),
        app.screen == Screen::Done && (key == Key::Char('q') || key == Key::Esc) ==> app.after_key(
            key,
            control,
        ) == (app, EffectView::Quit),
        app.screen == Screen::Done && key != Key::Char('q') && key != Key::Esc ==> app.after_key(
            key,
            control,
        ) == (
            AppView { screen: Screen::Loading, scan_error: None, ..app },
            EffectView::Scan,
        ),
{
}

/// Only a finished entry of a password starts an attempt, and only a wish for
/// another scan starts one.
pub proof fn law_what_starts_work(app: AppView, key: Key, control: bool)
    ensures
        app.after_key(key, control).1 is Connect <==> app.screen == Screen::Password && key
            == Key::Enter,
        app.after_key(key, control).1 is Scan <==> app.screen == Screen::List && key == Key::Char(
            'r',
        ) || app.screen == Screen::Done && key != Key::Char('q') && key != Key::Esc,
{
}

} // verus!
