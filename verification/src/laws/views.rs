//! Laws of views: the view of a value holds the values of its fields, each in
//! its place.

use vstd::prelude::*;

use crate::cli;
use crate::cli::{Command, CommandView};
use crate::connect::{Action, ActionView, Connection, Phase, PhaseView};
use crate::render;
use crate::render::{Draw, DrawView, Highlight, Line, Span};
use crate::scan;
use crate::scan::Network;
use crate::system::{ScanStep, ScanStepView};
use crate::tui::{App, Effect, EffectView, Msg};

verus! {

/// Whether an optional text is viewed as what it holds.
pub open spec fn shows(viewed: Option<Seq<char>>, held: Option<String>) -> bool {
    match held {
        Some(s) => viewed == Some(s@),
        None => viewed is None,
    }
}

/// Whether a result is viewed as what it holds, on the same side.
pub open spec fn tells(
    viewed: Result<Seq<char>, Seq<char>>,
    held: Result<String, String>,
) -> bool {
    match held {
        Ok(s) => viewed == Ok::<Seq<char>, Seq<char>>(s@),
        Err(e) => viewed == Err::<Seq<char>, Seq<char>>(e@),
    }
}

/// Networks are viewed one by one, with their names and signals.
pub proof fn law_view_of_networks(nets: Seq<Network>, i: int)
    requires
        0 <= i < nets.len(),
    ensures
        scan::views(nets).len() == nets.len(),
        scan::views(nets)[i].ssid == nets[i].ssid@,
        scan::views(nets)[i].signal == nets[i].signal,
{
}

/// Texts are viewed one by one.
pub proof fn law_view_of_texts(args: Seq<String>, i: int)
    requires
        0 <= i < args.len(),
    ensures
        cli::arg_views(args).len() == args.len(),
        cli::arg_views(args)[i] == args[i]@,
{
}

/// The state is viewed field by field.
pub proof fn law_view_of_the_state(app: App)
    ensures
        app@.screen == app.screen,
        app@.nets == scan::views(app.nets@),
        app@.selectable == app.selectable@,
        app.selected is Some ==> app@.selected == Some(app.selected->0 as int),
        app.selected is None ==> app@.selected is None,
        shows(app@.connected_ssid, app.connected_ssid),
        shows(app@.connected_ip, app.connected_ip),
        shows(app@.scan_error, app.scan_error),
        app@.manual_ssid == app.manual_ssid@,
        app@.password == app.password@,
        app@.show_password == app.show_password,
        app@.target_ssid == app.target_ssid@,
        app.result is Some ==> app@.result is Some && tells(app@.result->0, app.result->0),
        app.result is None ==> app@.result is None,
        app@.spinner == app.spinner,
        app@.dry_run == app.dry_run,
{
}

/// A message is viewed as the same kind of message, with the same content.
pub proof fn law_view_of_a_message(msg: Msg)
    ensures
        match msg {
            Msg::Scanned { nets, ssid, ip, error } => {
                &&& msg@ is Scanned
                &&& msg@->nets == scan::views(nets@)
                &&& shows(msg@->ssid, ssid)
                &&& shows(msg@->ip, ip)
                &&& shows(msg@->error, error)
            },
            Msg::Connected(result) => msg@ is Connected && tells(msg@->Connected_0, result),
        },
{
}

/// An effect is viewed as the same effect, with the same texts.
pub proof fn law_view_of_an_effect(effect: Effect)
    ensures
        match effect {
            Effect::Continue => effect@ == EffectView::Continue,
            Effect::Quit => effect@ == EffectView::Quit,
            Effect::Scan => effect@ == EffectView::Scan,
            Effect::Connect { ssid, password, dry_run } => effect@ == (EffectView::Connect {
                ssid: ssid@,
                password: password@,
                dry_run,
            }),
        },
{
}

/// A command is viewed as the same command, with the same texts.
pub proof fn law_view_of_a_command(asked: Command)
    ensures
        match asked {
            Command::Connect { ssid, password, dry_run } => asked@ == (CommandView::Connect {
                ssid: ssid@,
                password: password@,
                dry_run,
            }),
            Command::Usage => asked@ == CommandView::Usage,
            Command::Snapshot(which) => asked@ == CommandView::Snapshot(which@),
            Command::List => asked@ == CommandView::List,
            Command::Interactive { dry_run } => asked@ == (CommandView::Interactive { dry_run }),
        },
{
}

/// A scan step is viewed as the same step, with the same text.
pub proof fn law_view_of_a_scan_step(step: ScanStep)
    ensures
        match step {
            ScanStep::Read(s) => step@ == ScanStepView::Read(s@),
            ScanStep::Retry(s) => step@ == ScanStepView::Retry(s@),
            ScanStep::Failed(s) => step@ == ScanStepView::Failed(s@),
        },
{
}

/// An action is viewed as the same action, with the same text or result.
pub proof fn law_view_of_an_action(action: Action)
    ensures
        match action {
            Action::CheckConfig => action@ == ActionView::CheckConfig,
            Action::BackUp => action@ == ActionView::BackUp,
            Action::Write(yaml) => action@ == ActionView::Write(yaml@),
            Action::Restrict => action@ == ActionView::Restrict,
            Action::Apply => action@ == ActionView::Apply,
            Action::Wait => action@ == ActionView::Wait,
            Action::QueryLink => action@ == ActionView::QueryLink,
            Action::QueryAddress => action@ == ActionView::QueryAddress,
            Action::CheckBackup => action@ == ActionView::CheckBackup,
            Action::CopyBack => action@ == ActionView::CopyBack,
            Action::Reapply => action@ == ActionView::Reapply,
            Action::Finish(result) => action@ is Finish && tells(action@->Finish_0, result),
        },
{
}

/// An attempt is viewed field by field, in the same phase.
pub proof fn law_view_of_an_attempt(attempt: Connection)
    ensures
        attempt@.ssid == attempt.ssid@,
        attempt@.yaml == attempt.yaml@,
        attempt@.phase == attempt.phase@,
        match attempt.phase {
            Phase::ConfigCheck => attempt@.phase == PhaseView::ConfigCheck,
            Phase::Backup => attempt@.phase == PhaseView::Backup,
            Phase::Writing => attempt@.phase == PhaseView::Writing,
            Phase::Restricting => attempt@.phase == PhaseView::Restricting,
            Phase::Applying => attempt@.phase == PhaseView::Applying,
            Phase::Waiting(n) => attempt@.phase == PhaseView::Waiting(n),
            Phase::Link(n) => attempt@.phase == PhaseView::Link(n),
            Phase::Address(n) => attempt@.phase == PhaseView::Address(n),
            Phase::BackupCheck(e) => attempt@.phase == PhaseView::BackupCheck(e@),
            Phase::CopyingBack(e) => attempt@.phase == PhaseView::CopyingBack(e@),
            Phase::Reapplying(e) => attempt@.phase == PhaseView::Reapplying(e@),
            Phase::Finished => attempt@.phase == PhaseView::Finished,
        },
{
}

/// Lines are viewed piece by piece.
pub proof fn law_view_of_lines(lines: Seq<Line>, i: int, k: int)
    requires
        0 <= i < lines.len(),
        0 <= k < lines[i].spans@.len(),
    ensures
        render::line_views(lines).len() == lines.len(),
        render::line_views(lines)[i].len() == lines[i].spans@.len(),
        ({
            let span: Span = lines[i].spans@[k];
            let viewed = render::line_views(lines)[i][k];
            &&& viewed.text == span.text@
            &&& viewed.color == span.color
            &&& viewed.bold == span.bold
        }),
{
}

/// How a row stands out is viewed field by field.
pub proof fn law_view_of_a_highlight(highlight: Highlight)
    ensures
        highlight@.symbol == highlight.symbol@,
        highlight@.background == highlight.background,
        highlight@.bold == highlight.bold,
{
}

/// What is to be drawn is viewed in order.
pub proof fn law_view_of_draws(draws: Seq<Draw>, i: int)
    requires
        0 <= i < draws.len(),
    ensures
        render::draw_views(draws).len() == draws.len(),
        ({
            let viewed = render::draw_views(draws)[i];
            match draws[i] {
                Draw::Border { area, title, centered, color } => viewed == (DrawView::Border {
                    area,
                    title: title@,
                    centered,
                    color,
                }),
                Draw::Paragraph { area, lines, centered, wrapped } => viewed == (
                DrawView::Paragraph {
                    area,
                    lines: render::line_views(lines@),
                    centered,
                    wrapped,
                }),
                Draw::Rows { area, rows, selected, highlight } => {
                    &&& viewed is Rows
                    &&& viewed->Rows_area == area
                    &&& viewed->Rows_rows == render::line_views(rows@)
                    &&& selected is Some ==> viewed->Rows_selected == Some(selected->0 as int)
                    &&& selected is None ==> viewed->Rows_selected is None
                    &&& viewed->Rows_highlight == highlight@
                },
            }
        }),
{
}

} // verus!
