//! Laws of what the screens show, and where.

use vstd::prelude::*;

use crate::geometry;
use crate::geometry::Area;
use crate::label;
use crate::render;
use crate::render::{DrawView, Level, SpanView};
use crate::signal;
use crate::signal::Color;
use crate::text;
use crate::tui::{AppView, Key, Screen};

verus! {

// ---------- areas ----------

/// The smaller of two numbers.
pub open spec fn least(a: int, b: int) -> int {
    if a < b {
        a
    } else {
        b
    }
}

/// A border takes one cell from each side of an area. One that has no two cells
/// has no inside. No corner lies beyond the last coordinate.
pub proof fn law_border_takes_one_cell(area: Area)
    ensures
        ({
            let inner = geometry::inside(area);
            &&& area.width >= 2 ==> inner.width == area.width - 2
            &&& area.height >= 2 ==> inner.height == area.height - 2
            &&& area.width < 2 ==> inner.width == 0
            &&& area.height < 2 ==> inner.height == 0
            &&& area.width > 0 ==> inner.x == least(area.x + 1, 65535)
            &&& area.height > 0 ==> inner.y == least(area.y + 1, 65535)
            &&& area.width == 0 ==> inner.x == area.x
            &&& area.height == 0 ==> inner.y == area.y
        }),
{
}

/// A footer has the last rows of what is on the screen of an area, as many as
/// were asked for or as there are, and what is above has the others.
pub proof fn law_footer_is_at_the_bottom(area: Area, count: u16)
    ensures
        ({
            let (body, foot) = geometry::with_footer(area, count);
            let bottom = least(area.y + area.height, 65535);
            &&& foot.height == least(count as int, bottom - area.y)
            &&& foot.y + foot.height == bottom
            &&& body.y == area.y
            &&& body.y + body.height == foot.y
            &&& body.x == foot.x == area.x
            &&& body.width == foot.width == area.width
        }),
{
}

/// A margin leaves the middle of an area, and nothing of one that is too small.
pub proof fn law_margin_leaves_the_middle(area: Area, columns: u16, rows: u16)
    requires
        2 * columns <= u16::MAX,
        2 * rows <= u16::MAX,
    ensures
        ({
            let inner = geometry::without_margin(area, columns, rows);
            let fits = 2 * columns <= area.width && 2 * rows <= area.height;
            &&& fits ==> inner.width == area.width - 2 * columns
            &&& fits ==> inner.height == area.height - 2 * rows
            &&& fits ==> inner.x == least(area.x + columns, 65535)
            &&& fits ==> inner.y == least(area.y + rows, 65535)
            &&& !fits ==> inner == (Area { x: 0, y: 0, width: 0, height: 0 })
        }),
{
}

// ---------- what all screens share ----------

/// Whether a piece of text has that text, that colour, and is bold or not.
pub open spec fn is_span(
    span: SpanView,
    shown: Seq<char>,
    color: Option<Color>,
    is_bold: bool,
) -> bool {
    span.text == shown && span.color == color && span.bold == is_bold
}

/// Whether a line is one piece of text.
pub open spec fn is_line(
    line: Seq<SpanView>,
    shown: Seq<char>,
    color: Option<Color>,
    is_bold: bool,
) -> bool {
    line.len() == 1 && is_span(line[0], shown, color, is_bold)
}

/// Whether something that is drawn is one line in grey, from the left and cut
/// at the edge, that says what the keys do.
pub open spec fn is_footer(drawn: DrawView, area: Area, hint: Seq<char>) -> bool {
    match drawn {
        DrawView::Paragraph { area: place, lines, centered, wrapped } => {
            &&& place == area
            &&& lines.len() == 1
            &&& is_line(lines[0], "  "@ + hint, Some(Color::DarkGray), false)
            &&& !centered
            &&& !wrapped
        },
        _ => false,
    }
}

/// Every state is drawn with the border first, around everything, with the name
/// of the program in the middle of its edge. All else is what the screen shows
/// inside the border.
pub proof fn law_border_is_drawn_first(app: AppView, area: Area, levels: Seq<Level>)
    ensures
        ({
            let draws = render::render_draws(app, area, levels);
            &&& draws.len() > 0
            &&& draws[0] == (DrawView::Border {
                area,
                title: "  oaifai  "@,
                centered: true,
                color: Color::Cyan,
            })
            &&& draws.skip(1) == render::screen_draws(app, geometry::inside(area), levels)
        }),
{
    let draws = render::render_draws(app, area, levels);
    assert(draws.skip(1) =~= render::screen_draws(app, geometry::inside(area), levels));
}

/// Whether lines stand in the middle of an area: blank ones above them, no more
/// than the rows that are left below, and at most one fewer.
pub open spec fn is_centered(drawn: DrawView, area: Area, shown: Seq<Seq<SpanView>>) -> bool {
    match drawn {
        DrawView::Paragraph { area: place, lines, centered, wrapped } => {
            let above = lines.len() - shown.len();
            let below = area.height - lines.len();
            &&& place == area
            &&& centered
            &&& wrapped
            &&& above >= 0
            &&& lines.skip(above) == shown
            &&& forall|i: int|
                0 <= i < above ==> is_line(#[trigger] lines[i], Seq::empty(), None, false)
            &&& shown.len() <= area.height ==> above <= below <= above + 1
            &&& shown.len() > area.height ==> above == 0
        },
        _ => false,
    }
}

/// Lines that are centred stand in the middle of what a footer of one row
/// leaves; the footer is drawn if and only if there is something to say in it.
pub proof fn law_lines_stand_in_the_middle(
    area: Area,
    lines: Seq<Seq<SpanView>>,
    hint: Seq<char>,
)
    requires
        lines.len() <= u16::MAX,
    ensures
        ({
            let draws = render::center_draws(area, lines, hint);
            let (body, foot) = geometry::with_footer(area, 1);
            &&& draws.len() == if hint.len() > 0 { 2int } else { 1 }
            &&& is_centered(draws[0], body, lines)
            &&& hint.len() > 0 ==> is_footer(draws[1], foot, hint)
        }),
{
    reveal_strlit("");
    let (body, foot) = geometry::with_footer(area, 1);
    let above = render::padding(body.height, lines.len());
    let content = Seq::new(above, |i: int| render::blank()) + lines;
    assert(content.skip(above as int) =~= lines);
    assert(""@ =~= Seq::<char>::empty());
    assert forall|i: int| 0 <= i < above implies is_line(
        #[trigger] content[i],
        Seq::empty(),
        None,
        false,
    ) by {
        assert(content[i] == render::blank());
    }
}

// ---------- the list ----------

/// The list has one row for the entry by hand and then one for each network,
/// in order. The row that stands out is the one that is selected.
pub proof fn law_list_shows_every_network(app: AppView, area: Area, levels: Seq<Level>)
    requires
        app.nets.len() > 0,
    ensures
        ({
            let draws = render::list_draws(app, area, levels);
            let (body, foot) = geometry::with_footer(area, 1);
            &&& draws.len() == 2
            &&& draws[0] is Rows
            &&& draws[0]->Rows_area == geometry::without_margin(body, 1, 0)
            &&& draws[0]->Rows_rows == render::list_rows(app, levels)
            &&& draws[0]->Rows_rows.len() == app.nets.len() + 1
            &&& is_line(
                draws[0]->Rows_rows[0],
                "+  Enter network name manually"@,
                Some(Color::Cyan),
                false,
            )
            &&& draws[0]->Rows_selected == app.selected
            &&& draws[0]->Rows_highlight.symbol == " ▶ "@
            &&& draws[0]->Rows_highlight.bold
            &&& (draws[0]->Rows_highlight.background.red, draws[0]->Rows_highlight.background.green)
                == (40u8, 42u8)
            &&& draws[0]->Rows_highlight.background.blue == 66u8
            &&& is_footer(draws[1], foot, "↑/↓ move    ⏎ select    r rescan    q quit"@)
        }),
{
}

/// The row of a network shows its bars, its name in a column of 22, and its
/// level; or, if it is the one that is connected, its address in place of the
/// level, all of it green and the name bold.
pub proof fn law_row_of_a_network(app: AppView, levels: Seq<Level>, i: int)
    requires
        0 <= i < app.nets.len(),
    ensures
        ({
            let row = render::list_rows(app, levels)[i + 1];
            let connected = app.connected_ssid == Some(app.nets[i].ssid);
            let quality = levels[i].quality;
            let name = app.nets[i].ssid;
            &&& row.len() == 3
            &&& is_span(
                row[0],
                signal::bars(quality) + "  "@,
                Some(
                    if connected {
                        Color::Green
                    } else {
                        signal::quality_color(quality)
                    },
                ),
                false,
            )
            &&& row[1].text.len() == 22
            &&& name.len() <= 22 ==> row[1].text.take(name.len() as int) == name && forall|k: int|
                name.len() <= k < 22 ==> #[trigger] row[1].text[k] == ' '
            &&& name.len() > 22 ==> row[1].text == name.take(21) + seq!['…']
            &&& row[1].bold == connected
            &&& row[1].color == Some(
                if connected {
                    Color::Green
                } else {
                    Color::White
                },
            )
            &&& !connected ==> is_span(
                row[2],
                label::decimal(levels[i].dbm as int) + " dBm"@,
                Some(Color::DarkGray),
                false,
            )
            &&& connected && app.connected_ip is Some ==> is_span(
                row[2],
                "● connected · "@ + app.connected_ip->0,
                Some(Color::Green),
                false,
            )
            &&& connected && app.connected_ip is None ==> is_span(
                row[2],
                "● connected · "@ + "no IP"@,
                Some(Color::Green),
                false,
            )
        }),
{
    let row = render::list_rows(app, levels)[i + 1];
    assert(row == render::network_row(app, app.nets[i], levels[i]));
    let name = app.nets[i].ssid;
    let cut = label::truncated(name, 22);
    assert(row[1].text == text::pad_right(cut, 22));
    if name.len() <= 22 {
        assert(row[1].text.take(name.len() as int) =~= name);
    } else {
        assert(row[1].text =~= name.take(21) + seq!['…']);
    }
}

/// The network that Enter chooses is the one that the row shows which stands
/// out.
pub proof fn law_marked_row_is_the_one_chosen(
    app: AppView,
    area: Area,
    levels: Seq<Level>,
    control: bool,
)
    requires
        app.screen == Screen::List,
        app.selected is Some,
        1 <= app.selected->0 <= app.nets.len(),
    ensures
        ({
            let drawn = render::list_draws(app, area, levels)[0];
            let marked = drawn->Rows_rows[drawn->Rows_selected->0];
            let chosen = app.after_key(Key::Enter, control).0;
            &&& chosen.screen == Screen::Password
            &&& chosen.target_ssid.len() <= 22 ==> marked[1].text.take(
                chosen.target_ssid.len() as int,
            ) == chosen.target_ssid
            &&& chosen.target_ssid.len() > 22 ==> marked[1].text == chosen.target_ssid.take(21)
                + seq!['…']
        }),
{
    law_list_shows_every_network(app, area, levels);
    law_row_of_a_network(app, levels, app.selected->0 - 1);
}

/// Where there is no network, the error of the scan is shown in red, or that
/// none was found.
pub proof fn law_list_without_networks(app: AppView, area: Area, levels: Seq<Level>)
    requires
        app.nets.len() == 0,
    ensures
        ({
            let draws = render::list_draws(app, area, levels);
            let (body, foot) = geometry::with_footer(area, 1);
            let (inner, _) = geometry::with_footer(body, 1);
            let lines = draws[0]->Paragraph_lines;
            &&& draws.len() == 2
            &&& lines.len() > 0
            &&& is_centered(draws[0], inner, lines.skip(lines.len() - 1))
            &&& app.scan_error is Some ==> is_line(
                lines.last(),
                "✗  "@ + app.scan_error->0,
                Some(Color::Red),
                false,
            )
            &&& app.scan_error is None ==> is_line(
                lines.last(),
                "No networks found."@,
                None,
                false,
            )
            &&& is_footer(draws[1], foot, "r rescan    q quit"@)
        }),
{
    reveal_strlit("");
    let draws = render::list_draws(app, area, levels);
    let (body, foot) = geometry::with_footer(area, 1);
    let line = match app.scan_error {
        Some(e) => seq![render::colored("✗  "@ + e, Color::Red)],
        None => seq![render::plain("No networks found."@)],
    };
    law_lines_stand_in_the_middle(body, seq![line], ""@);
    let centred = render::center_draws(body, seq![line], ""@);
    assert(draws[0] == centred[0]);
    let lines = draws[0]->Paragraph_lines;
    let n = lines.len() - 1;
    assert(lines.skip(n) == seq![line]);
    assert(lines.skip(n)[0] == lines[n]);
}

// ---------- entries ----------

/// An entry shows its title, then what was entered with the cursor behind it,
/// then what the keys do. A password that is hidden is one dot for each
/// character, anything else is shown as it was entered.
pub proof fn law_entry_shows_its_value(
    area: Area,
    title: Seq<char>,
    value: Seq<char>,
    is_password: bool,
    show: bool,
)
    ensures
        ({
            let draws = render::input_draws(area, title, value, is_password, show);
            let lines = draws[0]->Paragraph_lines;
            let shown = lines[3][1].text;
            let hint = if is_password {
                "empty = open network     Tab show/hide     ⏎ connect     Esc back"@
            } else {
                "⏎ continue     Esc back"@
            };
            &&& draws.len() == 1
            &&& draws[0] is Paragraph
            &&& draws[0]->Paragraph_area == area
            &&& !draws[0]->Paragraph_centered
            &&& draws[0]->Paragraph_wrapped
            &&& lines.len() == 6
            &&& is_line(lines[0], ""@, None, false)
            &&& is_line(lines[1], "  "@ + title, Some(Color::Cyan), true)
            &&& is_line(lines[2], ""@, None, false)
            &&& lines[3].len() == 2
            &&& is_span(lines[3][0], "    "@, None, false)
            &&& lines[3][1].color == Some(Color::Yellow) && !lines[3][1].bold
            &&& shown.len() == value.len() + 1
            &&& shown.last() == '▏'
            &&& is_password && !show ==> forall|i: int|
                0 <= i < value.len() ==> #[trigger] shown[i] == '●'
            &&& !is_password || show ==> shown.take(value.len() as int) == value
            &&& is_line(lines[4], ""@, None, false)
            &&& is_line(lines[5], "  "@ + hint, Some(Color::DarkGray), false)
        }),
{
    reveal_strlit("▏");
    let shown = render::shown_value(value, is_password, show) + "▏"@;
    if !is_password || show {
        assert(shown.take(value.len() as int) =~= value);
    }
}

/// Each of the two entries shows what is entered there: a name is never hidden,
/// and a password is asked for by the name of its network.
pub proof fn law_entries(app: AppView, inner: Area, levels: Seq<Level>)
    ensures
        app.screen == Screen::ManualSsid ==> render::screen_draws(app, inner, levels)
            == render::input_draws(
            inner,
            "Network name (SSID)"@,
            app.manual_ssid,
            false,
            app.show_password,
        ),
        app.screen == Screen::Password ==> render::screen_draws(app, inner, levels)
            == render::input_draws(
            inner,
            "Password for \""@ + app.target_ssid + "\""@,
            app.password,
            true,
            app.show_password,
        ),
        app.screen == Screen::List ==> render::screen_draws(app, inner, levels)
            == render::list_draws(app, inner, levels),
{
}

// ---------- waiting, and the result ----------

/// The spinner goes through ten frames and then begins again.
pub proof fn law_spinner_frames(spinner: int)
    requires
        spinner >= 0,
    ensures
        render::spinner_frame(spinner) == "⠋⠙⠹⠸⠼⠴⠦⠧⠇⠏"@[spinner % 10],
        render::spinner_frame(spinner + 10) == render::spinner_frame(spinner),
{
    reveal_strlit("⠋⠙⠹⠸⠼⠴⠦⠧⠇⠏");
}

/// What a screen shows while something runs: one line in the middle, with the
/// spinner and what is being waited for.
pub proof fn law_waiting_screens(app: AppView, inner: Area, levels: Seq<Level>)
    requires
        app.screen == Screen::Loading || app.screen == Screen::Connecting,
    ensures
        ({
            let draws = render::screen_draws(app, inner, levels);
            let (body, foot) = geometry::with_footer(inner, 1);
            let lines = draws[0]->Paragraph_lines;
            let frame = seq![render::spinner_frame(app.spinner)];
            &&& draws.len() == 2
            &&& lines.len() > 0
            &&& is_centered(draws[0], body, lines.skip(lines.len() - 1))
            &&& app.screen == Screen::Loading ==> is_line(
                lines.last(),
                frame + "  Scanning for networks…"@,
                Some(Color::Cyan),
                false,
            ) && is_footer(draws[1], foot, "q quit"@)
            &&& app.screen == Screen::Connecting ==> is_line(
                lines.last(),
                frame + "  Connecting to \""@ + app.target_ssid + "\" …"@,
                Some(Color::Cyan),
                false,
            ) && is_footer(draws[1], foot, "please wait"@)
        }),
{
    reveal_strlit("q quit");
    reveal_strlit("please wait");
    let draws = render::screen_draws(app, inner, levels);
    let frame = seq![render::spinner_frame(app.spinner)];
    let line = if app.screen == Screen::Loading {
        seq![render::colored(frame + "  Scanning for networks…"@, Color::Cyan)]
    } else {
        seq![
            render::colored(
                frame + "  Connecting to \""@ + app.target_ssid + "\" …"@,
                Color::Cyan,
            ),
        ]
    };
    let hint = if app.screen == Screen::Loading {
        "q quit"@
    } else {
        "please wait"@
    };
    law_lines_stand_in_the_middle(inner, seq![line], hint);
    assert(draws == render::center_draws(inner, seq![line], hint));
    let lines = draws[0]->Paragraph_lines;
    let n = lines.len() - 1;
    assert(lines.skip(n) == seq![line]);
    assert(lines.skip(n)[0] == lines[n]);
}

/// The result names the network that was chosen. A success is green and gives
/// the address, a failure is red and gives the error.
pub proof fn law_result_screen(app: AppView, inner: Area, levels: Seq<Level>)
    requires
        app.screen == Screen::Done,
    ensures
        ({
            let draws = render::screen_draws(app, inner, levels);
            let (body, foot) = geometry::with_footer(inner, 1);
            let told = render::done_lines(app.result, app.target_ssid);
            &&& draws.len() == 2
            &&& is_centered(draws[0], body, told)
            &&& is_footer(draws[1], foot, "⏎ back to list    q quit"@)
            &&& match app.result {
                Some(Ok(ip)) => {
                    &&& told.len() == 3
                    &&& is_line(
                        told[0],
                        "✓  Connected to \""@ + app.target_ssid + "\""@,
                        Some(Color::Green),
                        true,
                    )
                    &&& is_line(told[1], ""@, None, false)
                    &&& is_line(told[2], "IP "@ + ip, Some(Color::Green), false)
                },
                Some(Err(e)) => {
                    &&& told.len() == 3
                    &&& is_line(
                        told[0],
                        "✗  Failed to connect to \""@ + app.target_ssid + "\""@,
                        Some(Color::Red),
                        true,
                    )
                    &&& is_line(told[1], ""@, None, false)
                    &&& is_line(told[2], e, Some(Color::Red), false)
                },
                None => told.len() == 1 && is_line(told[0], "…"@, None, false),
            }
        }),
{
    reveal_strlit("⏎ back to list    q quit");
    law_lines_stand_in_the_middle(
        inner,
        render::done_lines(app.result, app.target_ssid),
        "⏎ back to list    q quit"@,
    );
}

} // verus!
