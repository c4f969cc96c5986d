//! What the screens show: which text stands where, in which colour.

use vstd::prelude::*;

use crate::geometry;
use crate::geometry::Area;
use crate::label;
use crate::scan;
use crate::scan::{Network, NetworkView};
use crate::signal;
use crate::signal::Color;
use crate::text;
use crate::tui::{App, AppView, Screen};

verus! {

// ---------- styled text ----------

/// A piece of text in one style.
#[derive(Debug, PartialEq, Eq)]
pub struct Span {
    pub text: String,
    /// The colour, if it is not that of the terminal.
    pub color: Option<Color>,
    pub bold: bool,
}

/// A piece of text, as a sequence of characters.
pub struct SpanView {
    pub text: Seq<char>,
    pub color: Option<Color>,
    pub bold: bool,
}

impl View for Span {
    type V = SpanView;

    open spec fn view(&self) -> SpanView {
        SpanView { text: self.text@, color: self.color, bold: self.bold }
    }
}

/// A line of text.
#[derive(Debug, PartialEq, Eq)]
pub struct Line {
    pub spans: Vec<Span>,
}

impl View for Line {
    type V = Seq<SpanView>;

    open spec fn view(&self) -> Seq<SpanView> {
        self.spans@.map_values(|s: Span| s@)
    }
}

/// Some lines of text.
pub open spec fn line_views(lines: Seq<Line>) -> Seq<Seq<SpanView>> {
    lines.map_values(|l: Line| l@)
}

/// Text in the style of the terminal.
pub open spec fn plain(s: Seq<char>) -> SpanView {
    SpanView { text: s, color: None, bold: false }
}

/// Text in a colour.
pub open spec fn colored(s: Seq<char>, color: Color) -> SpanView {
    SpanView { text: s, color: Some(color), bold: false }
}

/// Bold text in a colour.
pub open spec fn bold(s: Seq<char>, color: Color) -> SpanView {
    SpanView { text: s, color: Some(color), bold: true }
}

/// A line without text.
pub open spec fn blank() -> Seq<SpanView> {
    seq![plain(""@)]
}

/// A colour by its parts.
#[derive(Clone, Copy, Debug, PartialEq, Eq, Structural)]
pub struct Rgb {
    pub red: u8,
    pub green: u8,
    pub blue: u8,
}

/// How the row that is selected stands out.
#[derive(Debug, PartialEq, Eq)]
pub struct Highlight {
    /// What stands before the row. The other rows are moved as far.
    pub symbol: String,
    /// The colour behind the row.
    pub background: Rgb,
    /// Whether all of the row is bold.
    pub bold: bool,
}

/// How a row stands out, with its text as a sequence of characters.
pub struct HighlightView {
    pub symbol: Seq<char>,
    pub background: Rgb,
    pub bold: bool,
}

impl View for Highlight {
    type V = HighlightView;

    open spec fn view(&self) -> HighlightView {
        HighlightView { symbol: self.symbol@, background: self.background, bold: self.bold }
    }
}

/// One thing to draw.
#[derive(Debug, PartialEq, Eq)]
pub enum Draw {
    /// A border in a colour around an area, with a title in its upper edge that
    /// stands in the middle or on the left.
    Border { area: Area, title: String, centered: bool, color: Color },
    /// Lines of text, centred or from the left, and either cut at the edge or
    /// wrapped with their leading white space kept.
    Paragraph { area: Area, lines: Vec<Line>, centered: bool, wrapped: bool },
    /// The rows of a list, and which of them stands out, and how.
    Rows { area: Area, rows: Vec<Line>, selected: Option<usize>, highlight: Highlight },
}

/// One thing to draw, with its texts as sequences of characters.
pub enum DrawView {
    Border { area: Area, title: Seq<char>, centered: bool, color: Color },
    Paragraph { area: Area, lines: Seq<Seq<SpanView>>, centered: bool, wrapped: bool },
    Rows {
        area: Area,
        rows: Seq<Seq<SpanView>>,
        selected: Option<int>,
        highlight: HighlightView,
    },
}

impl View for Draw {
    type V = DrawView;

    open spec fn view(&self) -> DrawView {
        match *self {
            Draw::Border { area, title, centered, color } => DrawView::Border {
                area,
                title: title@,
                centered,
                color,
            },
            Draw::Paragraph { area, lines, centered, wrapped } => DrawView::Paragraph {
                area,
                lines: line_views(lines@),
                centered,
                wrapped,
            },
            Draw::Rows { area, rows, selected, highlight } => DrawView::Rows {
                area,
                rows: line_views(rows@),
                selected: match selected {
                    Some(i) => Some(i as int),
                    None => None,
                },
                highlight: highlight@,
            },
        }
    }
}

/// Some things to draw, in order.
pub open spec fn draw_views(draws: Seq<Draw>) -> Seq<DrawView> {
    draws.map_values(|d: Draw| d@)
}

/// How well a network is received: its quality in percent, and its signal in
/// whole dBm.
#[derive(Clone, Copy, Debug, PartialEq, Eq, Structural)]
pub struct Level {
    pub quality: u8,
    pub dbm: i32,
}

// ---------- what is drawn ----------

/// The frames of the spinner.
pub open spec fn spinner_frames() -> Seq<char> {
    seq!['⠋', '⠙', '⠹', '⠸', '⠼', '⠴', '⠦', '⠧', '⠇', '⠏']
}

/// The frame that the spinner shows.
pub open spec fn spinner_frame(spinner: int) -> char {
    spinner_frames()[spinner % 10]
}

/// A footer that says what the keys do.
pub open spec fn footer(hint: Seq<char>) -> Seq<SpanView> {
    seq![colored("  "@ + hint, Color::DarkGray)]
}

/// A single row at the bottom of the screen.
pub open spec fn footer_draw(area: Area, hint: Seq<char>) -> DrawView {
    DrawView::Paragraph { area, lines: seq![footer(hint)], centered: false, wrapped: false }
}

/// How many blank lines bring `count` lines to the middle of `height` rows.
pub open spec fn padding(height: u16, count: nat) -> nat {
    let lines = count as u16;
    if height > lines {
        ((height - lines) / 2) as nat
    } else {
        0
    }
}

/// Lines in the middle of an area, over a footer if there is one.
pub open spec fn center_draws(area: Area, lines: Seq<Seq<SpanView>>, hint: Seq<char>) -> Seq<
    DrawView,
> {
    let (body, foot) = geometry::with_footer(area, 1);
    let content = Seq::new(padding(body.height, lines.len()), |i: int| blank()) + lines;
    seq![DrawView::Paragraph { area: body, lines: content, centered: true, wrapped: true }] + (
    if hint.len() > 0 {
        seq![footer_draw(foot, hint)]
    } else {
        Seq::empty()
    })
}

/// The row of a network that is connected.
pub open spec fn connected_row(net: NetworkView, level: Level, ip: Option<Seq<char>>) -> Seq<
    SpanView,
> {
    let address = match ip {
        Some(a) => a,
        None => "no IP"@,
    };
    seq![
        colored(signal::bars(level.quality) + "  "@, Color::Green),
        bold(text::pad_right(label::truncated(net.ssid, 22), 22), Color::Green),
        colored("● connected · "@ + address, Color::Green),
    ]
}

/// The row of a network that is not connected.
pub open spec fn free_row(net: NetworkView, level: Level) -> Seq<SpanView> {
    seq![
        colored(
            signal::bars(level.quality) + "  "@,
            signal::quality_color(level.quality),
        ),
        colored(text::pad_right(label::truncated(net.ssid, 22), 22), Color::White),
        colored(label::decimal(level.dbm as int) + " dBm"@, Color::DarkGray),
    ]
}

/// The row of a network.
pub open spec fn network_row(app: AppView, net: NetworkView, level: Level) -> Seq<SpanView> {
    if app.connected_ssid == Some(net.ssid) {
        connected_row(net, level, app.connected_ip)
    } else {
        free_row(net, level)
    }
}

/// The rows of the list: the entry by hand, then the networks.
pub open spec fn list_rows(app: AppView, levels: Seq<Level>) -> Seq<Seq<SpanView>> {
    seq![seq![colored("+  Enter network name manually"@, Color::Cyan)]] + Seq::new(
        app.nets.len(),
        |i: int| network_row(app, app.nets[i], levels[i]),
    )
}

/// How the row that is selected stands out in the list.
pub open spec fn list_highlight() -> HighlightView {
    HighlightView {
        symbol: " ▶ "@,
        background: Rgb { red: 40, green: 42, blue: 66 },
        bold: true,
    }
}

/// The list, or what there is to say where no network was found.
pub open spec fn list_draws(app: AppView, area: Area, levels: Seq<Level>) -> Seq<DrawView> {
    let (body, foot) = geometry::with_footer(area, 1);
    if app.nets.len() == 0 {
        let line = match app.scan_error {
            Some(e) => seq![colored("✗  "@ + e, Color::Red)],
            None => seq![plain("No networks found."@)],
        };
        center_draws(body, seq![line], ""@) + seq![footer_draw(foot, "r rescan    q quit"@)]
    } else {
        seq![
            DrawView::Rows {
                area: geometry::without_margin(body, 1, 0),
                rows: list_rows(app, levels),
                selected: app.selected,
                highlight: list_highlight(),
            },
            footer_draw(foot, "↑/↓ move    ⏎ select    r rescan    q quit"@),
        ]
    }
}

/// What an entry shows of its value: a password that is not to be shown is a
/// dot for each character.
pub open spec fn shown_value(value: Seq<char>, is_password: bool, show: bool) -> Seq<char> {
    if is_password && !show {
        text::repeated('●', value.len())
    } else {
        value
    }
}

/// The entry of a name or a password.
pub open spec fn input_draws(
    area: Area,
    title: Seq<char>,
    value: Seq<char>,
    is_password: bool,
    show: bool,
) -> Seq<DrawView> {
    let hint = if is_password {
        "empty = open network     Tab show/hide     ⏎ connect     Esc back"@
    } else {
        "⏎ continue     Esc back"@
    };
    seq![
        DrawView::Paragraph {
            area,
            lines: seq![
                blank(),
                seq![bold("  "@ + title, Color::Cyan)],
                blank(),
                seq![
                    plain("    "@),
                    colored(shown_value(value, is_password, show) + "▏"@, Color::Yellow),
                ],
                blank(),
                footer(hint),
            ],
            centered: false,
            wrapped: true,
        },
    ]
}

/// The lines that tell what an attempt to connect came to.
pub open spec fn done_lines(
    result: Option<Result<Seq<char>, Seq<char>>>,
    ssid: Seq<char>,
) -> Seq<Seq<SpanView>> {
    match result {
        Some(Ok(ip)) => seq![
            seq![bold("✓  Connected to \""@ + ssid + "\""@, Color::Green)],
            blank(),
            seq![colored("IP "@ + ip, Color::Green)],
        ],
        Some(Err(e)) => seq![
            seq![bold("✗  Failed to connect to \""@ + ssid + "\""@, Color::Red)],
            blank(),
            seq![colored(e, Color::Red)],
        ],
        None => seq![seq![plain("…"@)]],
    }
}

/// What the screen of a state shows inside the border.
pub open spec fn screen_draws(app: AppView, inner: Area, levels: Seq<Level>) -> Seq<DrawView> {
    match app.screen {
        Screen::Loading => center_draws(
            inner,
            seq![
                seq![
                    colored(
                        seq![spinner_frame(app.spinner)] + "  Scanning for networks…"@,
                        Color::Cyan,
                    ),
                ],
            ],
            "q quit"@,
        ),
        Screen::List => list_draws(app, inner, levels),
        Screen::ManualSsid => input_draws(
            inner,
            "Network name (SSID)"@,
            app.manual_ssid,
            false,
            app.show_password,
        ),
        Screen::Password => input_draws(
            inner,
            "Password for \""@ + app.target_ssid + "\""@,
            app.password,
            true,
            app.show_password,
        ),
        Screen::Connecting => center_draws(
            inner,
            seq![
                seq![
                    colored(
                        seq![spinner_frame(app.spinner)] + "  Connecting to \""@ + app.target_ssid
                            + "\" …"@,
                        Color::Cyan,
                    ),
                ],
            ],
            "please wait"@,
        ),
        Screen::Done => center_draws(
            inner,
            done_lines(app.result, app.target_ssid),
            "⏎ back to list    q quit"@,
        ),
    }
}

/// The border around everything, with the name of the program.
pub open spec fn border_draw(area: Area) -> DrawView {
    DrawView::Border { area, title: geometry::TITLE@, centered: true, color: Color::Cyan }
}

/// Everything that a state shows.
pub open spec fn render_draws(app: AppView, area: Area, levels: Seq<Level>) -> Seq<DrawView> {
    seq![border_draw(area)] + screen_draws(app, geometry::inside(area), levels)
}

// ---------- drawing ----------

fn plain_span(s: &str) -> (span: Span)
    ensures
        span@ == plain(s@),
{
    Span { text: s.to_string(), color: None, bold: false }
}

fn colored_span(s: String, color: Color) -> (span: Span)
    ensures
        span@ == colored(s@, color),
{
    Span { text: s, color: Some(color), bold: false }
}

fn bold_span(s: String, color: Color) -> (span: Span)
    ensures
        span@ == bold(s@, color),
{
    Span { text: s, color: Some(color), bold: true }
}

fn line_of(span: Span) -> (line: Line)
    ensures
        line@ == seq![span@],
{
    let mut spans: Vec<Span> = Vec::new();
    spans.push(span);
    let line = Line { spans };
    assert(line@ =~= seq![span@]);
    line
}

fn line_of_two(first: Span, second: Span) -> (line: Line)
    ensures
        line@ == seq![first@, second@],
{
    let mut spans: Vec<Span> = Vec::new();
    spans.push(first);
    spans.push(second);
    let line = Line { spans };
    assert(line@ =~= seq![first@, second@]);
    line
}

fn line_of_three(first: Span, second: Span, third: Span) -> (line: Line)
    ensures
        line@ == seq![first@, second@, third@],
{
    let mut spans: Vec<Span> = Vec::new();
    spans.push(first);
    spans.push(second);
    spans.push(third);
    let line = Line { spans };
    assert(line@ =~= seq![first@, second@, third@]);
    line
}

fn blank_line() -> (line: Line)
    ensures
        line@ == blank(),
{
    line_of(plain_span(""))
}

fn footer_line(hint: &str) -> (line: Line)
    ensures
        line@ == footer(hint@),
{
    line_of(colored_span(text::join("  ", hint), Color::DarkGray))
}

fn draw_footer(area: Area, hint: &str) -> (draw: Draw)
    ensures
        draw@ == footer_draw(area, hint@),
{
    let mut lines: Vec<Line> = Vec::new();
    lines.push(footer_line(hint));
    assert(line_views(lines@) =~= seq![footer(hint@)]);
    Draw::Paragraph { area, lines, centered: false, wrapped: false }
}

/// The frame that the spinner shows, as text.
fn frame_text(spinner: usize) -> (s: String)
    ensures
        s@ == seq![spinner_frame(spinner as int)],
{
    let frames: [char; 10] = ['⠋', '⠙', '⠹', '⠸', '⠼', '⠴', '⠦', '⠧', '⠇', '⠏'];
    assert(frames@ =~= spinner_frames());
    let mut s = String::new();
    s.push(frames[spinner % 10]);
    assert(s@ =~= seq![spinner_frame(spinner as int)]);
    s
}

/// The row of a network.
fn row_of(app: &App, net: &Network, level: Level) -> (row: Line)
    ensures
        row@ == network_row(app@, net@, level),
{
    let bars = signal::signal_bars(level.quality).concat("  ");
    let name = text::padded_right(label::truncate_ssid(net.ssid.as_str(), 22).as_str(), 22);
    let connected = match &app.connected_ssid {
        Some(ssid) => text::same_text(ssid.as_str(), net.ssid.as_str()),
        None => false,
    };
    if connected {
        let state = match &app.connected_ip {
            Some(ip) => text::join("● connected · ", ip.as_str()),
            None => text::join("● connected · ", "no IP"),
        };
        line_of_three(
            colored_span(bars, Color::Green),
            bold_span(name, Color::Green),
            colored_span(state, Color::Green),
        )
    } else {
        line_of_three(
            colored_span(bars, signal::signal_color(level.quality)),
            colored_span(name, Color::White),
            colored_span(label::decimal_text(level.dbm).concat(" dBm"), Color::DarkGray),
        )
    }
}

impl App {
    /// Lines in the middle of an area, over a footer if there is one.
    pub fn render_center(area: Area, lines: Vec<Line>, hint: &str) -> (draws: Vec<Draw>)
        ensures
            draw_views(draws@) == center_draws(area, line_views(lines@), hint@),
    {
        let (body, foot) = geometry::split_footer(area, 1);
        let count: u16 = lines.len() as u16;
        let pad: u16 = if body.height > count {
            (body.height - count) / 2
        } else {
            0
        };
        let mut content: Vec<Line> = Vec::new();
        let mut i: u16 = 0;
        while i < pad
            invariant
                i <= pad,
                line_views(content@) == Seq::new(i as nat, |k: int| blank()),
            decreases pad - i,
        {
            let ghost done = line_views(content@);
            content.push(blank_line());
            assert(line_views(content@) =~= done.push(blank()));
            i += 1;
            assert(line_views(content@) =~= Seq::new(i as nat, |k: int| blank()));
        }
        let mut lines = lines;
        let ghost added = line_views(lines@);
        let ghost blanks = line_views(content@);
        content.append(&mut lines);
        assert(line_views(content@) =~= blanks + added);
        let mut draws: Vec<Draw> = Vec::new();
        draws.push(
            Draw::Paragraph { area: body, lines: content, centered: true, wrapped: true },
        );
        if !hint.is_empty() {
            draws.push(draw_footer(foot, hint));
        }
        assert(draw_views(draws@) =~= center_draws(area, added, hint@));
        draws
    }

    /// The list, or what there is to say where no network was found. `levels`
    /// tells how well each network is received.
    pub fn render_list(&self, area: Area, levels: &Vec<Level>) -> (draws: Vec<Draw>)
        requires
            levels@.len() == self.nets@.len(),
        ensures
            draw_views(draws@) == list_draws(self@, area, levels@),
    {
        let (body, foot) = geometry::split_footer(area, 1);
        if self.nets.len() == 0 {
            let line = match &self.scan_error {
                Some(e) => line_of(colored_span(text::join("✗  ", e.as_str()), Color::Red)),
                None => line_of(plain_span("No networks found.")),
            };
            let mut lines: Vec<Line> = Vec::new();
            lines.push(line);
            assert(line_views(lines@) =~= seq![line@]);
            let mut draws = App::render_center(body, lines, "");
            let ghost centred = draw_views(draws@);
            draws.push(draw_footer(foot, "r rescan    q quit"));
            assert(draw_views(draws@) =~= centred + seq![footer_draw(foot, "r rescan    q quit"@)]);
            return draws;
        }
        let mut rows: Vec<Line> = Vec::new();
        rows.push(
            line_of(colored_span("+  Enter network name manually".to_string(), Color::Cyan)),
        );
        let ghost all = list_rows(self@, levels@);
        let mut i: usize = 0;
        assert(line_views(rows@) =~= all.take(1));
        while i < self.nets.len()
            invariant
                i <= self.nets@.len(),
                levels@.len() == self.nets@.len(),
                all == list_rows(self@, levels@),
                line_views(rows@) == all.take(i + 1),
            decreases self.nets@.len() - i,
        {
            let row = row_of(self, &self.nets[i], levels[i]);
            let ghost done = line_views(rows@);
            assert(self@.nets[i as int] == self.nets@[i as int]@);
            assert(row@ == all[i + 1]);
            rows.push(row);
            assert(line_views(rows@) =~= done.push(row@));
            i += 1;
            assert(line_views(rows@) =~= all.take(i + 1));
        }
        assert(line_views(rows@) =~= all);
        let mut draws: Vec<Draw> = Vec::new();
        draws.push(
            Draw::Rows {
                area: geometry::inset(body, 1, 0),
                rows,
                selected: self.selected,
                highlight: Highlight {
                    symbol: " ▶ ".to_string(),
                    background: Rgb { red: 40, green: 42, blue: 66 },
                    bold: true,
                },
            },
        );
        draws.push(draw_footer(foot, "↑/↓ move    ⏎ select    r rescan    q quit"));
        assert(draw_views(draws@) =~= list_draws(self@, area, levels@));
        draws
    }

    /// The entry of a name or a password.
    pub fn render_input(&self, area: Area, title: &str, value: &str, is_password: bool) -> (draws: Vec<
        Draw,
    >)
        ensures
            draw_views(draws@) == input_draws(
                area,
                title@,
                value@,
                is_password,
                self.show_password,
            ),
    {
        let shown = if is_password && !self.show_password {
            text::repeat_char('●', value.unicode_len())
        } else {
            value.to_string()
        };
        let hint = if is_password {
            "empty = open network     Tab show/hide     ⏎ connect     Esc back"
        } else {
            "⏎ continue     Esc back"
        };
        let mut lines: Vec<Line> = Vec::new();
        lines.push(blank_line());
        lines.push(line_of(bold_span(text::join("  ", title), Color::Cyan)));
        lines.push(blank_line());
        lines.push(
            line_of_two(plain_span("    "), colored_span(shown.concat("▏"), Color::Yellow)),
        );
        lines.push(blank_line());
        lines.push(footer_line(hint));
        let ghost expected = input_draws(area, title@, value@, is_password, self.show_password);
        assert(line_views(lines@) =~= expected[0]->Paragraph_lines);
        let mut draws: Vec<Draw> = Vec::new();
        draws.push(Draw::Paragraph { area, lines, centered: false, wrapped: true });
        assert(draw_views(draws@) =~= expected);
        draws
    }

    /// What an attempt to connect came to.
    pub fn render_done(&self, area: Area) -> (draws: Vec<Draw>)
        ensures
            draw_views(draws@) == center_draws(
                area,
                done_lines(self@.result, self.target_ssid@),
                "⏎ back to list    q quit"@,
            ),
    {
        let mut lines: Vec<Line> = Vec::new();
        match &self.result {
            Some(Ok(ip)) => {
                let title = text::join3("✓  Connected to \"", self.target_ssid.as_str(), "\"");
                lines.push(line_of(bold_span(title, Color::Green)));
                lines.push(blank_line());
                lines.push(line_of(colored_span(text::join("IP ", ip.as_str()), Color::Green)));
            },
            Some(Err(e)) => {
                let title = text::join3(
                    "✗  Failed to connect to \"",
                    self.target_ssid.as_str(),
                    "\"",
                );
                lines.push(line_of(bold_span(title, Color::Red)));
                lines.push(blank_line());
                lines.push(line_of(colored_span(e.clone(), Color::Red)));
            },
            None => {
                lines.push(line_of(plain_span("…")));
            },
        }
        assert(line_views(lines@) =~= done_lines(self@.result, self.target_ssid@));
        App::render_center(area, lines, "⏎ back to list    q quit")
    }

    /// Everything that is to be drawn on a screen of that size, in order.
    /// `levels` tells how well each network of the list is received.
    pub fn render(&self, area: Area, levels: &Vec<Level>) -> (draws: Vec<Draw>)
        requires
            levels@.len() == self.nets@.len(),
        ensures
            draw_views(draws@) == render_draws(self@, area, levels@),
    {
        let inner = geometry::inside_border(area);
        let mut draws: Vec<Draw> = Vec::new();
        draws.push(
            Draw::Border {
                area,
                title: geometry::TITLE.to_string(),
                centered: true,
                color: Color::Cyan,
            },
        );
        let mut content = match self.screen {
            Screen::Loading => {
                let mut lines: Vec<Line> = Vec::new();
                let shown = frame_text(self.spinner).concat("  Scanning for networks…");
                lines.push(line_of(colored_span(shown, Color::Cyan)));
                assert(line_views(lines@) =~= seq![seq![colored(shown@, Color::Cyan)]]);
                App::render_center(inner, lines, "q quit")
            },
            Screen::List => self.render_list(inner, levels),
            Screen::ManualSsid => self.render_input(
                inner,
                "Network name (SSID)",
                self.manual_ssid.as_str(),
                false,
            ),
            Screen::Password => {
                let title = text::join3("Password for \"", self.target_ssid.as_str(), "\"");
                self.render_input(inner, title.as_str(), self.password.as_str(), true)
            },
            Screen::Connecting => {
                let mut lines: Vec<Line> = Vec::new();
                let shown = frame_text(self.spinner).concat("  Connecting to \"").concat(
                    self.target_ssid.as_str(),
                ).concat("\" …");
                lines.push(line_of(colored_span(shown, Color::Cyan)));
                assert(line_views(lines@) =~= seq![seq![colored(shown@, Color::Cyan)]]);
                App::render_center(inner, lines, "please wait")
            },
            Screen::Done => self.render_done(inner),
        };
        let ghost shown = draw_views(content@);
        let ghost border = draw_views(draws@);
        draws.append(&mut content);
        assert(border =~= seq![border_draw(area)]);
        assert(draw_views(draws@) =~= border + shown);
        draws
    }
}

// ---------- laws ----------

/// The entry of a password that is hidden shows a dot for each character and
/// nothing else of it: two that are equally long look the same.
pub proof fn law_hidden_entry_shows_only_its_length(
    area: Area,
    title: Seq<char>,
    value: Seq<char>,
    other: Seq<char>,
)
    requires
        value.len() == other.len(),
    ensures
        input_draws(area, title, value, true, false) == input_draws(
            area,
            title,
            other,
            true,
            false,
        ),
        shown_value(value, true, false) == text::repeated('●', value.len()),
{
    assert(text::repeated('●', other.len()) =~= text::repeated('●', value.len()));
}

/// Any other entry shows what was entered: two that look the same are the same.
pub proof fn law_open_entry_shows_its_value(
    area: Area,
    title: Seq<char>,
    value: Seq<char>,
    other: Seq<char>,
    is_password: bool,
    show: bool,
)
    requires
        !is_password || show,
        input_draws(area, title, value, is_password, show) == input_draws(
            area,
            title,
            other,
            is_password,
            show,
        ),
    ensures
        value == other,
{
    let a = input_draws(area, title, value, is_password, show);
    let b = input_draws(area, title, other, is_password, show);
    let shown = a[0]->Paragraph_lines[3][1].text;
    assert(shown == value + "▏"@);
    assert(b[0]->Paragraph_lines[3][1].text == other + "▏"@);
    assert(value.len() == other.len());
    assert forall|i: int| 0 <= i < value.len() implies value[i] == other[i] by {
        assert(shown[i] == value[i]);
        assert((other + "▏"@)[i] == other[i]);
    }
    assert(value =~= other);
}

/// While the password is hidden, nothing that the program shows depends on more
/// of it than its length.
pub proof fn law_hidden_password_is_not_shown(
    app: AppView,
    other: Seq<char>,
    area: Area,
    levels: Seq<Level>,
)
    requires
        !app.show_password,
        other.len() == app.password.len(),
    ensures
        render_draws(app, area, levels) == render_draws(
            AppView { password: other, ..app },
            area,
            levels,
        ),
{
    let changed = AppView { password: other, ..app };
    assert(list_rows(app, levels) =~= list_rows(changed, levels));
    assert(text::repeated('●', other.len()) =~= text::repeated('●', app.password.len()));
}

} // verus!
