//! The state of the terminal program, and how keys and messages change it.

use ratatui::crossterm::event::KeyModifiers;
use vstd::prelude::*;

use crate::scan;
use crate::scan::{Network, NetworkView};
use crate::text;

verus! {

// ---------- what comes in and what goes out ----------

/// The screens of the program.
#[derive(Clone, Copy, Debug, PartialEq, Eq, Structural)]
pub enum Screen {
    Loading,
    List,
    ManualSsid,
    Password,
    Connecting,
    Done,
}

/// A key.
#[derive(Clone, Copy, Debug, PartialEq, Eq, Structural)]
pub enum Key {
    Char(char),
    Enter,
    Esc,
    Backspace,
    Tab,
    Up,
    Down,
    /// Any other key.
    Other,
}

/// Something that happened to a key.
#[derive(Clone, Copy, Debug, PartialEq, Eq, Structural)]
pub struct KeyEvent {
    /// Whether it was pressed, and not released or held down.
    pub pressed: bool,
    pub key: Key,
    /// The modifier keys that were held, one bit for each, as crossterm numbers
    /// them.
    pub modifiers: u8,
}

/// A message from the work that runs beside the screens.
#[derive(Debug, PartialEq, Eq)]
pub enum Msg {
    Scanned {
        nets: Vec<Network>,
        ssid: Option<String>,
        ip: Option<String>,
        error: Option<String>,
    },
    Connected(Result<String, String>),
}

/// A message, with its texts as sequences of characters.
pub enum MsgView {
    Scanned {
        nets: Seq<NetworkView>,
        ssid: Option<Seq<char>>,
        ip: Option<Seq<char>>,
        error: Option<Seq<char>>,
    },
    Connected(Result<Seq<char>, Seq<char>>),
}

impl View for Msg {
    type V = MsgView;

    open spec fn view(&self) -> MsgView {
        match *self {
            Msg::Scanned { nets, ssid, ip, error } => MsgView::Scanned {
                nets: scan::views(nets@),
                ssid: text::option_view(ssid),
                ip: text::option_view(ip),
                error: text::option_view(error),
            },
            Msg::Connected(result) => MsgView::Connected(text::result_view(result)),
        }
    }
}

impl Msg {
    /// The message that a scan has ended: with the networks that were found, or
    /// with none and the error.
    pub fn scanned(
        result: Result<Vec<Network>, String>,
        ssid: Option<String>,
        ip: Option<String>,
    ) -> (msg: Msg)
        ensures
            msg@ == (match result {
                Ok(nets) => MsgView::Scanned {
                    nets: scan::views(nets@),
                    ssid: text::option_view(ssid),
                    ip: text::option_view(ip),
                    error: None,
                },
                Err(e) => MsgView::Scanned {
                    nets: Seq::empty(),
                    ssid: text::option_view(ssid),
                    ip: text::option_view(ip),
                    error: Some(e@),
                },
            }),
    {
        match result {
            Ok(nets) => Msg::Scanned { nets, ssid, ip, error: None },
            Err(e) => {
                let nets: Vec<Network> = Vec::new();
                assert(scan::views(nets@) =~= Seq::<NetworkView>::empty());
                Msg::Scanned { nets, ssid, ip, error: Some(e) }
            },
        }
    }
}

/// What is to be done beside the screens after a key.
#[derive(Debug, PartialEq, Eq)]
pub enum Effect {
    /// Nothing.
    Continue,
    /// End the program.
    Quit,
    /// Scan for networks.
    Scan,
    /// Connect to a network.
    Connect { ssid: String, password: String, dry_run: bool },
}

/// An effect, with its texts as sequences of characters.
pub enum EffectView {
    Continue,
    Quit,
    Scan,
    Connect { ssid: Seq<char>, password: Seq<char>, dry_run: bool },
}

impl View for Effect {
    type V = EffectView;

    open spec fn view(&self) -> EffectView {
        match *self {
            Effect::Continue => EffectView::Continue,
            Effect::Quit => EffectView::Quit,
            Effect::Scan => EffectView::Scan,
            Effect::Connect { ssid, password, dry_run } => EffectView::Connect {
                ssid: ssid@,
                password: password@,
                dry_run,
            },
        }
    }
}

/// `KeyModifiers::contains` of crossterm, for the control key: whether its bit,
/// the second, is set. Bits that stand for no modifier make no difference.
#[verifier::external_body]
fn holds_control(modifiers: u8) -> (held: bool)
    ensures
        held == (modifiers & 0b10 != 0),
{
    KeyModifiers::from_bits_truncate(modifiers).contains(KeyModifiers::CONTROL)
}

// ---------- the state ----------

/// The state of the program.
#[derive(Debug, PartialEq, Eq)]
pub struct App {
    pub screen: Screen,
    pub nets: Vec<Network>,
    /// Which rows of the list can be selected: the first is for a name that is
    /// entered by hand, and one follows for each network.
    pub selectable: Vec<bool>,
    pub selected: Option<usize>,
    pub connected_ssid: Option<String>,
    pub connected_ip: Option<String>,
    pub scan_error: Option<String>,
    pub manual_ssid: String,
    pub password: String,
    pub show_password: bool,
    pub target_ssid: String,
    pub result: Option<Result<String, String>>,
    pub spinner: usize,
    pub dry_run: bool,
}

/// The state of the program, with its texts as sequences of characters.
#[verifier::ext_equal]
pub struct AppView {
    pub screen: Screen,
    pub nets: Seq<NetworkView>,
    pub selectable: Seq<bool>,
    pub selected: Option<int>,
    pub connected_ssid: Option<Seq<char>>,
    pub connected_ip: Option<Seq<char>>,
    pub scan_error: Option<Seq<char>>,
    pub manual_ssid: Seq<char>,
    pub password: Seq<char>,
    pub show_password: bool,
    pub target_ssid: Seq<char>,
    pub result: Option<Result<Seq<char>, Seq<char>>>,
    pub spinner: int,
    pub dry_run: bool,
}

impl View for App {
    type V = AppView;

    open spec fn view(&self) -> AppView {
        AppView {
            screen: self.screen,
            nets: scan::views(self.nets@),
            selectable: self.selectable@,
            selected: match self.selected {
                Some(i) => Some(i as int),
                None => None,
            },
            connected_ssid: text::option_view(self.connected_ssid),
            connected_ip: text::option_view(self.connected_ip),
            scan_error: text::option_view(self.scan_error),
            manual_ssid: self.manual_ssid@,
            password: self.password@,
            show_password: self.show_password,
            target_ssid: self.target_ssid@,
            result: match self.result {
                Some(r) => Some(text::result_view(r)),
                None => None,
            },
            spinner: self.spinner as int,
            dry_run: self.dry_run,
        }
    }
}

/// Which rows can be selected: the first, and each network but the one that is
/// connected.
pub open spec fn selectable_rows(nets: Seq<NetworkView>, connected: Option<Seq<char>>) -> Seq<bool> {
    seq![true] + nets.map_values(|n: NetworkView| connected != Some(n.ssid))
}

/// The first row from `i` on that can be selected.
pub open spec fn first_from(rows: Seq<bool>, i: int) -> Option<int>
    decreases rows.len() - i,
{
    if i >= rows.len() {
        None
    } else if rows[i] {
        Some(i)
    } else {
        first_from(rows, i + 1)
    }
}

/// The row that is selected when a list comes up: the first network that can
/// be, else the entry by hand.
pub open spec fn first_choice(rows: Seq<bool>) -> int {
    match first_from(rows, 1) {
        Some(i) => i,
        None => 0,
    }
}

/// The row reached from row `i` by moves of `delta`, wrapping around, until a
/// row can be selected, or after so many steps.
pub open spec fn seek(rows: Seq<bool>, i: int, delta: int, steps: nat) -> int
    decreases steps,
{
    if steps == 0 {
        i
    } else {
        let next = (i + delta) % (rows.len() as int);
        if rows[next] {
            next
        } else {
            seek(rows, next, delta, (steps - 1) as nat)
        }
    }
}

impl AppView {
    /// The state in which the program begins, before a scan is started.
    pub open spec fn bare(dry_run: bool) -> AppView {
        AppView {
            screen: Screen::Loading,
            nets: Seq::empty(),
            selectable: Seq::empty(),
            selected: None,
            connected_ssid: None,
            connected_ip: None,
            scan_error: None,
            manual_ssid: Seq::empty(),
            password: Seq::empty(),
            show_password: false,
            target_ssid: Seq::empty(),
            result: None,
            spinner: 0,
            dry_run,
        }
    }

    /// Whether a list has come up, with a row selected that can be.
    pub open spec fn has_list(self) -> bool {
        &&& self.selectable == selectable_rows(self.nets, self.connected_ssid)
        &&& self.selected is Some
        &&& 0 <= self.selected->0 < self.selectable.len()
        &&& self.selectable[self.selected->0]
    }

    /// The states that the program can be in: before the first list has come
    /// up, only the screens that need none.
    pub open spec fn valid(self) -> bool {
        ||| self.has_list()
        ||| {
            &&& self.screen == Screen::Loading || self.screen == Screen::Done
            &&& self.nets.len() == 0
            &&& self.selectable.len() == 0
            &&& self.selected is None
        }
    }

    /// The state while a scan runs.
    pub open spec fn scanning(self) -> AppView {
        AppView { screen: Screen::Loading, scan_error: None, ..self }
    }

    /// The state while the network is being connected.
    pub open spec fn connecting(self) -> AppView {
        AppView { screen: Screen::Connecting, result: None, ..self }
    }

    /// The state in which the password of a network is entered.
    pub open spec fn asking_password(self, ssid: Seq<char>) -> AppView {
        AppView {
            screen: Screen::Password,
            target_ssid: ssid,
            password: Seq::empty(),
            show_password: false,
            ..self
        }
    }

    /// The state after the selection was moved by `delta` rows.
    pub open spec fn moved(self, delta: int) -> AppView {
        if self.selectable.len() == 0 {
            self
        } else {
            let from = match self.selected {
                Some(i) => i,
                None => 0,
            };
            AppView {
                selected: Some(seek(self.selectable, from, delta, self.selectable.len())),
                ..self
            }
        }
    }

    /// The state after a message.
    pub open spec fn after_msg(self, msg: MsgView) -> AppView {
        match msg {
            MsgView::Scanned { nets, ssid, ip, error } => {
                let rows = selectable_rows(nets, ssid);
                AppView {
                    screen: Screen::List,
                    nets,
                    selectable: rows,
                    selected: Some(first_choice(rows)),
                    connected_ssid: ssid,
                    connected_ip: ip,
                    scan_error: error,
                    ..self
                }
            },
            MsgView::Connected(result) => AppView {
                screen: Screen::Done,
                result: Some(result),
                ..self
            },
        }
    }

    /// The state after Enter in the list: the entry by hand, or the password of
    /// the network that is selected.
    pub open spec fn after_choice(self) -> AppView {
        match self.selected {
            None => self,
            Some(i) => if i == 0 {
                AppView { screen: Screen::ManualSsid, manual_ssid: Seq::empty(), ..self }
            } else {
                self.asking_password(self.nets[i - 1].ssid)
            },
        }
    }

    /// What a key does to the list.
    pub open spec fn list_key(self, key: Key) -> (AppView, EffectView) {
        match key {
            Key::Char('q') | Key::Esc => (self, EffectView::Quit),
            Key::Char('r') => (self.scanning(), EffectView::Scan),
            Key::Down | Key::Char('j') => (self.moved(1), EffectView::Continue),
            Key::Up | Key::Char('k') => (self.moved(-1), EffectView::Continue),
            Key::Enter => (self.after_choice(), EffectView::Continue),
            _ => (self, EffectView::Continue),
        }
    }

    /// What a key does to the entry of a name.
    pub open spec fn manual_key(self, key: Key, control: bool) -> AppView {
        match key {
            Key::Esc => AppView { screen: Screen::List, ..self },
            Key::Enter => if text::trim(self.manual_ssid).len() > 0 {
                self.asking_password(text::trim(self.manual_ssid))
            } else {
                self
            },
            _ => AppView { manual_ssid: edited(self.manual_ssid, key, control), ..self },
        }
    }

    /// What a key does to the entry of a password.
    pub open spec fn password_key(self, key: Key, control: bool) -> (AppView, EffectView) {
        match key {
            Key::Esc => (AppView { screen: Screen::List, ..self }, EffectView::Continue),
            Key::Tab => (
                AppView { show_password: !self.show_password, ..self },
                EffectView::Continue,
            ),
            Key::Enter => (
                self.connecting(),
                EffectView::Connect {
                    ssid: self.target_ssid,
                    password: self.password,
                    dry_run: self.dry_run,
                },
            ),
            _ => (
                AppView { password: edited(self.password, key, control), ..self },
                EffectView::Continue,
            ),
        }
    }

    /// What a key does to the state, and what is to be done then.
    pub open spec fn after_key(self, key: Key, control: bool) -> (AppView, EffectView) {
        match self.screen {
            Screen::Loading => if key == Key::Char('q') {
                (self, EffectView::Quit)
            } else {
                (self, EffectView::Continue)
            },
            Screen::Connecting => (self, EffectView::Continue),
            Screen::List => self.list_key(key),
            Screen::ManualSsid => (self.manual_key(key, control), EffectView::Continue),
            Screen::Password => self.password_key(key, control),
            Screen::Done => if key == Key::Char('q') || key == Key::Esc {
                (self, EffectView::Quit)
            } else {
                (self.scanning(), EffectView::Scan)
            },
        }
    }
}

/// A line of text after a key: Backspace takes the last character away,
/// Control-U all of them, and any other character is added.
pub open spec fn edited(line: Seq<char>, key: Key, control: bool) -> Seq<char> {
    match key {
        Key::Backspace => if line.len() > 0 {
            line.drop_last()
        } else {
            line
        },
        Key::Char(c) => if c == 'u' && control {
            Seq::empty()
        } else {
            line.push(c)
        },
        _ => line,
    }
}

// ---------- moving through the list ----------

/// Where a step of `delta` leads from `i`, among `n` rows.
fn stepped(i: usize, delta: isize, n: usize) -> (next: usize)
    requires
        i < n,
    ensures
        next == (i + delta) % (n as int),
{
    let forward: usize = if delta >= 0 {
        (delta as usize) % n
    } else {
        let back: usize = (-(delta + 1)) as usize;
        proof {
            let q = back as int / n as int;
            let r = back as int % n as int;
            vstd::arithmetic::div_mod::lemma_fundamental_div_mod(back as int, n as int);
            assert(delta == (-q - 1) * n + (n - 1 - r)) by (nonlinear_arith)
                requires
                    back == n * q + r,
                    back == -delta - 1,
            ;
            vstd::arithmetic::div_mod::lemma_fundamental_div_mod_converse(
                delta as int,
                n as int,
                -q - 1,
                n - 1 - r,
            );
        }
        n - 1 - back % n
    };
    proof {
        vstd::arithmetic::div_mod::lemma_add_mod_noop_right(i as int, delta as int, n as int);
        if i >= n - forward {
            vstd::arithmetic::div_mod::lemma_fundamental_div_mod_converse(
                i + forward,
                n as int,
                1,
                i + forward - n,
            );
        } else {
            vstd::arithmetic::div_mod::lemma_small_mod((i + forward) as nat, n as nat);
        }
    }
    if i >= n - forward {
        i - (n - forward)
    } else {
        i + forward
    }
}

/// The row reached from row `from` by moves of `delta`, wrapping around, until
/// a row can be selected; or the row where all rows have been passed.
fn sought(rows: &Vec<bool>, from: usize, delta: isize) -> (row: usize)
    requires
        rows@.len() > 0,
    ensures
        row == seek(rows@, from as int, delta as int, rows@.len()),
{
    let n: usize = rows.len();
    let mut i: usize = from % n;
    let mut steps: usize = 0;
    proof {
        vstd::arithmetic::div_mod::lemma_add_mod_noop_right(delta as int, from as int, n as int);
    }
    let ghost target = seek(rows@, from as int, delta as int, n as nat);
    while steps < n
        invariant
            n == rows@.len(),
            n > 0,
            i < n,
            steps <= n,
            target == seek(rows@, from as int, delta as int, n as nat),
            seek(rows@, i as int, delta as int, (n - steps) as nat) == target,
        decreases n - steps,
    {
        i = stepped(i, delta, n);
        if rows[i] {
            return i;
        }
        steps += 1;
    }
    i
}

impl App {
    /// The state in which the program begins, before a scan is started.
    pub fn bare(dry_run: bool) -> (app: App)
        ensures
            app@ == AppView::bare(dry_run),
            app@.valid(),
    {
        let app = App {
            screen: Screen::Loading,
            nets: Vec::new(),
            selectable: Vec::new(),
            selected: None,
            connected_ssid: None,
            connected_ip: None,
            scan_error: None,
            manual_ssid: String::new(),
            password: String::new(),
            show_password: false,
            target_ssid: String::new(),
            result: None,
            spinner: 0,
            dry_run,
        };
        assert(app@ =~= AppView::bare(dry_run));
        app
    }

    /// The state in which the program begins: a scan is to be run.
    pub fn new(dry_run: bool) -> (app: App)
        ensures
            app@ == AppView::bare(dry_run).scanning(),
            app@.valid(),
    {
        let mut app = App::bare(dry_run);
        app.start_scan();
        app
    }

    /// Shows that a scan runs.
    pub fn start_scan(&mut self)
        ensures
            final(self)@ == old(self)@.scanning(),
            old(self)@.valid() ==> final(self)@.valid(),
    {
        self.screen = Screen::Loading;
        self.scan_error = None;
    }

    /// Shows that the network is being connected, and says which one, with
    /// which password.
    pub fn start_connect(&mut self) -> (effect: Effect)
        ensures
            final(self)@ == old(self)@.connecting(),
            effect@ == (EffectView::Connect {
                ssid: old(self)@.target_ssid,
                password: old(self)@.password,
                dry_run: old(self)@.dry_run,
            }),
            old(self)@.has_list() ==> final(self)@.has_list(),
    {
        self.screen = Screen::Connecting;
        self.result = None;
        Effect::Connect {
            ssid: self.target_ssid.clone(),
            password: self.password.clone(),
            dry_run: self.dry_run,
        }
    }

    /// Takes in a message from the work that runs beside the screens.
    pub fn handle_msg(&mut self, msg: Msg)
        ensures
            final(self)@ == old(self)@.after_msg(msg@),
            msg is Scanned ==> final(self)@.has_list(),
            old(self)@.valid() ==> final(self)@.valid(),
    {
        match msg {
            Msg::Scanned { nets, ssid, ip, error } => {
                let ghost rows = selectable_rows(scan::views(nets@), text::option_view(ssid));
                let mut selectable: Vec<bool> = Vec::new();
                selectable.push(true);
                let mut i: usize = 0;
                while i < nets.len()
                    invariant
                        i <= nets@.len(),
                        rows == selectable_rows(scan::views(nets@), text::option_view(ssid)),
                        selectable@ == rows.take(i + 1),
                    decreases nets@.len() - i,
                {
                    assert(rows[i + 1] == (text::option_view(ssid) != Some(nets@[i as int]@.ssid)));
                    let free = match &ssid {
                        Some(name) => !text::same_text(name.as_str(), nets[i].ssid.as_str()),
                        None => true,
                    };
                    selectable.push(free);
                    i += 1;
                    assert(selectable@ =~= rows.take(i + 1));
                }
                assert(selectable@ =~= rows);
                let mut first: usize = 1;
                while first < selectable.len() && !selectable[first]
                    invariant
                        1 <= first <= selectable@.len(),
                        first_from(selectable@, first as int) == first_from(selectable@, 1),
                    decreases selectable@.len() - first,
                {
                    first += 1;
                }
                if first >= selectable.len() {
                    first = 0;
                }
                self.connected_ssid = ssid;
                self.connected_ip = ip;
                self.scan_error = error;
                self.selectable = selectable;
                self.nets = nets;
                self.selected = Some(first);
                self.screen = Screen::List;
                assert(self@ =~= old(self)@.after_msg(msg@));
            },
            Msg::Connected(result) => {
                self.result = Some(result);
                self.screen = Screen::Done;
            },
        }
    }

    /// Moves the selection by `delta` rows, over those that cannot be selected.
    pub fn move_selection(&mut self, delta: isize)
        ensures
            final(self)@ == old(self)@.moved(delta as int),
            (delta == 1 || delta == -1) && old(self)@.valid() ==> final(self)@.valid(),
    {
        proof {
            if self@.valid() {
                lemma_moves_keep_valid(self@);
            }
        }
        if self.selectable.len() == 0 {
            return ;
        }
        let from = match self.selected {
            Some(i) => i,
            None => 0,
        };
        self.selected = Some(sought(&self.selectable, from, delta));
    }

    /// Takes in what happened to a key: only a press does anything.
    pub fn handle_event(&mut self, event: KeyEvent) -> (effect: Effect)
        requires
            old(self)@.valid(),
        ensures
            event.pressed ==> (final(self)@, effect@) == old(self)@.after_key(
                event.key,
                event.modifiers & 0b10 != 0,
            ),
            !event.pressed ==> final(self)@ == old(self)@ && effect@ == EffectView::Continue,
            final(self)@.valid(),
    {
        if event.pressed {
            self.handle_key(event.key, event.modifiers)
        } else {
            Effect::Continue
        }
    }

    /// Takes in a key that was pressed, with the modifier keys that were held.
    pub fn handle_key(&mut self, key: Key, modifiers: u8) -> (effect: Effect)
        requires
            old(self)@.valid(),
        ensures
            (final(self)@, effect@) == old(self)@.after_key(key, modifiers & 0b10 != 0),
            final(self)@.valid(),
    {
        proof {
            law_keys_keep_the_state_valid(self@, key, modifiers & 0b10 != 0);
        }
        let control = holds_control(modifiers);
        match self.screen {
            Screen::Loading => match key {
                Key::Char('q') => Effect::Quit,
                _ => Effect::Continue,
            },
            Screen::Connecting => Effect::Continue,
            Screen::List => self.handle_list_key(key),
            Screen::ManualSsid => match key {
                Key::Esc => {
                    self.screen = Screen::List;
                    Effect::Continue
                },
                Key::Enter => {
                    let name = text::text_of(
                        text::trimmed(text::chars_of(self.manual_ssid.as_str()).as_slice()),
                    );
                    if !name.as_str().is_empty() {
                        self.ask_password(name);
                    }
                    Effect::Continue
                },
                _ => {
                    edit(&mut self.manual_ssid, key, control);
                    Effect::Continue
                },
            },
            Screen::Password => match key {
                Key::Esc => {
                    self.screen = Screen::List;
                    Effect::Continue
                },
                Key::Tab => {
                    self.show_password = !self.show_password;
                    Effect::Continue
                },
                Key::Enter => self.start_connect(),
                _ => {
                    edit(&mut self.password, key, control);
                    Effect::Continue
                },
            },
            Screen::Done => match key {
                Key::Char('q') | Key::Esc => Effect::Quit,
                _ => {
                    self.start_scan();
                    Effect::Scan
                },
            },
        }
    }

    /// Takes in a key that was pressed in the list.
    fn handle_list_key(&mut self, key: Key) -> (effect: Effect)
        requires
            old(self)@.has_list(),
        ensures
            (final(self)@, effect@) == old(self)@.list_key(key),
    {
        match key {
            Key::Char('q') | Key::Esc => Effect::Quit,
            Key::Char('r') => {
                self.start_scan();
                Effect::Scan
            },
            Key::Down | Key::Char('j') => {
                self.move_selection(1);
                Effect::Continue
            },
            Key::Up | Key::Char('k') => {
                self.move_selection(-1);
                Effect::Continue
            },
            Key::Enter => {
                match self.selected {
                    Some(0) => {
                        self.manual_ssid.clear();
                        self.screen = Screen::ManualSsid;
                    },
                    Some(i) => {
                        let name = self.nets[i - 1].ssid.clone();
                        self.ask_password(name);
                    },
                    None => {},
                }
                Effect::Continue
            },
            _ => Effect::Continue,
        }
    }

    /// Asks for the password of a network.
    fn ask_password(&mut self, ssid: String)
        ensures
            final(self)@ == old(self)@.asking_password(ssid@),
    {
        self.target_ssid = ssid;
        self.password.clear();
        self.show_password = false;
        self.screen = Screen::Password;
    }

    /// Turns the spinner one step further.
    pub fn tick(&mut self)
        ensures
            final(self)@ == (AppView {
                spinner: if old(self).spinner == usize::MAX {
                    0
                } else {
                    old(self).spinner + 1
                },
                ..old(self)@
            }),
            old(self)@.valid() ==> final(self)@.valid(),
    {
        self.spinner = self.spinner.wrapping_add(1);
    }
}

/// Changes a line of text as a key says.
fn edit(line: &mut String, key: Key, control: bool)
    ensures
        final(line)@ == edited(old(line)@, key, control),
{
    match key {
        Key::Backspace => {
            let _ = line.pop();
        },
        Key::Char(c) => {
            if c == 'u' && control {
                line.clear();
            } else {
                line.push(c);
            }
        },
        _ => {},
    }
}

// ---------- laws ----------

proof fn lemma_wrap(i: int, n: int)
    requires
        0 <= i < n,
    ensures
        (i + 1) % n == (if i + 1 == n { 0 } else { i + 1 }),
        (i - 1) % n == (if i == 0 { n - 1 } else { i - 1 }),
{
    if i + 1 == n {
        vstd::arithmetic::div_mod::lemma_mod_self_0(n);
    } else {
        vstd::arithmetic::div_mod::lemma_small_mod((i + 1) as nat, n as nat);
    }
    if i == 0 {
        vstd::arithmetic::div_mod::lemma_fundamental_div_mod_converse(-1, n, -1, n - 1);
    } else {
        vstd::arithmetic::div_mod::lemma_small_mod((i - 1) as nat, n as nat);
    }
}

/// Going down from `i`, with enough steps to reach the first row.
proof fn lemma_seek_down(rows: Seq<bool>, i: int, steps: nat)
    requires
        0 <= i < rows.len(),
        rows[0],
        i + steps >= rows.len(),
    ensures
        0 <= seek(rows, i, 1, steps) < rows.len(),
        rows[seek(rows, i, 1, steps)],
    decreases steps,
{
    lemma_wrap(i, rows.len() as int);
    if i + 1 < rows.len() && !rows[i + 1] {
        lemma_seek_down(rows, i + 1, (steps - 1) as nat);
    }
}

/// Going up from `i`, with enough steps to reach the first row.
proof fn lemma_seek_up(rows: Seq<bool>, i: int, steps: nat)
    requires
        0 <= i < rows.len(),
        rows[0],
        steps >= (if i == 0 { rows.len() as int } else { i }),
    ensures
        0 <= seek(rows, i, -1, steps) < rows.len(),
        rows[seek(rows, i, -1, steps)],
    decreases steps,
{
    lemma_wrap(i, rows.len() as int);
    let next = if i == 0 { rows.len() - 1 } else { i - 1 };
    if !rows[next] {
        lemma_seek_up(rows, next, (steps - 1) as nat);
    }
}

proof fn lemma_moves_keep_valid(app: AppView)
    requires
        app.valid(),
    ensures
        app.moved(1).valid(),
        app.moved(-1).valid(),
{
    if app.has_list() {
        let i = app.selected->0;
        lemma_seek_down(app.selectable, i, app.selectable.len());
        lemma_seek_up(app.selectable, i, app.selectable.len());
    }
}

/// No key leads out of the valid states.
pub proof fn law_keys_keep_the_state_valid(app: AppView, key: Key, control: bool)
    requires
        app.valid(),
    ensures
        app.after_key(key, control).0.valid(),
{
    lemma_moves_keep_valid(app);
}

/// Whether no row strictly between `i` and `j` can be selected.
spec fn none_between(rows: Seq<bool>, i: int, j: int) -> bool {
    forall|k: int| i < k < j ==> !#[trigger] rows[k]
}

proof fn lemma_down_reaches(rows: Seq<bool>, i: int, j: int, steps: nat)
    requires
        0 <= i < j < rows.len(),
        rows[j],
        none_between(rows, i, j),
        steps >= j - i,
    ensures
        seek(rows, i, 1, steps) == j,
    decreases steps,
{
    lemma_wrap(i, rows.len() as int);
    if i + 1 < j {
        lemma_down_reaches(rows, i + 1, j, (steps - 1) as nat);
    }
}

proof fn lemma_down_wraps(rows: Seq<bool>, i: int, steps: nat)
    requires
        0 <= i < rows.len(),
        rows[0],
        none_between(rows, i, rows.len() as int),
        steps >= rows.len() - i,
    ensures
        seek(rows, i, 1, steps) == 0,
    decreases steps,
{
    lemma_wrap(i, rows.len() as int);
    if i + 1 < rows.len() {
        lemma_down_wraps(rows, i + 1, (steps - 1) as nat);
    }
}

proof fn lemma_up_reaches(rows: Seq<bool>, j: int, i: int, steps: nat)
    requires
        0 <= i < j < rows.len(),
        rows[i],
        none_between(rows, i, j),
        steps >= j - i,
    ensures
        seek(rows, j, -1, steps) == i,
    decreases steps,
{
    lemma_wrap(j, rows.len() as int);
    if i + 1 < j {
        lemma_up_reaches(rows, j - 1, i, (steps - 1) as nat);
    }
}

proof fn lemma_up_wraps(rows: Seq<bool>, i: int, steps: nat)
    requires
        0 <= i < rows.len(),
        rows[i],
        none_between(rows, i, rows.len() as int),
        steps >= rows.len() - i,
    ensures
        seek(rows, 0, -1, steps) == i,
{
    lemma_wrap(0, rows.len() as int);
    let last = rows.len() - 1;
    if i < last {
        assert(!rows[last]);
        lemma_up_reaches(rows, last, i, (steps - 1) as nat);
    }
}

/// The next row below `i` that can be selected, or the number of rows.
spec fn below(rows: Seq<bool>, i: int) -> int
    decreases rows.len() - i,
{
    if i + 1 >= rows.len() {
        rows.len() as int
    } else if rows[i + 1] {
        i + 1
    } else {
        below(rows, i + 1)
    }
}

proof fn lemma_below(rows: Seq<bool>, i: int)
    requires
        0 <= i < rows.len(),
    ensures
        i < below(rows, i) <= rows.len(),
        none_between(rows, i, below(rows, i)),
        below(rows, i) < rows.len() ==> rows[below(rows, i)],
    decreases rows.len() - i,
{
    if i + 1 < rows.len() && !rows[i + 1] {
        lemma_below(rows, i + 1);
    }
}

/// The next row above `i` that can be selected, where the first row can be.
spec fn above(rows: Seq<bool>, i: int) -> int
    decreases i,
{
    if i <= 1 {
        0
    } else if rows[i - 1] {
        i - 1
    } else {
        above(rows, i - 1)
    }
}

proof fn lemma_above(rows: Seq<bool>, i: int)
    requires
        0 < i <= rows.len(),
        rows[0],
    ensures
        0 <= above(rows, i) < i,
        rows[above(rows, i)],
        none_between(rows, above(rows, i), i),
    decreases i,
{
    if i > 1 && !rows[i - 1] {
        lemma_above(rows, i - 1);
    }
}

/// Moving down and then up, or up and then down, leads back to the same row.
pub proof fn law_moving_back_returns(app: AppView)
    requires
        app.has_list(),
    ensures
        app.moved(1).moved(-1) == app,
        app.moved(-1).moved(1) == app,
{
    let rows = app.selectable;
    let i = app.selected->0;
    let n = rows.len();
    assert(rows[0]);
    lemma_below(rows, i);
    let j = below(rows, i);
    if j < n {
        lemma_down_reaches(rows, i, j, n);
        lemma_up_reaches(rows, j, i, n);
    } else {
        lemma_down_wraps(rows, i, n);
        lemma_up_wraps(rows, i, n);
    }
    if i > 0 {
        lemma_above(rows, i);
        let k = above(rows, i);
        lemma_up_reaches(rows, i, k, n);
        lemma_down_reaches(rows, k, i, n);
    } else {
        lemma_above(rows, n as int);
        let k = above(rows, n as int);
        lemma_up_wraps(rows, k, n);
        lemma_down_wraps(rows, k, n);
    }
    assert(app.moved(1).moved(-1) =~= app);
    assert(app.moved(-1).moved(1) =~= app);
}

/// How many of the first `i` rows can be selected.
pub open spec fn choices_above(rows: Seq<bool>, i: int) -> int
    decreases i,
{
    if i <= 0 {
        0
    } else {
        choices_above(rows, i - 1) + (if rows[i - 1] {
            1int
        } else {
            0
        })
    }
}

/// The state after `k` moves down.
pub open spec fn moved_down(app: AppView, k: nat) -> AppView
    decreases k,
{
    if k == 0 {
        app
    } else {
        moved_down(app, (k - 1) as nat).moved(1)
    }
}

proof fn lemma_choices_grow(rows: Seq<bool>, i: int, j: int)
    requires
        0 <= i <= j <= rows.len(),
    ensures
        choices_above(rows, i) <= choices_above(rows, j),
        0 <= choices_above(rows, i),
        i < j && rows[i] ==> choices_above(rows, i) < choices_above(rows, j),
        rows.len() > 0 && i < j && none_between(rows, i, j) ==> choices_above(rows, j)
            == choices_above(rows, i) + (if rows[i] { 1int } else { 0 }),
    decreases j,
{
    if j > 0 {
        if i < j {
            lemma_choices_grow(rows, i, j - 1);
        } else {
            lemma_choices_grow(rows, i - 1, j - 1);
        }
        if i < j - 1 && none_between(rows, i, j) {
            assert(!rows[j - 1]);
        }
    }
}

/// A move down leads to the next choice, and from the last to the first.
proof fn lemma_down_counts(app: AppView)
    requires
        app.has_list(),
    ensures
        ({
            let rows = app.selectable;
            let total = choices_above(rows, rows.len() as int);
            let here = choices_above(rows, app.selected->0);
            let there = choices_above(rows, app.moved(1).selected->0);
            &&& app.moved(1).has_list()
            &&& app.moved(1).selectable == rows
            &&& 0 <= here < total
            &&& there == (if here + 1 == total { 0 } else { here + 1 })
        }),
{
    let rows = app.selectable;
    let n = rows.len() as int;
    let i = app.selected->0;
    assert(rows[0]);
    lemma_moves_keep_valid(app);
    lemma_seek_down(rows, i, rows.len());
    lemma_below(rows, i);
    let j = below(rows, i);
    lemma_choices_grow(rows, i, n);
    lemma_choices_grow(rows, i, j);
    if j < n {
        lemma_down_reaches(rows, i, j, rows.len());
        lemma_choices_grow(rows, j, n);
    } else {
        lemma_down_wraps(rows, i, rows.len());
    }
}

proof fn lemma_down_rank(app: AppView, k: nat)
    requires
        app.has_list(),
        k <= choices_above(app.selectable, app.selectable.len() as int),
    ensures
        ({
            let rows = app.selectable;
            let total = choices_above(rows, rows.len() as int);
            let here = choices_above(rows, app.selected->0);
            let there = choices_above(rows, moved_down(app, k).selected->0);
            &&& moved_down(app, k).has_list()
            &&& moved_down(app, k) == (AppView { selected: moved_down(app, k).selected, ..app })
            &&& 0 <= here < total
            &&& there == (if here + k >= total { here + k - total } else { here + k })
        }),
    decreases k,
{
    if k == 0 {
        lemma_down_counts(app);
        assert(moved_down(app, k) =~= (AppView { selected: moved_down(app, k).selected, ..app }));
    } else {
        lemma_down_rank(app, (k - 1) as nat);
        lemma_down_counts(moved_down(app, (k - 1) as nat));
    }
}

/// Two rows that can be selected, with as many choices above them, are one.
proof fn lemma_rank_is_unique(rows: Seq<bool>, i: int, j: int)
    requires
        0 <= i < rows.len(),
        0 <= j < rows.len(),
        rows[i],
        rows[j],
        choices_above(rows, i) == choices_above(rows, j),
    ensures
        i == j,
{
    if i < j {
        lemma_choices_grow(rows, i, j);
    }
    if j < i {
        lemma_choices_grow(rows, j, i);
    }
}

/// Moving down as often as there are rows that can be selected visits each of
/// them once, and leads back to where it began.
pub proof fn law_moving_down_visits_every_choice(app: AppView)
    requires
        app.has_list(),
    ensures
        ({
            let rows = app.selectable;
            let total = choices_above(rows, rows.len() as int) as nat;
            &&& moved_down(app, total) == app
            &&& forall|r: int|
                0 <= r < rows.len() && #[trigger] rows[r] ==> exists|k: nat|
                    k < total && (#[trigger] moved_down(app, k)).selected == Some(r)
            &&& forall|k: nat, l: nat|
                k < l < total ==> (#[trigger] moved_down(app, k)).selected != (
                #[trigger] moved_down(app, l)).selected
        }),
{
    let rows = app.selectable;
    let n = rows.len() as int;
    lemma_down_counts(app);
    let total = choices_above(rows, n) as nat;
    let i = app.selected->0;
    let here = choices_above(rows, i);
    lemma_down_rank(app, total);
    lemma_rank_is_unique(rows, i, moved_down(app, total).selected->0);
    assert(moved_down(app, total) =~= app);
    assert forall|r: int| 0 <= r < rows.len() && #[trigger] rows[r] implies exists|k: nat|
        k < total && (#[trigger] moved_down(app, k)).selected == Some(r) by {
        lemma_choices_grow(rows, r, n);
        let there = choices_above(rows, r);
        let k = (if there >= here {
            there - here
        } else {
            there - here + total
        }) as nat;
        lemma_down_rank(app, k);
        lemma_rank_is_unique(rows, r, moved_down(app, k).selected->0);
        assert(moved_down(app, k).selected == Some(r));
    }
    assert forall|k: nat, l: nat| k < l < total implies (#[trigger] moved_down(app, k)).selected
        != (#[trigger] moved_down(app, l)).selected by {
        lemma_down_rank(app, k);
        lemma_down_rank(app, l);
    }
}

/// A move goes to the nearest row in its direction that can be selected,
/// around the ends of the list: it passes over none that can be.
pub proof fn law_moving_skips_no_choice(app: AppView)
    requires
        app.has_list(),
    ensures
        ({
            let i = app.selected->0;
            let down = app.moved(1).selected->0;
            let up = app.moved(-1).selected->0;
            &&& i < down || down == 0
            &&& forall|k: int|
                i < k < (if down == 0 { app.selectable.len() as int } else { down })
                    ==> !#[trigger] app.selectable[k]
            &&& up < i || i == 0
            &&& forall|k: int|
                up < k < (if i == 0 { app.selectable.len() as int } else { i })
                    ==> !#[trigger] app.selectable[k]
        }),
{
    let rows = app.selectable;
    let i = app.selected->0;
    assert(rows[0]);
    lemma_below(rows, i);
    if below(rows, i) < rows.len() {
        lemma_down_reaches(rows, i, below(rows, i), rows.len());
    } else {
        lemma_down_wraps(rows, i, rows.len());
    }
    if i > 0 {
        lemma_above(rows, i);
        lemma_up_reaches(rows, i, above(rows, i), rows.len());
    } else {
        lemma_above(rows, rows.len() as int);
        lemma_up_wraps(rows, above(rows, rows.len() as int), rows.len());
    }
}

/// The network that is connected already cannot be chosen from the list.
pub proof fn law_connected_network_is_not_chosen(app: AppView, key: Key, control: bool)
    requires
        app.has_list(),
        app.screen == Screen::List,
        app.after_key(key, control).0.screen == Screen::Password,
    ensures
        app.connected_ssid != Some(app.after_key(key, control).0.target_ssid),
{
    let i = app.selected->0;
    assert(app.selectable[i] == (app.connected_ssid != Some(app.nets[i - 1].ssid)));
}

/// A list comes up with the first network selected that can be, and with the
/// entry by hand only if there is none.
pub proof fn law_first_choice(app: AppView, msg: MsgView)
    requires
        msg is Scanned,
    ensures
        ({
            let after = app.after_msg(msg);
            let first = after.selected->0;
            &&& after.has_list()
            &&& forall|k: int|
                1 <= k < after.selectable.len() && (first == 0 || k < first)
                    ==> !#[trigger] after.selectable[k]
        }),
{
    let rows = app.after_msg(msg).selectable;
    lemma_first_from(rows, 1);
}

proof fn lemma_first_from(rows: Seq<bool>, i: int)
    requires
        0 <= i,
    ensures
        match first_from(rows, i) {
            Some(j) => i <= j < rows.len() && rows[j] && forall|k: int|
                i <= k < j ==> !#[trigger] rows[k],
            None => forall|k: int| i <= k < rows.len() ==> !#[trigger] rows[k],
        },
    decreases rows.len() - i,
{
    if i < rows.len() && !rows[i] {
        lemma_first_from(rows, i + 1);
    }
}

/// Leaving the entry of a name or a password goes back to the list as it was.
pub proof fn law_escape_returns_to_the_list(app: AppView, control: bool)
    requires
        app.has_list(),
        app.screen == Screen::List,
    ensures
        ({
            let back = app.after_key(Key::Enter, control).0.after_key(Key::Esc, control).0;
            &&& back.screen == Screen::List
            &&& back.nets == app.nets
            &&& back.selectable == app.selectable
            &&& back.selected == app.selected
            &&& back.connected_ssid == app.connected_ssid
        }),
{
}

/// Only `q` and Esc end the program, and neither does while a name or a
/// password is entered or a network is being connected.
pub proof fn law_what_quits(app: AppView, key: Key, control: bool)
    requires
        app.after_key(key, control).1 == EffectView::Quit,
    ensures
        key == Key::Char('q') || key == Key::Esc,
        app.screen == Screen::Loading || app.screen == Screen::List || app.screen == Screen::Done,
{
}

/// The state after some characters were typed, one by one.
pub open spec fn typed(app: AppView, line: Seq<char>) -> AppView
    decreases line.len(),
{
    if line.len() == 0 {
        app
    } else {
        typed(app, line.drop_last()).after_key(Key::Char(line.last()), false).0
    }
}

/// What is typed as a password is what the network is connected with, and
/// nothing else changes meanwhile.
pub proof fn law_typed_password_is_used(app: AppView, line: Seq<char>)
    requires
        app.screen == Screen::Password,
    ensures
        typed(app, line) == (AppView { password: app.password + line, ..app }),
        typed(app, line).after_key(Key::Enter, false).1 == (EffectView::Connect {
            ssid: app.target_ssid,
            password: app.password + line,
            dry_run: app.dry_run,
        }),
    decreases line.len(),
{
    if line.len() > 0 {
        law_typed_password_is_used(app, line.drop_last());
        assert((app.password + line.drop_last()).push(line.last()) =~= app.password + line);
    } else {
        assert(app.password + line =~= app.password);
    }
}

/// Backspace takes back the character that was typed last.
pub proof fn law_backspace_undoes_a_character(line: Seq<char>, c: char, control: bool)
    requires
        c != 'u' || !control,
    ensures
        edited(edited(line, Key::Char(c), control), Key::Backspace, control) == line,
{
    assert(line.push(c).drop_last() =~= line);
}

} // verus!
