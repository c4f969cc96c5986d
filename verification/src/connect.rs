//! Connecting to a network, one action at a time: the caller performs each
//! action and reports what came of it.

use vstd::prelude::*;

use crate::netplan;
use crate::system;
use crate::system::CommandOutput;
use crate::text;

verus! {

/// How often the connection is looked for.
pub const POLLS: u32 = 20;

/// How long to wait before each look, in milliseconds.
pub const POLL_MILLIS: u64 = 1000;

/// The mode of the configuration file: only its owner reads and writes it.
pub const CONFIG_MODE: u32 = 0o600;

/// What is to be done next.
#[derive(Debug, PartialEq, Eq)]
pub enum Action {
    /// Find out whether there is a configuration.
    CheckConfig,
    /// Copy the configuration to the backup.
    BackUp,
    /// Write this configuration.
    Write(String),
    /// Give the configuration its mode.
    Restrict,
    /// Run `netplan apply`.
    Apply,
    /// Wait for the time between two looks.
    Wait,
    /// Ask for the state of the link.
    QueryLink,
    /// Ask for the address of the interface.
    QueryAddress,
    /// Find out whether there is a backup.
    CheckBackup,
    /// Copy the backup to the configuration.
    CopyBack,
    /// Run `netplan apply` on what was copied back.
    Reapply,
    /// Nothing more: this is the address of the interface, or what went wrong.
    Finish(Result<String, String>),
}

/// An action, with its texts as sequences of characters.
pub enum ActionView {
    CheckConfig,
    BackUp,
    Write(Seq<char>),
    Restrict,
    Apply,
    Wait,
    QueryLink,
    QueryAddress,
    CheckBackup,
    CopyBack,
    Reapply,
    Finish(Result<Seq<char>, Seq<char>>),
}

impl View for Action {
    type V = ActionView;

    open spec fn view(&self) -> ActionView {
        match *self {
            Action::CheckConfig => ActionView::CheckConfig,
            Action::BackUp => ActionView::BackUp,
            Action::Write(yaml) => ActionView::Write(yaml@),
            Action::Restrict => ActionView::Restrict,
            Action::Apply => ActionView::Apply,
            Action::Wait => ActionView::Wait,
            Action::QueryLink => ActionView::QueryLink,
            Action::QueryAddress => ActionView::QueryAddress,
            Action::CheckBackup => ActionView::CheckBackup,
            Action::CopyBack => ActionView::CopyBack,
            Action::Reapply => ActionView::Reapply,
            Action::Finish(result) => ActionView::Finish(text::result_view(result)),
        }
    }
}

/// What came of an action.
#[derive(Debug, PartialEq, Eq)]
pub enum Event {
    /// Whether the file is there.
    Exists(bool),
    /// The action is done, or this went wrong.
    Done(Result<(), String>),
    /// The command has ended, or could not be run.
    Ran(Result<CommandOutput, String>),
    /// What the command wrote, if it could be run.
    Answer(Option<Vec<u8>>),
}

/// Which action was asked for last. The number counts the looks that have
/// failed, the text is what went wrong.
#[derive(Debug, PartialEq, Eq)]
pub enum Phase {
    ConfigCheck,
    Backup,
    Writing,
    Restricting,
    Applying,
    Waiting(u32),
    Link(u32),
    Address(u32),
    BackupCheck(String),
    CopyingBack(String),
    Reapplying(String),
    Finished,
}

/// A phase, with its text as a sequence of characters.
pub enum PhaseView {
    ConfigCheck,
    Backup,
    Writing,
    Restricting,
    Applying,
    Waiting(u32),
    Link(u32),
    Address(u32),
    BackupCheck(Seq<char>),
    CopyingBack(Seq<char>),
    Reapplying(Seq<char>),
    Finished,
}

impl View for Phase {
    type V = PhaseView;

    open spec fn view(&self) -> PhaseView {
        match *self {
            Phase::ConfigCheck => PhaseView::ConfigCheck,
            Phase::Backup => PhaseView::Backup,
            Phase::Writing => PhaseView::Writing,
            Phase::Restricting => PhaseView::Restricting,
            Phase::Applying => PhaseView::Applying,
            Phase::Waiting(n) => PhaseView::Waiting(n),
            Phase::Link(n) => PhaseView::Link(n),
            Phase::Address(n) => PhaseView::Address(n),
            Phase::BackupCheck(e) => PhaseView::BackupCheck(e@),
            Phase::CopyingBack(e) => PhaseView::CopyingBack(e@),
            Phase::Reapplying(e) => PhaseView::Reapplying(e@),
            Phase::Finished => PhaseView::Finished,
        }
    }
}

/// An attempt to connect to a network.
#[derive(Debug, PartialEq, Eq)]
pub struct Connection {
    pub ssid: String,
    pub yaml: String,
    pub phase: Phase,
}

/// An attempt, with its texts as sequences of characters.
pub struct ConnectionView {
    pub ssid: Seq<char>,
    pub yaml: Seq<char>,
    pub phase: PhaseView,
}

impl View for Connection {
    type V = ConnectionView;

    open spec fn view(&self) -> ConnectionView {
        ConnectionView { ssid: self.ssid@, yaml: self.yaml@, phase: self.phase@ }
    }
}

// ---------- what an attempt does ----------

pub open spec fn dry_run_error(yaml: Seq<char>) -> Seq<char> {
    "dry-run — would write:\n"@ + yaml
}

pub open spec fn backup_error(e: Seq<char>) -> Seq<char> {
    "backup failed: "@ + e + " (run with sudo?)"@
}

pub open spec fn write_error(e: Seq<char>) -> Seq<char> {
    "writing netplan failed: "@ + e + " (run with sudo?)"@
}

pub open spec fn run_error(e: Seq<char>) -> Seq<char> {
    "`netplan apply` failed: "@ + e
}

pub open spec fn apply_error(stderr: Seq<u8>) -> Seq<char> {
    "netplan apply error: "@ + text::trim(text::utf8_lossy(stderr))
}

pub open spec fn no_connectivity() -> Seq<char> {
    "could not get connectivity — restored your previous network"@
}

/// Whether the answer to a question for the link says that this network is
/// connected.
pub open spec fn says_connected(answer: Option<Vec<u8>>, ssid: Seq<char>) -> bool {
    match answer {
        Some(stdout) => system::connected_name(text::utf8_lossy(stdout@)) == Some(ssid),
        None => false,
    }
}

/// The address in the answer to a question for it.
pub open spec fn answered_address(answer: Option<Vec<u8>>) -> Option<Seq<char>> {
    match answer {
        Some(stdout) => system::first_address(text::lines(text::utf8_lossy(stdout@))),
        None => None,
    }
}

impl ConnectionView {
    /// Whether an event can come of the action that was asked for last.
    pub open spec fn accepts(self, event: Event) -> bool {
        match self.phase {
            PhaseView::ConfigCheck | PhaseView::BackupCheck(_) => event is Exists,
            PhaseView::Backup | PhaseView::Writing | PhaseView::Restricting => event is Done,
            PhaseView::Waiting(_) | PhaseView::CopyingBack(_) | PhaseView::Reapplying(_) => {
                event is Done
            },
            PhaseView::Applying => event is Ran,
            PhaseView::Link(_) | PhaseView::Address(_) => event is Answer,
            PhaseView::Finished => false,
        }
    }

    /// The attempt with another phase, and the action of that phase.
    pub open spec fn to(self, phase: PhaseView, action: ActionView) -> (ConnectionView, ActionView) {
        (ConnectionView { phase, ..self }, action)
    }

    /// The end of the attempt.
    pub open spec fn finished(self, result: Result<Seq<char>, Seq<char>>) -> (
        ConnectionView,
        ActionView,
    ) {
        self.to(PhaseView::Finished, ActionView::Finish(result))
    }

    /// The next look after `failed` others and one more have failed; or, after
    /// the last, back to the former configuration.
    pub open spec fn after_failed_look(self, failed: u32) -> (ConnectionView, ActionView) {
        if failed + 1 < POLLS {
            self.to(PhaseView::Waiting((failed + 1) as u32), ActionView::Wait)
        } else {
            self.to(PhaseView::BackupCheck(no_connectivity()), ActionView::CheckBackup)
        }
    }

    /// The attempt after an event, and what is to be done next.
    pub open spec fn next(self, event: Event) -> (ConnectionView, ActionView) {
        match (self.phase, event) {
            (PhaseView::ConfigCheck, Event::Exists(true)) => self.to(
                PhaseView::Backup,
                ActionView::BackUp,
            ),
            (PhaseView::ConfigCheck, Event::Exists(false)) => self.to(
                PhaseView::Writing,
                ActionView::Write(self.yaml),
            ),
            (PhaseView::Backup, Event::Done(Ok(_))) => self.to(
                PhaseView::Writing,
                ActionView::Write(self.yaml),
            ),
            (PhaseView::Backup, Event::Done(Err(e))) => self.finished(Err(backup_error(e@))),
            (PhaseView::Writing, Event::Done(Ok(_))) => self.to(
                PhaseView::Restricting,
                ActionView::Restrict,
            ),
            (PhaseView::Writing, Event::Done(Err(e))) => self.finished(Err(write_error(e@))),
            (PhaseView::Restricting, Event::Done(_)) => self.to(
                PhaseView::Applying,
                ActionView::Apply,
            ),
            (PhaseView::Applying, Event::Ran(Err(e))) => self.finished(Err(run_error(e@))),
            (PhaseView::Applying, Event::Ran(Ok(out))) => if out.success {
                self.to(PhaseView::Waiting(0), ActionView::Wait)
            } else {
                self.to(PhaseView::BackupCheck(apply_error(out.stderr@)), ActionView::CheckBackup)
            },
            (PhaseView::Waiting(n), Event::Done(_)) => self.to(
                PhaseView::Link(n),
                ActionView::QueryLink,
            ),
            (PhaseView::Link(n), Event::Answer(answer)) => if says_connected(answer, self.ssid) {
                self.to(PhaseView::Address(n), ActionView::QueryAddress)
            } else {
                self.after_failed_look(n)
            },
            (PhaseView::Address(n), Event::Answer(answer)) => match answered_address(answer) {
                Some(ip) => self.finished(Ok(ip)),
                None => self.after_failed_look(n),
            },
            (PhaseView::BackupCheck(e), Event::Exists(true)) => self.to(
                PhaseView::CopyingBack(e),
                ActionView::CopyBack,
            ),
            (PhaseView::BackupCheck(e), Event::Exists(false)) => self.finished(Err(e)),
            (PhaseView::CopyingBack(e), Event::Done(_)) => self.to(
                PhaseView::Reapplying(e),
                ActionView::Reapply,
            ),
            (PhaseView::Reapplying(e), Event::Done(_)) => self.finished(Err(e)),
            _ => (self, ActionView::Finish(Err(Seq::empty()))),
        }
    }
}

/// The attempt to connect to a network, and what is to be done first. A dry
/// run ends at once, with the configuration that it would have written.
pub open spec fn begun(ssid: Seq<char>, password: Seq<char>, dry_run: bool) -> (
    ConnectionView,
    ActionView,
) {
    let yaml = netplan::netplan(netplan::IFACE@, ssid, password);
    let attempt = ConnectionView { ssid, yaml, phase: PhaseView::ConfigCheck };
    if dry_run {
        attempt.finished(Err(dry_run_error(yaml)))
    } else {
        (attempt, ActionView::CheckConfig)
    }
}

/// Begins to connect to a network: the attempt, and what is to be done first.
pub fn connect(ssid: &str, password: &str, dry_run: bool) -> (begin: (Connection, Action))
    ensures
        (begin.0@, begin.1@) == begun(ssid@, password@, dry_run),
{
    let yaml = netplan::generate_netplan(netplan::IFACE, ssid, password);
    if dry_run {
        let error = text::join("dry-run — would write:\n", yaml.as_str());
        let attempt = Connection { ssid: ssid.to_string(), yaml, phase: Phase::Finished };
        return (attempt, Action::Finish(Err(error)));
    }
    let attempt = Connection { ssid: ssid.to_string(), yaml, phase: Phase::ConfigCheck };
    (attempt, Action::CheckConfig)
}

impl Connection {
    /// Goes on after the action that was asked for last: `event` is what came
    /// of it. Returns what is to be done next.
    pub fn step(&mut self, event: Event) -> (action: Action)
        requires
            old(self)@.accepts(event),
        ensures
            (final(self)@, action@) == old(self)@.next(event),
    {
        match (&self.phase, event) {
            (Phase::ConfigCheck, Event::Exists(true)) => {
                self.phase = Phase::Backup;
                Action::BackUp
            },
            (Phase::ConfigCheck, Event::Exists(false)) => self.write(),
            (Phase::Backup, Event::Done(Ok(_))) => self.write(),
            (Phase::Backup, Event::Done(Err(e))) => {
                self.fail(text::join3("backup failed: ", e.as_str(), " (run with sudo?)"))
            },
            (Phase::Writing, Event::Done(Ok(_))) => {
                self.phase = Phase::Restricting;
                Action::Restrict
            },
            (Phase::Writing, Event::Done(Err(e))) => {
                self.fail(text::join3("writing netplan failed: ", e.as_str(), " (run with sudo?)"))
            },
            (Phase::Restricting, Event::Done(_)) => {
                self.phase = Phase::Applying;
                Action::Apply
            },
            (Phase::Applying, Event::Ran(Err(e))) => {
                self.fail(text::join("`netplan apply` failed: ", e.as_str()))
            },
            (Phase::Applying, Event::Ran(Ok(out))) => {
                if out.success {
                    self.phase = Phase::Waiting(0);
                    Action::Wait
                } else {
                    let stderr = text::decode_lossy(out.stderr.as_slice());
                    let complaint = text::text_of(
                        text::trimmed(text::chars_of(stderr.as_str()).as_slice()),
                    );
                    self.restore(text::join("netplan apply error: ", complaint.as_str()))
                }
            },
            (Phase::Waiting(n), Event::Done(_)) => {
                self.phase = Phase::Link(*n);
                Action::QueryLink
            },
            (Phase::Link(n), Event::Answer(answer)) => {
                let failed = *n;
                let current = match answer {
                    Some(stdout) => system::current_ssid(stdout.as_slice()),
                    None => None,
                };
                if system::is_connected_to(&current, self.ssid.as_str()) {
                    self.phase = Phase::Address(failed);
                    Action::QueryAddress
                } else {
                    self.look_again(failed)
                }
            },
            (Phase::Address(n), Event::Answer(answer)) => {
                let failed = *n;
                let current = match answer {
                    Some(stdout) => system::current_ip(stdout.as_slice()),
                    None => None,
                };
                match current {
                    Some(ip) => {
                        self.phase = Phase::Finished;
                        Action::Finish(Ok(ip))
                    },
                    None => self.look_again(failed),
                }
            },
            (Phase::BackupCheck(e), Event::Exists(true)) => {
                self.phase = Phase::CopyingBack(e.clone());
                Action::CopyBack
            },
            (Phase::BackupCheck(e), Event::Exists(false)) => {
                let error = e.clone();
                self.fail(error)
            },
            (Phase::CopyingBack(e), Event::Done(_)) => {
                self.phase = Phase::Reapplying(e.clone());
                Action::Reapply
            },
            (Phase::Reapplying(e), Event::Done(_)) => {
                let error = e.clone();
                self.fail(error)
            },
            _ => vstd::pervasive::unreached(),
        }
    }

    /// Goes on to write the configuration.
    fn write(&mut self) -> (action: Action)
        ensures
            (final(self)@, action@) == old(self)@.to(
                PhaseView::Writing,
                ActionView::Write(old(self)@.yaml),
            ),
    {
        self.phase = Phase::Writing;
        Action::Write(self.yaml.clone())
    }

    /// Ends the attempt with an error.
    fn fail(&mut self, error: String) -> (action: Action)
        ensures
            (final(self)@, action@) == old(self)@.finished(Err(error@)),
    {
        self.phase = Phase::Finished;
        Action::Finish(Err(error))
    }

    /// Goes back to the former configuration, then to end with an error.
    fn restore(&mut self, error: String) -> (action: Action)
        ensures
            (final(self)@, action@) == old(self)@.to(
                PhaseView::BackupCheck(error@),
                ActionView::CheckBackup,
            ),
    {
        self.phase = Phase::BackupCheck(error);
        Action::CheckBackup
    }

    /// Goes on after a look that failed, and `failed` others before it.
    fn look_again(&mut self, failed: u32) -> (action: Action)
        ensures
            (final(self)@, action@) == old(self)@.after_failed_look(failed),
    {
        if failed < POLLS - 1 {
            self.phase = Phase::Waiting(failed + 1);
            Action::Wait
        } else {
            self.restore("could not get connectivity — restored your previous network".to_string())
        }
    }
}

// ---------- whole attempts ----------

/// What each action of an attempt would come to.
pub struct World {
    pub config_exists: bool,
    pub backup: Result<(), String>,
    pub write: Result<(), String>,
    pub restrict: Result<(), String>,
    pub apply: Result<CommandOutput, String>,
    pub wait: Result<(), String>,
    /// The answer about the link at each look.
    pub link: Seq<Option<Vec<u8>>>,
    /// The answer about the address at each look.
    pub address: Seq<Option<Vec<u8>>>,
    pub backup_exists: bool,
    pub copy_back: Result<(), String>,
    pub reapply: Result<(), String>,
}

impl World {
    /// What comes of the action that belongs to a phase.
    pub open spec fn response(self, phase: PhaseView) -> Event {
        match phase {
            PhaseView::ConfigCheck => Event::Exists(self.config_exists),
            PhaseView::Backup => Event::Done(self.backup),
            PhaseView::Writing => Event::Done(self.write),
            PhaseView::Restricting => Event::Done(self.restrict),
            PhaseView::Applying => Event::Ran(self.apply),
            PhaseView::Waiting(_) => Event::Done(self.wait),
            PhaseView::Link(n) => Event::Answer(self.link[n as int]),
            PhaseView::Address(n) => Event::Answer(self.address[n as int]),
            PhaseView::BackupCheck(_) => Event::Exists(self.backup_exists),
            PhaseView::CopyingBack(_) => Event::Done(self.copy_back),
            PhaseView::Reapplying(_) => Event::Done(self.reapply),
            PhaseView::Finished => Event::Exists(false),
        }
    }
}

/// The actions of an attempt from `action` on, at most `steps` of them before
/// the last.
pub open spec fn run(world: World, attempt: ConnectionView, action: ActionView, steps: nat) -> Seq<
    ActionView,
>
    decreases steps,
{
    if steps == 0 || action is Finish {
        seq![action]
    } else {
        let (after, then_action) = attempt.next(world.response(attempt.phase));
        seq![action] + run(world, after, then_action, (steps - 1) as nat)
    }
}

/// No attempt takes more actions than this before it ends.
pub open spec fn step_limit() -> nat {
    (5 + 3 * POLLS + 3) as nat
}

/// All the actions of an attempt, in order.
pub open spec fn attempt_actions(
    world: World,
    ssid: Seq<char>,
    password: Seq<char>,
    dry_run: bool,
) -> Seq<ActionView> {
    let (attempt, first) = begun(ssid, password, dry_run);
    run(world, attempt, first, step_limit())
}

/// Back to the former configuration, if there is a backup, and then the error.
pub open spec fn restore_actions(world: World, error: Seq<char>) -> Seq<ActionView> {
    seq![ActionView::CheckBackup] + (if world.backup_exists {
        seq![ActionView::CopyBack, ActionView::Reapply]
    } else {
        Seq::empty()
    }) + seq![ActionView::Finish(Err(error))]
}

/// The looks for the connection, after `failed` of them have failed.
pub open spec fn look_actions(world: World, ssid: Seq<char>, failed: nat) -> Seq<ActionView>
    decreases POLLS - failed,
{
    if failed >= POLLS {
        restore_actions(world, no_connectivity())
    } else {
        let link = world.link[failed as int];
        let address = world.address[failed as int];
        let look = seq![ActionView::Wait, ActionView::QueryLink];
        if !says_connected(link, ssid) {
            look + look_actions(world, ssid, failed + 1)
        } else if answered_address(address) is None {
            look + seq![ActionView::QueryAddress] + look_actions(world, ssid, failed + 1)
        } else {
            look + seq![
                ActionView::QueryAddress,
                ActionView::Finish(Ok(answered_address(address)->0)),
            ]
        }
    }
}

/// Applying the configuration, and what follows.
pub open spec fn apply_actions(world: World, ssid: Seq<char>) -> Seq<ActionView> {
    seq![ActionView::Apply] + match world.apply {
        Err(e) => seq![ActionView::Finish(Err(run_error(e@)))],
        Ok(out) => if out.success {
            look_actions(world, ssid, 0)
        } else {
            restore_actions(world, apply_error(out.stderr@))
        },
    }
}

/// Writing the configuration, and what follows.
pub open spec fn write_actions(world: World, ssid: Seq<char>, yaml: Seq<char>) -> Seq<ActionView> {
    seq![ActionView::Write(yaml)] + match world.write {
        Err(e) => seq![ActionView::Finish(Err(write_error(e@)))],
        Ok(_) => seq![ActionView::Restrict] + apply_actions(world, ssid),
    }
}

/// The actions that an attempt consists of.
pub open spec fn expected_actions(
    world: World,
    ssid: Seq<char>,
    password: Seq<char>,
    dry_run: bool,
) -> Seq<ActionView> {
    let yaml = netplan::netplan(netplan::IFACE@, ssid, password);
    if dry_run {
        seq![ActionView::Finish(Err(dry_run_error(yaml)))]
    } else if !world.config_exists {
        seq![ActionView::CheckConfig] + write_actions(world, ssid, yaml)
    } else {
        seq![ActionView::CheckConfig, ActionView::BackUp] + match world.backup {
            Err(e) => seq![ActionView::Finish(Err(backup_error(e@)))],
            Ok(_) => write_actions(world, ssid, yaml),
        }
    }
}

proof fn lemma_restore_run(world: World, attempt: ConnectionView, error: Seq<char>, steps: nat)
    requires
        attempt.phase == PhaseView::BackupCheck(error),
        steps >= 3,
    ensures
        run(world, attempt, ActionView::CheckBackup, steps) == restore_actions(world, error),
{
    reveal_with_fuel(run, 4);
    assert(run(world, attempt, ActionView::CheckBackup, steps) =~= restore_actions(world, error));
}

proof fn lemma_look_run(world: World, attempt: ConnectionView, failed: u32, steps: nat)
    requires
        failed < POLLS,
        attempt.phase == PhaseView::Waiting(failed),
        steps >= 3 * (POLLS - failed) + 3,
    ensures
        run(world, attempt, ActionView::Wait, steps) == look_actions(
            world,
            attempt.ssid,
            failed as nat,
        ),
    decreases POLLS - failed,
{
    let linking = ConnectionView { phase: PhaseView::Link(failed), ..attempt };
    let asking = ConnectionView { phase: PhaseView::Address(failed), ..attempt };
    let link = world.link[failed as int];
    let address = world.address[failed as int];
    let (again, action) = attempt.after_failed_look(failed);
    let rest = look_actions(world, attempt.ssid, (failed + 1) as nat);
    let all = run(world, attempt, ActionView::Wait, steps);
    let from_link = run(world, linking, ActionView::QueryLink, (steps - 1) as nat);
    let from_address = run(world, asking, ActionView::QueryAddress, (steps - 2) as nat);
    assert(attempt.next(world.response(attempt.phase)) == (linking, ActionView::QueryLink));
    assert(all == seq![ActionView::Wait] + from_link);
    let used: nat = if says_connected(link, attempt.ssid) {
        3
    } else {
        2
    };
    if failed + 1 < POLLS {
        lemma_look_run(world, again, (failed + 1) as u32, (steps - used) as nat);
    } else {
        lemma_restore_run(world, again, no_connectivity(), (steps - used) as nat);
    }
    assert(run(world, again, action, (steps - used) as nat) == rest);
    if !says_connected(link, attempt.ssid) {
        assert(linking.next(world.response(linking.phase)) == (again, action));
        assert(from_link == seq![ActionView::QueryLink] + rest);
    } else {
        assert(linking.next(world.response(linking.phase)) == (asking, ActionView::QueryAddress));
        assert(from_link == seq![ActionView::QueryLink] + from_address);
        if answered_address(address) is None {
            assert(asking.next(world.response(asking.phase)) == (again, action));
            assert(from_address == seq![ActionView::QueryAddress] + rest);
        } else {
            let end = ActionView::Finish(Ok(answered_address(address)->0));
            assert(asking.next(world.response(asking.phase)).1 == end);
            assert(from_address == seq![ActionView::QueryAddress] + seq![end]) by {
                reveal_with_fuel(run, 2);
            }
        }
    }
    assert(all =~= look_actions(world, attempt.ssid, failed as nat));
}

proof fn lemma_apply_run(world: World, attempt: ConnectionView, steps: nat)
    requires
        attempt.phase == PhaseView::Applying,
        steps >= 3 * POLLS + 4,
    ensures
        run(world, attempt, ActionView::Apply, steps) == apply_actions(world, attempt.ssid),
{
    reveal_with_fuel(run, 2);
    let (after, action) = attempt.next(world.response(attempt.phase));
    if let Ok(out) = world.apply {
        if out.success {
            lemma_look_run(world, after, 0, (steps - 1) as nat);
        } else {
            lemma_restore_run(world, after, apply_error(out.stderr@), (steps - 1) as nat);
        }
    }
}

proof fn lemma_write_run(world: World, attempt: ConnectionView, steps: nat)
    requires
        attempt.phase == PhaseView::Writing,
        steps >= 3 * POLLS + 6,
    ensures
        run(world, attempt, ActionView::Write(attempt.yaml), steps) == write_actions(
            world,
            attempt.ssid,
            attempt.yaml,
        ),
{
    reveal_with_fuel(run, 3);
    let restricting = ConnectionView { phase: PhaseView::Restricting, ..attempt };
    let applying = ConnectionView { phase: PhaseView::Applying, ..attempt };
    if world.write is Ok {
        lemma_apply_run(world, applying, (steps - 2) as nat);
    }
    assert(run(world, attempt, ActionView::Write(attempt.yaml), steps) =~= write_actions(
        world,
        attempt.ssid,
        attempt.yaml,
    ));
}

/// Whatever the actions come to, an attempt ends, and consists of the actions
/// that are expected of it: the former configuration is kept before the new
/// one is written, the new one is applied, and the connection looked for; if
/// netplan refuses the new one or the connection does not come, the former one
/// is brought back.
pub proof fn law_attempt_actions(
    world: World,
    ssid: Seq<char>,
    password: Seq<char>,
    dry_run: bool,
)
    ensures
        attempt_actions(world, ssid, password, dry_run) == expected_actions(
            world,
            ssid,
            password,
            dry_run,
        ),
{
    reveal_with_fuel(run, 3);
    let (attempt, first) = begun(ssid, password, dry_run);
    let writing = ConnectionView { phase: PhaseView::Writing, ..attempt };
    if !dry_run {
        if !world.config_exists {
            lemma_write_run(world, writing, (step_limit() - 1) as nat);
        } else if world.backup is Ok {
            lemma_write_run(world, writing, (step_limit() - 2) as nat);
        }
    }
    assert(attempt_actions(world, ssid, password, dry_run) =~= expected_actions(
        world,
        ssid,
        password,
        dry_run,
    ));
}

/// Whether the look after `k` others finds the network connected, with an
/// address.
pub open spec fn found_at(world: World, ssid: Seq<char>, k: int) -> bool {
    says_connected(world.link[k], ssid) && answered_address(world.address[k]) is Some
}

/// What the looks come to: the address at the first that finds the network
/// connected, or the error if none does.
pub open spec fn is_look_result(
    world: World,
    ssid: Seq<char>,
    from: nat,
    result: Result<Seq<char>, Seq<char>>,
) -> bool {
    match result {
        Ok(ip) => exists|k: int|
            from <= k < POLLS && #[trigger] found_at(world, ssid, k) && answered_address(
                world.address[k],
            ) == Some(ip) && forall|j: int| from <= j < k ==> !#[trigger] found_at(world, ssid, j),
        Err(e) => e == no_connectivity() && forall|k: int|
            from <= k < POLLS ==> !#[trigger] found_at(world, ssid, k),
    }
}

/// What an attempt comes to that is no dry run.
pub open spec fn is_attempt_result(
    world: World,
    ssid: Seq<char>,
    result: Result<Seq<char>, Seq<char>>,
) -> bool {
    if world.config_exists && world.backup is Err {
        result == Err::<Seq<char>, Seq<char>>(backup_error(world.backup->Err_0@))
    } else if world.write is Err {
        result == Err::<Seq<char>, Seq<char>>(write_error(world.write->Err_0@))
    } else {
        match world.apply {
            Err(e) => result == Err::<Seq<char>, Seq<char>>(run_error(e@)),
            Ok(out) => if out.success {
                is_look_result(world, ssid, 0, result)
            } else {
                result == Err::<Seq<char>, Seq<char>>(apply_error(out.stderr@))
            },
        }
    }
}

/// Whether the actions bring the backup back, if there is one, right before
/// their end.
pub open spec fn ends_restored(world: World, actions: Seq<ActionView>) -> bool {
    let n = actions.len();
    if world.backup_exists {
        &&& n >= 4
        &&& actions[n - 4] == ActionView::CheckBackup
        &&& actions[n - 3] == ActionView::CopyBack
        &&& actions[n - 2] == ActionView::Reapply
    } else {
        n >= 2 && actions[n - 2] == ActionView::CheckBackup
    }
}

/// Whether none of the actions writes the configuration.
spec fn writes_nothing(actions: Seq<ActionView>) -> bool {
    forall|i: int| 0 <= i < actions.len() ==> !(#[trigger] actions[i] is Write)
}

/// Whether the last of the actions, and no other, ends the attempt.
pub open spec fn ends_once(actions: Seq<ActionView>) -> bool {
    &&& actions.len() > 0
    &&& actions.last() is Finish
    &&& forall|i: int| 0 <= i < actions.len() - 1 ==> !(#[trigger] actions[i] is Finish)
}

proof fn lemma_look_actions(world: World, ssid: Seq<char>, failed: nat)
    requires
        failed <= POLLS,
    ensures
        ends_once(look_actions(world, ssid, failed)),
        writes_nothing(look_actions(world, ssid, failed)),
        is_look_result(
            world,
            ssid,
            failed,
            look_actions(world, ssid, failed).last()->Finish_0,
        ),
        look_actions(world, ssid, failed).last()->Finish_0 is Err ==> ends_restored(
            world,
            look_actions(world, ssid, failed),
        ),
    decreases POLLS - failed,
{
    let actions = look_actions(world, ssid, failed);
    if failed < POLLS {
        lemma_look_actions(world, ssid, failed + 1);
        let rest = look_actions(world, ssid, failed + 1);
        if !found_at(world, ssid, failed as int) {
            let n = actions.len() - rest.len();
            assert(actions.skip(n) =~= rest);
            assert forall|i: int| 0 <= i < rest.len() implies actions[n + i] == #[trigger] rest[i] by {
                assert(actions.skip(n)[i] == actions[n + i]);
            }
            assert forall|i: int| 0 <= i < actions.len() implies !(#[trigger] actions[i] is Write)
                && (i < actions.len() - 1 ==> !(actions[i] is Finish)) by {
                if i >= n {
                    assert(actions[i] == rest[i - n]);
                }
            }
            assert(actions.last() == rest[rest.len() - 1]);
            let result = rest.last()->Finish_0;
            if let Ok(ip) = result {
                let k = choose|k: int|
                    failed + 1 <= k < POLLS && #[trigger] found_at(world, ssid, k)
                        && answered_address(world.address[k]) == Some(ip) && forall|j: int|
                        failed + 1 <= j < k ==> !#[trigger] found_at(world, ssid, j);
                assert(found_at(world, ssid, k));
            }
            if result is Err && ends_restored(world, rest) {
                if world.backup_exists {
                    assert(actions[actions.len() - 4] == rest[rest.len() - 4]);
                    assert(actions[actions.len() - 3] == rest[rest.len() - 3]);
                }
                assert(actions[actions.len() - 2] == rest[rest.len() - 2]);
            }
        }
    }
}

proof fn lemma_write_actions(world: World, ssid: Seq<char>, yaml: Seq<char>)
    ensures
        ends_once(write_actions(world, ssid, yaml)),
        write_actions(world, ssid, yaml)[0] == ActionView::Write(yaml),
        writes_nothing(write_actions(world, ssid, yaml).skip(1)),
        !(world.config_exists && world.backup is Err) ==> is_attempt_result(
            world,
            ssid,
            write_actions(world, ssid, yaml).last()->Finish_0,
        ),
        world.write is Ok && world.apply is Ok && write_actions(
            world,
            ssid,
            yaml,
        ).last()->Finish_0 is Err ==> ends_restored(world, write_actions(world, ssid, yaml)),
{
    let actions = write_actions(world, ssid, yaml);
    if world.write is Ok && world.apply is Ok {
        lemma_look_actions(world, ssid, 0);
        let tail = if (world.apply->Ok_0).success {
            look_actions(world, ssid, 0)
        } else {
            restore_actions(world, apply_error((world.apply->Ok_0).stderr@))
        };
        assert(actions =~= seq![ActionView::Write(yaml), ActionView::Restrict, ActionView::Apply]
            + tail);
        assert forall|i: int| 3 <= i < actions.len() implies #[trigger] actions[i] == tail[i - 3] by {}
        assert(actions.last() == tail.last());
        assert forall|i: int| 0 <= i < actions.len() - 1 implies !(
        #[trigger] actions[i] is Finish) by {
            if i >= 3 {
                assert(actions[i] == tail[i - 3]);
            }
        }
        assert forall|i: int| 0 <= i < actions.skip(1).len() implies !(#[trigger] actions.skip(
            1,
        )[i] is Write) by {
            if i >= 2 {
                assert(actions.skip(1)[i] == tail[i - 2]);
            }
        }
    }
}

/// An attempt comes to the result that its actions come to, and to nothing
/// else. It succeeds only where the network is found connected, with an
/// address, at one of the looks.
pub proof fn law_attempt_result(world: World, ssid: Seq<char>, password: Seq<char>)
    ensures
        ({
            let actions = attempt_actions(world, ssid, password, false);
            &&& ends_once(actions)
            &&& is_attempt_result(world, ssid, actions.last()->Finish_0)
        }),
{
    law_attempt_actions(world, ssid, password, false);
    let yaml = netplan::netplan(netplan::IFACE@, ssid, password);
    let actions = expected_actions(world, ssid, password, false);
    lemma_write_actions(world, ssid, yaml);
    let tail = write_actions(world, ssid, yaml);
    if !(world.config_exists && world.backup is Err) {
        let n = actions.len() - tail.len();
        assert forall|i: int| n <= i < actions.len() implies #[trigger] actions[i] == tail[i - n] by {}
        assert(actions.last() == tail.last());
    }
}

/// Once the new configuration may have been applied, an attempt that fails
/// brings the former one back, if it was kept, before it ends.
pub proof fn law_failed_attempt_is_undone(world: World, ssid: Seq<char>, password: Seq<char>)
    requires
        !(world.config_exists && world.backup is Err),
        world.write is Ok,
        world.apply is Ok,
    ensures
        ({
            let actions = attempt_actions(world, ssid, password, false);
            actions.last()->Finish_0 is Err ==> ends_restored(world, actions)
        }),
{
    law_attempt_actions(world, ssid, password, false);
    let yaml = netplan::netplan(netplan::IFACE@, ssid, password);
    let actions = expected_actions(world, ssid, password, false);
    lemma_write_actions(world, ssid, yaml);
    let tail = write_actions(world, ssid, yaml);
    let n = actions.len() - tail.len();
    assert forall|i: int| n <= i < actions.len() implies #[trigger] actions[i] == tail[i - n] by {}
    assert(actions.last() == tail.last());
}

/// The configuration is only ever written with what was asked for, and where
/// there is one already, only right after it was copied to the backup.
pub proof fn law_config_is_backed_up_first(
    world: World,
    ssid: Seq<char>,
    password: Seq<char>,
    dry_run: bool,
)
    ensures
        ({
            let actions = attempt_actions(world, ssid, password, dry_run);
            forall|i: int|
                0 <= i < actions.len() && #[trigger] actions[i] is Write ==> {
                    &&& !dry_run
                    &&& actions[i] == ActionView::Write(
                        netplan::netplan(netplan::IFACE@, ssid, password),
                    )
                    &&& world.config_exists ==> i > 0 && actions[i - 1] == ActionView::BackUp
                        && world.backup is Ok
                }
        }),
{
    law_attempt_actions(world, ssid, password, dry_run);
    let yaml = netplan::netplan(netplan::IFACE@, ssid, password);
    let actions = expected_actions(world, ssid, password, dry_run);
    lemma_write_actions(world, ssid, yaml);
    let tail = write_actions(world, ssid, yaml);
    if !dry_run && !(world.config_exists && world.backup is Err) {
        let n = actions.len() - tail.len();
        assert forall|i: int| 0 <= i < actions.len() && #[trigger] actions[i] is Write implies i
            == n by {
            if i > n {
                assert(actions[i] == tail.skip(1)[i - n - 1]);
            }
        }
        assert(actions[n] == tail[0]);
    }
}

/// A dry run does nothing but say what it would have written.
pub proof fn law_dry_run_touches_nothing(world: World, ssid: Seq<char>, password: Seq<char>)
    ensures
        attempt_actions(world, ssid, password, true) == seq![
            ActionView::Finish(
                Err(dry_run_error(netplan::netplan(netplan::IFACE@, ssid, password))),
            ),
        ],
{
    law_attempt_actions(world, ssid, password, true);
}

/// Every event that an action of an attempt can lead to is one that the
/// attempt accepts.
pub proof fn law_responses_are_accepted(world: World, attempt: ConnectionView)
    requires
        attempt.phase != PhaseView::Finished,
    ensures
        attempt.accepts(world.response(attempt.phase)),
{
}

} // verus!
