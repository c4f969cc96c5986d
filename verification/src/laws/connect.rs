//! Laws of attempts to connect.

use vstd::prelude::*;

use crate::connect;
use crate::connect::{ActionView, ConnectionView, Event, PhaseView, World};
use crate::laws::system as system_laws;
use crate::netplan;
use crate::text;

verus! {

/// Whether the answer about the link names that network as the one connected.
pub open spec fn answer_names(answer: Option<Vec<u8>>, ssid: Seq<char>) -> bool {
    answer is Some && system_laws::names_network(text::utf8_lossy(answer->0@), ssid)
}

/// Whether the answer about the address gives that one.
pub open spec fn answer_lists(answer: Option<Vec<u8>>, ip: Seq<char>) -> bool {
    answer is Some && system_laws::lists_address(text::utf8_lossy(answer->0@), ip)
}

proof fn lemma_answers(answer: Option<Vec<u8>>, ssid: Seq<char>)
    ensures
        connect::says_connected(answer, ssid) <==> answer_names(answer, ssid),
        connect::answered_address(answer) == Some(ssid) <==> answer_lists(answer, ssid),
{
    if let Some(stdout) = answer {
        system_laws::law_connected_name(text::utf8_lossy(stdout@), ssid);
        system_laws::law_listed_address(text::utf8_lossy(stdout@), ssid);
    }
}

/// An answer about the link counts for a network if and only if it names that
/// network, by its whole name.
pub proof fn law_answer_counts_for_the_named_network(answer: Option<Vec<u8>>, ssid: Seq<char>)
    ensures
        connect::says_connected(answer, ssid) <==> {
            &&& answer is Some
            &&& !text::contains(text::utf8_lossy(answer->0@), "Not connected"@)
            &&& exists|k: int|
                system_laws::first_gives_name(
                    text::lines(text::utf8_lossy(answer->0@)),
                    k,
                    ssid,
                )
        },
{
    lemma_answers(answer, ssid);
}

/// One answer counts for one network at most.
pub proof fn law_answer_counts_for_one_network(
    answer: Option<Vec<u8>>,
    ssid1: Seq<char>,
    ssid2: Seq<char>,
)
    requires
        connect::says_connected(answer, ssid1),
        connect::says_connected(answer, ssid2),
    ensures
        ssid1 == ssid2,
{
    lemma_answers(answer, ssid1);
    lemma_answers(answer, ssid2);
    system_laws::law_one_network_is_named(text::utf8_lossy(answer->0@), ssid1, ssid2);
}

// ---------- step by step ----------

/// An attempt begins by finding out whether there is a configuration. It is
/// for the network that was asked for, on the interface of the program. A dry
/// run ends at once, and tells what it would have written.
pub proof fn law_attempt_begins(ssid: Seq<char>, password: Seq<char>, dry_run: bool)
    ensures
        ({
            let (attempt, action) = connect::begun(ssid, password, dry_run);
            let yaml = netplan::netplan("wlp1s0"@, ssid, password);
            &&& attempt.ssid == ssid
            &&& attempt.yaml == yaml
            &&& !dry_run ==> attempt.phase == PhaseView::ConfigCheck && action
                == ActionView::CheckConfig
            &&& dry_run ==> attempt.phase == PhaseView::Finished && action == ActionView::Finish(
                Err("dry-run — would write:\n"@ + yaml),
            )
        }),
{
}

/// No step changes what is connected to, or what is written.
pub proof fn law_steps_keep_the_request(attempt: ConnectionView, event: Event)
    ensures
        attempt.next(event).0.ssid == attempt.ssid,
        attempt.next(event).0.yaml == attempt.yaml,
{
}

/// A configuration that is there is copied before it is written over. If that
/// fails, the attempt ends without writing.
pub proof fn law_steps_to_the_backup(attempt: ConnectionView, event: Event)
    requires
        attempt.phase == PhaseView::ConfigCheck && event is Exists || attempt.phase
            == PhaseView::Backup && event is Done,
    ensures
        ({
            let (after, action) = attempt.next(event);
            let writes = event == Event::Exists(false) || event is Done && event->Done_0 is Ok;
            &&& event == Event::Exists(true) ==> after.phase == PhaseView::Backup && action
                == ActionView::BackUp
            &&& writes ==> after.phase == PhaseView::Writing && action == ActionView::Write(
                attempt.yaml,
            )
            &&& event is Done && event->Done_0 is Err ==> after.phase == PhaseView::Finished
                && action == ActionView::Finish(
                Err("backup failed: "@ + event->Done_0->Err_0@ + " (run with sudo?)"@),
            )
        }),
{
}

/// A configuration that was written is restricted to its owner and applied,
/// whatever the restriction comes to. If it was not written, the attempt ends.
pub proof fn law_steps_to_the_application(attempt: ConnectionView, event: Event)
    requires
        attempt.phase == PhaseView::Writing || attempt.phase == PhaseView::Restricting,
        event is Done,
    ensures
        ({
            let (after, action) = attempt.next(event);
            let failed = attempt.phase == PhaseView::Writing && event->Done_0 is Err;
            &&& failed ==> after.phase == PhaseView::Finished && action == ActionView::Finish(
                Err("writing netplan failed: "@ + event->Done_0->Err_0@ + " (run with sudo?)"@),
            )
            &&& !failed && attempt.phase == PhaseView::Writing ==> after.phase
                == PhaseView::Restricting && action == ActionView::Restrict
            &&& attempt.phase == PhaseView::Restricting ==> after.phase == PhaseView::Applying
                && action == ActionView::Apply
        }),
{
}

/// If netplan takes the configuration, the looks begin, with none that failed.
/// If it refuses, its complaint is what the attempt will end with, once the
/// former configuration is back. If it could not be run, the attempt ends.
pub proof fn law_steps_after_the_application(attempt: ConnectionView, event: Event)
    requires
        attempt.phase == PhaseView::Applying,
        event is Ran,
    ensures
        ({
            let (after, action) = attempt.next(event);
            match event->Ran_0 {
                Err(e) => after.phase == PhaseView::Finished && action == ActionView::Finish(
                    Err("`netplan apply` failed: "@ + e@),
                ),
                Ok(out) => {
                    &&& out.success ==> after.phase == PhaseView::Waiting(0) && action
                        == ActionView::Wait
                    &&& !out.success ==> action == ActionView::CheckBackup && after.phase
                        == PhaseView::BackupCheck(
                        "netplan apply error: "@ + text::trim(text::utf8_lossy(out.stderr@)),
                    )
                },
            }
        }),
{
}

/// What follows a look that failed, after `failed` others did: another one, or
/// after the twentieth the way back.
pub open spec fn looks_again(after: ConnectionView, action: ActionView, failed: u32) -> bool {
    &&& failed < 19 ==> after.phase == PhaseView::Waiting((failed + 1) as u32) && action
        == ActionView::Wait
    &&& failed >= 19 ==> action == ActionView::CheckBackup && after.phase
        == PhaseView::BackupCheck(
        "could not get connectivity — restored your previous network"@,
    )
}

/// Each look waits, and then asks for the link. It goes on to ask for the
/// address if and only if the answer names the network of the attempt.
pub proof fn law_look_at_the_link(attempt: ConnectionView, failed: u32, event: Event)
    requires
        attempt.phase == PhaseView::Waiting(failed) && event is Done || attempt.phase
            == PhaseView::Link(failed) && event is Answer,
    ensures
        ({
            let (after, action) = attempt.next(event);
            &&& attempt.phase == PhaseView::Waiting(failed) ==> after.phase == PhaseView::Link(
                failed,
            ) && action == ActionView::QueryLink
            &&& attempt.phase == PhaseView::Link(failed) ==> {
                let named = answer_names(event->Answer_0, attempt.ssid);
                &&& (action == ActionView::QueryAddress <==> named)
                &&& named ==> after.phase == PhaseView::Address(failed)
                &&& !named ==> looks_again(after, action, failed)
            }
        }),
{
    if event is Answer {
        lemma_answers(event->Answer_0, attempt.ssid);
    }
}

/// The attempt succeeds if and only if the interface has an address, and with
/// that address.
pub proof fn law_look_at_the_address(
    attempt: ConnectionView,
    failed: u32,
    answer: Option<Vec<u8>>,
    ip: Seq<char>,
)
    requires
        attempt.phase == PhaseView::Address(failed),
    ensures
        ({
            let (after, action) = attempt.next(Event::Answer(answer));
            &&& action == ActionView::Finish(Ok(ip)) <==> answer_lists(answer, ip)
            &&& answer_lists(answer, ip) ==> after.phase == PhaseView::Finished
            &&& (forall|any: Seq<char>| !answer_lists(answer, any)) ==> looks_again(
                after,
                action,
                failed,
            )
        }),
{
    lemma_answers(answer, ip);
    if let Some(found) = connect::answered_address(answer) {
        lemma_answers(answer, found);
    }
}

/// On the way back, a backup that is there is copied back and applied, and
/// whatever that comes to, the attempt ends with the error that it had.
pub proof fn law_steps_back(attempt: ConnectionView, error: Seq<char>, event: Event)
    requires
        attempt.phase == PhaseView::BackupCheck(error) && event is Exists || attempt.phase
            == PhaseView::CopyingBack(error) && event is Done || attempt.phase
            == PhaseView::Reapplying(error) && event is Done,
    ensures
        ({
            let (after, action) = attempt.next(event);
            let ends = event == Event::Exists(false) || attempt.phase == PhaseView::Reapplying(
                error,
            );
            &&& ends ==> after.phase == PhaseView::Finished && action == ActionView::Finish(
                Err(error),
            )
            &&& event == Event::Exists(true) ==> after.phase == PhaseView::CopyingBack(error)
                && action == ActionView::CopyBack
            &&& attempt.phase == PhaseView::CopyingBack(error) ==> after.phase
                == PhaseView::Reapplying(error) && action == ActionView::Reapply
        }),
{
}

// ---------- whole attempts ----------

/// An attempt that succeeds has found its network connected at one of twenty
/// looks, with the address that it ends with, and at no look before that one.
/// One that netplan did not stop and that fails has not found it at any.
pub proof fn law_success_is_a_connection(world: World, ssid: Seq<char>, password: Seq<char>)
    requires
        !(world.config_exists && world.backup is Err),
        world.write is Ok,
        world.apply is Ok,
        (world.apply->Ok_0).success,
    ensures
        ({
            let last = connect::attempt_actions(world, ssid, password, false).last();
            match last {
                ActionView::Finish(Ok(ip)) => exists|k: int|
                    0 <= k < 20 && #[trigger] answer_names(world.link[k], ssid) && answer_lists(
                        world.address[k],
                        ip,
                    ) && forall|j: int, any: Seq<char>|
                        0 <= j < k && #[trigger] answer_names(world.link[j], ssid)
                            ==> !#[trigger] answer_lists(world.address[j], any),
                ActionView::Finish(Err(e)) => {
                    &&& e == "could not get connectivity — restored your previous network"@
                    &&& forall|j: int, any: Seq<char>|
                        0 <= j < 20 && #[trigger] answer_names(world.link[j], ssid)
                            ==> !#[trigger] answer_lists(world.address[j], any)
                },
                _ => false,
            }
        }),
{
    connect::law_attempt_result(world, ssid, password);
    let last = connect::attempt_actions(world, ssid, password, false).last();
    let result = last->Finish_0;
    assert forall|j: int, any: Seq<char>|
        !connect::found_at(world, ssid, j) && #[trigger] answer_names(
            world.link[j],
            ssid,
        ) implies !#[trigger] answer_lists(world.address[j], any) by {
        lemma_answers(world.link[j], ssid);
        lemma_answers(world.address[j], any);
    }
    if let Ok(ip) = result {
        let k = choose|k: int|
            0 <= k < 20 && #[trigger] connect::found_at(world, ssid, k)
                && connect::answered_address(world.address[k]) == Some(ip) && forall|j: int|
                0 <= j < k ==> !#[trigger] connect::found_at(world, ssid, j);
        lemma_answers(world.link[k], ssid);
        lemma_answers(world.address[k], ip);
        assert(answer_names(world.link[k], ssid));
    }
}

/// An attempt looks for the connection every second, and the configuration is
/// for its owner alone.
pub proof fn law_fixed_settings()
    ensures
        connect::POLLS == 20,
        connect::POLL_MILLIS == 1000,
        connect::CONFIG_MODE == 0o600,
{
}

} // verus!
