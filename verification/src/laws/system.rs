//! Laws of what is read from the answers of commands.

use vstd::prelude::*;

use crate::laws::text as text_laws;
use crate::system;
use crate::system::{CommandOutput, ScanStepView};
use crate::text;

verus! {

// ---------- scanning ----------

/// A complaint about missing rights ends the scan, with advice. Any other
/// leads to an error that quotes it without the white space around it; the
/// scan is tried again if and only if the complaint speaks of a busy device.
pub proof fn law_scan_complaint(complaint: Seq<char>, lowered: Seq<char>)
    ensures
        ({
            let step = system::after_complaint(complaint, lowered);
            let denied = text::contains(complaint, "Operation not permitted"@) || text::contains(
                complaint,
                "Permission denied"@,
            );
            &&& denied ==> step == ScanStepView::Failed(
                "permission denied while scanning — run with sudo"@,
            )
            &&& (step is Retry <==> !denied && text::contains(lowered, "busy"@))
            &&& step is Retry ==> step->Retry_0 == "scan failed: "@ + text::trim(complaint)
            &&& !denied && !text::contains(lowered, "busy"@) ==> step == ScanStepView::Failed(
                "scan failed: "@ + text::trim(complaint),
            )
        }),
{
}

/// A scan whose command succeeded is read from its output, whatever it
/// complained of. One whose command failed goes by its complaint, whatever it
/// wrote. One whose command could not be run failed.
pub proof fn law_scan_step(run: Result<CommandOutput, String>)
    ensures
        (system::after_scan(run) is Read) <==> run is Ok && (run->Ok_0).success,
        run is Ok && (run->Ok_0).success ==> system::after_scan(run) == ScanStepView::Read(
            text::utf8_lossy((run->Ok_0).stdout@),
        ),
        run is Ok && !(run->Ok_0).success ==> system::after_scan(run) == system::after_complaint(
            text::utf8_lossy((run->Ok_0).stderr@),
            text::lowercase(text::utf8_lossy((run->Ok_0).stderr@)),
        ),
        run is Err ==> system::after_scan(run) == ScanStepView::Failed(
            "failed to run `iw`: "@ + run->Err_0@,
        ),
{
}

/// A second scan that succeeded is read as a first one is. One that failed, in
/// whatever way, leaves the error of the first.
pub proof fn law_scan_retry(error: Seq<char>, run: Result<CommandOutput, String>)
    ensures
        system::after_scan(run) is Read ==> system::after_retry(error, run) == Ok::<
            Seq<char>,
            Seq<char>,
        >(system::after_scan(run)->Read_0),
        !(system::after_scan(run) is Read) ==> system::after_retry(error, run) == Err::<
            Seq<char>,
            Seq<char>,
        >(error),
{
}

/// A busy device is left alone for two seconds.
pub proof fn law_fixed_pause()
    ensures
        system::RETRY_SECONDS == 2,
{
}

// ---------- the network that is connected ----------

/// Whether a line, without the white space around it, is `SSID:` with that name
/// behind it, which is not blank.
pub open spec fn gives_name(line: Seq<char>, name: Seq<char>) -> bool {
    &&& "SSID:"@.is_prefix_of(text::trim(line))
    &&& name == text::trim(text::trim(line).skip("SSID:"@.len() as int))
    &&& name.len() > 0
}

/// Whether line `k` is the first that gives a name, and gives that one.
pub open spec fn first_gives_name(ls: Seq<Seq<char>>, k: int, name: Seq<char>) -> bool {
    &&& 0 <= k < ls.len()
    &&& gives_name(ls[k], name)
    &&& forall|j: int, other: Seq<char>| 0 <= j < k ==> !#[trigger] gives_name(ls[j], other)
}

/// Whether a link state names that network as the one connected: it does not
/// say that there is none, and the first of its lines with a name gives that
/// name, as a whole.
pub open spec fn names_network(state: Seq<char>, name: Seq<char>) -> bool {
    &&& !text::contains(state, "Not connected"@)
    &&& exists|k: int| first_gives_name(text::lines(state), k, name)
}

proof fn lemma_link_name(line: Seq<char>, name: Seq<char>)
    ensures
        gives_name(line, name) <==> system::link_name(line) == Some(name),
{
}

proof fn lemma_first_link_name(ls: Seq<Seq<char>>, name: Seq<char>)
    ensures
        (exists|k: int| first_gives_name(ls, k, name)) <==> system::first_link_name(ls) == Some(
            name,
        ),
    decreases ls.len(),
{
    if ls.len() > 0 {
        let rest = ls.drop_first();
        lemma_first_link_name(rest, name);
        match system::link_name(ls[0]) {
            Some(n) => {
                lemma_link_name(ls[0], n);
                lemma_link_name(ls[0], name);
                assert(gives_name(ls[0], n));
                if n == name {
                    assert(first_gives_name(ls, 0, name));
                }
            },
            None => {
                assert forall|other: Seq<char>| !#[trigger] gives_name(ls[0], other) by {
                    lemma_link_name(ls[0], other);
                }
                if exists|k: int| first_gives_name(rest, k, name) {
                    let k = choose|k: int| first_gives_name(rest, k, name);
                    assert(ls[k + 1] == rest[k]);
                    assert forall|j: int, other: Seq<char>| 0 <= j < k + 1 implies !#[trigger] gives_name(
                        ls[j],
                        other,
                    ) by {
                        if j > 0 {
                            assert(ls[j] == rest[j - 1]);
                        }
                    }
                    assert(first_gives_name(ls, k + 1, name));
                }
                if exists|k: int| first_gives_name(ls, k, name) {
                    let k = choose|k: int| first_gives_name(ls, k, name);
                    assert(k > 0);
                    assert(ls[k] == rest[k - 1]);
                    assert forall|j: int, other: Seq<char>| 0 <= j < k - 1 implies !#[trigger] gives_name(
                        rest[j],
                        other,
                    ) by {
                        assert(rest[j] == ls[j + 1]);
                    }
                    assert(first_gives_name(rest, k - 1, name));
                }
            },
        }
    }
}

/// The network that is read from a link state is the one that it names.
pub proof fn law_connected_name(state: Seq<char>, name: Seq<char>)
    ensures
        system::connected_name(state) == Some(name) <==> names_network(state, name),
{
    lemma_first_link_name(text::lines(state), name);
}

/// A link state names one network at most.
pub proof fn law_one_network_is_named(state: Seq<char>, name1: Seq<char>, name2: Seq<char>)
    requires
        names_network(state, name1),
        names_network(state, name2),
    ensures
        name1 == name2,
{
    law_connected_name(state, name1);
    law_connected_name(state, name2);
}

// ---------- the address ----------

/// Whether `inet ` first stands in a line at `at`, and what follows, up to
/// `end`, holds no slash but is that address, which is not blank. At `end`
/// there is a slash or the line ends.
pub open spec fn gives_address_at(line: Seq<char>, at: int, end: int, ip: Seq<char>) -> bool {
    &&& 0 <= at && at + 5 <= end <= line.len()
    &&& line.subrange(at, at + 5) == "inet "@
    &&& forall|j: int| 0 <= j < at ==> #[trigger] line.subrange(j, j + 5) != "inet "@
    &&& end < line.len() ==> line[end] == '/'
    &&& forall|i: int| at + 5 <= i < end ==> #[trigger] line[i] != '/'
    &&& ip == text::trim(line.subrange(at + 5, end))
    &&& ip.len() > 0
}

/// Whether a line gives that address.
pub open spec fn gives_address(line: Seq<char>, ip: Seq<char>) -> bool {
    exists|at: int, end: int| gives_address_at(line, at, end, ip)
}

/// Whether line `k` is the first that gives an address, and gives that one.
pub open spec fn first_gives_address(ls: Seq<Seq<char>>, k: int, ip: Seq<char>) -> bool {
    &&& 0 <= k < ls.len()
    &&& gives_address(ls[k], ip)
    &&& forall|j: int, other: Seq<char>| 0 <= j < k ==> !#[trigger] gives_address(ls[j], other)
}

/// Whether an address list gives that address.
pub open spec fn lists_address(list: Seq<char>, ip: Seq<char>) -> bool {
    exists|k: int| first_gives_address(text::lines(list), k, ip)
}

proof fn lemma_inet_address(line: Seq<char>, ip: Seq<char>)
    ensures
        gives_address(line, ip) <==> system::inet_address(line) == Some(ip),
{
    reveal_strlit("inet ");
    if text::contains(line, "inet "@) {
        text_laws::law_first_place(line, "inet "@);
        let place = text::first_place(line, "inet "@);
        let rest = line.skip(place + 5);
        text_laws::lemma_position_bound(rest, '/');
        let n = text::position(rest, '/') as int;
        let until = place + 5 + n;
        assert(text::before(rest, '/') =~= line.subrange(place + 5, until));
        text_laws::lemma_position_is_first(rest, '/');
        assert forall|i: int| place + 5 <= i < until implies #[trigger] line[i] != '/' by {
            assert(line[i] == rest[i - place - 5]);
        }
        if until < line.len() {
            assert(line[until] == rest[n]);
        }
        if system::inet_address(line) == Some(ip) {
            assert(gives_address_at(line, place, until, ip));
        }
        if gives_address(line, ip) {
            let (at, end) = choose|at: int, end: int| gives_address_at(line, at, end, ip);
            if at < place {
                assert(line.subrange(at, at + 5) != "inet "@);
            }
            if place < at {
                assert(line.subrange(place, place + 5) != "inet "@);
            }
            if end < until {
                assert(line[end] != '/');
            }
            if until < end {
                assert(line[until] != '/');
            }
            assert(end == until);
        }
    } else if gives_address(line, ip) {
        let (at, end) = choose|at: int, end: int| gives_address_at(line, at, end, ip);
        assert(text::stands_at(line, "inet "@, at));
    }
}

proof fn lemma_first_address(ls: Seq<Seq<char>>, ip: Seq<char>)
    ensures
        (exists|k: int| first_gives_address(ls, k, ip)) <==> system::first_address(ls) == Some(ip),
    decreases ls.len(),
{
    if ls.len() > 0 {
        let rest = ls.drop_first();
        lemma_first_address(rest, ip);
        match system::inet_address(ls[0]) {
            Some(n) => {
                lemma_inet_address(ls[0], n);
                lemma_inet_address(ls[0], ip);
                assert(gives_address(ls[0], n));
                if n == ip {
                    assert(first_gives_address(ls, 0, ip));
                }
            },
            None => {
                assert forall|other: Seq<char>| !#[trigger] gives_address(ls[0], other) by {
                    lemma_inet_address(ls[0], other);
                }
                if exists|k: int| first_gives_address(rest, k, ip) {
                    let k = choose|k: int| first_gives_address(rest, k, ip);
                    assert(ls[k + 1] == rest[k]);
                    assert forall|j: int, other: Seq<char>| 0 <= j < k + 1 implies !#[trigger] gives_address(
                        ls[j],
                        other,
                    ) by {
                        if j > 0 {
                            assert(ls[j] == rest[j - 1]);
                        }
                    }
                    assert(first_gives_address(ls, k + 1, ip));
                }
                if exists|k: int| first_gives_address(ls, k, ip) {
                    let k = choose|k: int| first_gives_address(ls, k, ip);
                    assert(k > 0);
                    assert(ls[k] == rest[k - 1]);
                    assert forall|j: int, other: Seq<char>| 0 <= j < k - 1 implies !#[trigger] gives_address(
                        rest[j],
                        other,
                    ) by {
                        assert(rest[j] == ls[j + 1]);
                    }
                    assert(first_gives_address(rest, k - 1, ip));
                }
            },
        }
    }
}

/// The address that is read from an address list is the first that it gives.
pub proof fn law_listed_address(list: Seq<char>, ip: Seq<char>)
    ensures
        system::first_address(text::lines(list)) == Some(ip) <==> lists_address(list, ip),
{
    lemma_first_address(text::lines(list), ip);
}

/// An address list gives one address at most.
pub proof fn law_one_address_is_listed(list: Seq<char>, ip1: Seq<char>, ip2: Seq<char>)
    requires
        lists_address(list, ip1),
        lists_address(list, ip2),
    ensures
        ip1 == ip2,
{
    law_listed_address(list, ip1);
    law_listed_address(list, ip2);
}

} // verus!
