//! The networks in range: what the output of `iw` and `ip` says of them.

use vstd::prelude::*;

use crate::signal::{Signal, UNREPORTED};
use crate::text;

verus! {

// ---------- networks ----------

/// A network in range: its name, and the strongest signal received of it.
#[derive(Debug, PartialEq, Eq)]
pub struct Network {
    pub ssid: String,
    pub signal: Signal,
}

/// A network, with its name as a sequence of characters.
pub struct NetworkView {
    pub ssid: Seq<char>,
    pub signal: Signal,
}

impl View for Network {
    type V = NetworkView;

    open spec fn view(&self) -> NetworkView {
        NetworkView { ssid: self.ssid@, signal: self.signal }
    }
}

/// The networks of a list, in its order.
pub open spec fn views(nets: Seq<Network>) -> Seq<NetworkView> {
    nets.map_values(|n: Network| n@)
}

impl Clone for Network {
    fn clone(&self) -> (same: Network)
        ensures
            same@ == self@,
    {
        Network { ssid: self.ssid.clone(), signal: self.signal }
    }
}

// ---------- the lines of a scan ----------

/// What one line of a scan tells.
pub enum ScanLine {
    /// A station begins.
    Station,
    /// The signal of the station, in the first word if there is one.
    Signal(Option<Seq<char>>),
    /// The name of the station's network.
    Name(Seq<char>),
    /// Nothing that matters here.
    Other,
}

pub open spec fn scan_line(line: Seq<char>) -> ScanLine {
    let t = text::trim(line);
    if "BSS "@.is_prefix_of(t) {
        ScanLine::Station
    } else if "signal:"@.is_prefix_of(t) {
        ScanLine::Signal(text::first_word(text::trim(t.skip("signal:"@.len() as int))))
    } else if "SSID:"@.is_prefix_of(t) {
        ScanLine::Name(text::trim(t.skip("SSID:"@.len() as int)))
    } else {
        ScanLine::Other
    }
}

/// The words, in order, that give the signals of the stations.
pub open spec fn signal_words(ls: Seq<Seq<char>>) -> Seq<Seq<char>>
    decreases ls.len(),
{
    if ls.len() == 0 {
        Seq::empty()
    } else {
        let earlier = signal_words(ls.drop_last());
        match scan_line(ls.last()) {
            ScanLine::Signal(Some(word)) => earlier.push(word),
            _ => earlier,
        }
    }
}

/// The signal of the station that the lines end in. `readings` holds what each
/// of the signal words reads as, `None` where it is no number.
pub open spec fn current_signal(ls: Seq<Seq<char>>, readings: Seq<Option<Signal>>) -> Option<Signal>
    decreases ls.len(),
{
    if ls.len() == 0 {
        None
    } else {
        let earlier = ls.drop_last();
        match scan_line(ls.last()) {
            ScanLine::Station => None,
            ScanLine::Signal(None) => None,
            ScanLine::Signal(Some(word)) => readings[signal_words(earlier).len() as int],
            _ => current_signal(earlier, readings),
        }
    }
}

/// Whether a name is shown: it is not empty, and not padded with zero bytes as
/// the name of a hidden network is.
pub open spec fn is_visible(name: Seq<char>) -> bool {
    name.len() > 0 && !text::contains(name, "\\x00"@)
}

/// The signal, or that of a station that reported none.
pub open spec fn or_unreported(signal: Option<Signal>) -> Signal {
    match signal {
        Some(s) => s,
        None => Signal { bits: UNREPORTED },
    }
}

/// Every visible name in the lines, in order, each with the signal of its
/// station.
pub open spec fn sightings(ls: Seq<Seq<char>>, readings: Seq<Option<Signal>>) -> Seq<NetworkView>
    decreases ls.len(),
{
    if ls.len() == 0 {
        Seq::empty()
    } else {
        let earlier = sightings(ls.drop_last(), readings);
        match scan_line(ls.last()) {
            ScanLine::Name(name) => if is_visible(name) {
                earlier.push(
                    NetworkView {
                        ssid: name,
                        signal: or_unreported(current_signal(ls.drop_last(), readings)),
                    },
                )
            } else {
                earlier
            },
            _ => earlier,
        }
    }
}

// ---------- one entry per name ----------

/// Whether some network of the list has that name.
pub open spec fn is_listed(nets: Seq<NetworkView>, ssid: Seq<char>) -> bool {
    exists|i: int| 0 <= i < nets.len() && (#[trigger] nets[i]).ssid == ssid
}

/// The network, with the signal of `seen` if that is stronger.
pub open spec fn raised(net: NetworkView, seen: NetworkView) -> NetworkView {
    if net.ssid == seen.ssid && seen.signal.exceeds(net.signal) {
        seen
    } else {
        net
    }
}

/// The list after one more sighting: a known name keeps the strongest signal,
/// a new one goes to the end.
pub open spec fn noted(nets: Seq<NetworkView>, seen: NetworkView) -> Seq<NetworkView> {
    if is_listed(nets, seen.ssid) {
        nets.map_values(|n: NetworkView| raised(n, seen))
    } else {
        nets.push(seen)
    }
}

/// The list after all the sightings.
pub open spec fn merged(seen: Seq<NetworkView>) -> Seq<NetworkView>
    decreases seen.len(),
{
    if seen.len() == 0 {
        Seq::empty()
    } else {
        noted(merged(seen.drop_last()), seen.last())
    }
}

/// Whether no name stands twice in the list.
pub open spec fn names_distinct(nets: Seq<NetworkView>) -> bool {
    forall|i: int, j: int|
        0 <= i < j < nets.len() ==> (#[trigger] nets[i]).ssid != (#[trigger] nets[j]).ssid
}

// ---------- strongest first ----------

/// `net` put into a list that is ranked, behind every network that it is not
/// stronger than.
pub open spec fn placed(ranking: Seq<NetworkView>, net: NetworkView) -> Seq<NetworkView>
    decreases ranking.len(),
{
    if ranking.len() > 0 && net.signal.exceeds(ranking.last().signal) {
        placed(ranking.drop_last(), net).push(ranking.last())
    } else {
        ranking.push(net)
    }
}

/// The networks from the strongest to the weakest, equally strong ones in
/// their former order.
pub open spec fn ranked(nets: Seq<NetworkView>) -> Seq<NetworkView>
    decreases nets.len(),
{
    if nets.len() == 0 {
        Seq::empty()
    } else {
        placed(ranked(nets.drop_last()), nets.last())
    }
}

/// The networks that the output of a scan tells of.
pub open spec fn scanned(output: Seq<char>, readings: Seq<Option<Signal>>) -> Seq<NetworkView> {
    ranked(merged(sightings(text::lines(output), readings)))
}

// ---------- lemmas ----------

proof fn lemma_words_grow(ls: Seq<Seq<char>>, n: int)
    requires
        0 <= n <= ls.len(),
    ensures
        signal_words(ls.take(n)).len() <= signal_words(ls).len(),
        n < ls.len() && scan_line(ls[n]) is Signal && scan_line(ls[n])->Signal_0 is Some ==> signal_words(
            ls.take(n),
        ).len() < signal_words(ls).len(),
    decreases ls.len(),
{
    if n == ls.len() {
        assert(ls.take(n) =~= ls);
    } else if n == ls.len() - 1 {
        assert(ls.take(n) =~= ls.drop_last());
    } else {
        let shorter = ls.drop_last();
        lemma_words_grow(shorter, n);
        assert(shorter.take(n) =~= ls.take(n));
    }
}

proof fn lemma_noted_distinct(nets: Seq<NetworkView>, seen: NetworkView)
    requires
        names_distinct(nets),
    ensures
        names_distinct(noted(nets, seen)),
{
    let after = noted(nets, seen);
    assert forall|i: int, j: int| 0 <= i < j < after.len() implies (#[trigger] after[i]).ssid != (
    #[trigger] after[j]).ssid by {
        if is_listed(nets, seen.ssid) {
            assert(after[i].ssid == nets[i].ssid);
            assert(after[j].ssid == nets[j].ssid);
        } else {
            assert(after[i] == nets[i]);
        }
    }
}

proof fn lemma_merged_distinct(seen: Seq<NetworkView>)
    ensures
        names_distinct(merged(seen)),
    decreases seen.len(),
{
    if seen.len() > 0 {
        lemma_merged_distinct(seen.drop_last());
        lemma_noted_distinct(merged(seen.drop_last()), seen.last());
    }
}

proof fn lemma_placed(ranking: Seq<NetworkView>, net: NetworkView, n: int)
    requires
        0 <= n <= ranking.len(),
        forall|i: int|
            n <= i < ranking.len() ==> net.signal.exceeds((#[trigger] ranking[i]).signal),
        n > 0 ==> !net.signal.exceeds(ranking[n - 1].signal),
    ensures
        placed(ranking, net) == ranking.insert(n, net),
    decreases ranking.len(),
{
    if n < ranking.len() {
        lemma_placed(ranking.drop_last(), net, n);
        assert(ranking.drop_last().insert(n, net).push(ranking.last()) =~= ranking.insert(n, net));
    } else {
        assert(ranking.push(net) =~= ranking.insert(n, net));
    }
}

// ---------- reading a scan ----------

/// Adds one sighting to a list in which no name stands twice.
fn note(nets: &mut Vec<Network>, ssid: String, signal: Signal)
    requires
        names_distinct(views(old(nets)@)),
    ensures
        views(final(nets)@) == noted(
            views(old(nets)@),
            NetworkView { ssid: ssid@, signal: signal },
        ),
{
    let ghost before = views(nets@);
    let ghost seen = NetworkView { ssid: ssid@, signal: signal };
    let mut i: usize = 0;
    while i < nets.len()
        invariant
            i <= nets@.len(),
            views(nets@) == before,
            names_distinct(before),
            before == views(old(nets)@),
            seen == (NetworkView { ssid: ssid@, signal: signal }),
            forall|k: int| 0 <= k < i ==> (#[trigger] before[k]).ssid != ssid@,
        decreases nets@.len() - i,
    {
        assert(before[i as int] == nets@[i as int]@);
        if nets[i].ssid == ssid {
            assert(is_listed(before, ssid@));
            if signal.is_stronger_than(nets[i].signal) {
                nets.set(i, Network { ssid, signal });
            }
            assert(views(nets@) =~= noted(before, seen)) by {
                assert forall|k: int| 0 <= k < before.len() implies views(nets@)[k] == noted(
                    before,
                    seen,
                )[k] by {
                    if k < i {
                        assert(before[k].ssid != ssid@);
                    } else if k > i {
                        assert(before[i as int].ssid != before[k].ssid);
                    }
                }
            }
            return ;
        }
        i += 1;
    }
    assert(!is_listed(before, ssid@));
    nets.push(Network { ssid, signal });
    assert(views(nets@) =~= before.push(seen));
}

/// The networks, strongest first.
fn rank(nets: &Vec<Network>) -> (ranking: Vec<Network>)
    ensures
        views(ranking@) == ranked(views(nets@)),
{
    let mut ranking: Vec<Network> = Vec::new();
    let mut i: usize = 0;
    assert(views(nets@).take(0) =~= Seq::<NetworkView>::empty());
    while i < nets.len()
        invariant
            i <= nets@.len(),
            views(ranking@) == ranked(views(nets@).take(i as int)),
        decreases nets@.len() - i,
    {
        let net = nets[i].clone();
        let mut n: usize = ranking.len();
        while n > 0 && net.signal.is_stronger_than(ranking[n - 1].signal)
            invariant
                n <= ranking@.len(),
                forall|k: int|
                    n <= k < ranking@.len() ==> net.signal.exceeds((#[trigger] ranking@[k]).signal),
            decreases n,
        {
            n -= 1;
        }
        let ghost old_ranking = views(ranking@);
        proof {
            assert(forall|k: int|
                0 <= k < old_ranking.len() ==> (#[trigger] old_ranking[k]).signal
                    == ranking@[k].signal);
            lemma_placed(old_ranking, net@, n as int);
        }
        ranking.insert(n, net);
        assert(views(ranking@) =~= old_ranking.insert(n as int, net@));
        i += 1;
        assert(views(nets@).take(i as int).drop_last() =~= views(nets@).take(i - 1));
    }
    assert(views(nets@).take(i as int) =~= views(nets@));
    ranking
}

/// The words of a scan that give the signals of the stations, in order.
pub fn signal_fields(output: &str) -> (fields: Vec<String>)
    ensures
        fields@.map_values(|f: String| f@) == signal_words(text::lines(output@)),
{
    let all = text::chars_of(output);
    let parts = text::split_lines(all.as_slice());
    let ghost ls = text::lines(output@);
    let mut fields: Vec<String> = Vec::new();
    let mut i: usize = 0;
    assert(fields@.map_values(|f: String| f@) =~= signal_words(ls.take(0)));
    while i < parts.len()
        invariant
            i <= parts@.len(),
            ls == parts@.map_values(|l: Vec<char>| l@),
            fields@.map_values(|f: String| f@) == signal_words(ls.take(i as int)),
        decreases parts@.len() - i,
    {
        let ghost earlier = fields@;
        let t = text::trimmed(parts[i].as_slice());
        assert(ls[i as int] == parts@[i as int]@);
        assert(ls.take(i + 1).drop_last() =~= ls.take(i as int));
        if text::stripped(t, "BSS ").is_none() {
            if let Some(rest) = text::stripped(t, "signal:") {
                if let Some(word) = text::leading_word(text::trimmed(rest)) {
                    fields.push(text::text_of(word));
                    assert(fields@.map_values(|f: String| f@) =~= earlier.map_values(
                        |f: String| f@,
                    ).push(word@));
                }
            }
        }
        i += 1;
    }
    assert(ls.take(i as int) =~= ls);
    fields
}

/// The networks that the output of a scan tells of, strongest first.
/// `readings` holds, for each of the output's signal fields, the number that
/// it reads as, or `None` if it reads as none. One that reads as no number in
/// the sense of IEEE 754 is passed by none and passes none.
pub fn parse_scan(output: &str, readings: &Vec<Option<Signal>>) -> (nets: Vec<Network>)
    requires
        readings@.len() == signal_words(text::lines(output@)).len(),
    ensures
        views(nets@) == scanned(output@, readings@),
{
    let all = text::chars_of(output);
    let parts = text::split_lines(all.as_slice());
    let ghost ls = text::lines(output@);
    let mut nets: Vec<Network> = Vec::new();
    let mut current: Option<Signal> = None;
    let total: usize = readings.len();
    let mut used: usize = 0;
    let mut i: usize = 0;
    assert(views(nets@) =~= merged(sightings(ls.take(0), readings@)));
    while i < parts.len()
        invariant
            i <= parts@.len(),
            ls == parts@.map_values(|l: Vec<char>| l@),
            readings@.len() == signal_words(ls).len() == total,
            used == signal_words(ls.take(i as int)).len(),
            current == current_signal(ls.take(i as int), readings@),
            views(nets@) == merged(sightings(ls.take(i as int), readings@)),
        decreases parts@.len() - i,
    {
        let t = text::trimmed(parts[i].as_slice());
        assert(ls[i as int] == parts@[i as int]@);
        assert(ls.take(i + 1).drop_last() =~= ls.take(i as int));
        proof {
            lemma_words_grow(ls, i as int);
        }
        if text::stripped(t, "BSS ").is_some() {
            current = None;
        } else if let Some(rest) = text::stripped(t, "signal:") {
            if text::leading_word(text::trimmed(rest)).is_some() {
                current = readings[used];
                used += 1;
            } else {
                current = None;
            }
        } else if let Some(rest) = text::stripped(t, "SSID:") {
            let name = text::trimmed(rest);
            if name.len() > 0 && text::find(name, "\\x00").is_none() {
                let signal = match current {
                    Some(s) => s,
                    None => Signal { bits: UNREPORTED },
                };
                proof {
                    lemma_merged_distinct(sightings(ls.take(i as int), readings@));
                    let seen = sightings(ls.take(i + 1), readings@);
                    assert(seen.drop_last() =~= sightings(ls.take(i as int), readings@));
                }
                note(&mut nets, text::text_of(name), signal);
            }
        }
        i += 1;
    }
    assert(ls.take(i as int) =~= ls);
    rank(&nets)
}

// ---------- laws of a scan ----------

/// A network stands in the list under each name at most once.
pub proof fn law_scan_names_are_distinct(output: Seq<char>, readings: Seq<Option<Signal>>)
    ensures
        names_distinct(scanned(output, readings)),
{
    let nets = merged(sightings(text::lines(output), readings));
    let ranking = ranked(nets);
    lemma_merged_distinct(sightings(text::lines(output), readings));
    let origin = law_ranking(nets);
    assert forall|i: int, j: int| 0 <= i < j < ranking.len() implies (#[trigger] ranking[i]).ssid
        != (#[trigger] ranking[j]).ssid by {
        assert(origin[i] != origin[j]);
        if origin[i] < origin[j] {
            assert(nets[origin[i]].ssid != nets[origin[j]].ssid);
        } else {
            assert(nets[origin[j]].ssid != nets[origin[i]].ssid);
        }
    }
}

/// Where `placed` puts the network.
spec fn place_of(ranking: Seq<NetworkView>, net: NetworkView) -> int
    decreases ranking.len(),
{
    if ranking.len() > 0 && net.signal.exceeds(ranking.last().signal) {
        place_of(ranking.drop_last(), net)
    } else {
        ranking.len() as int
    }
}

proof fn lemma_place_of(ranking: Seq<NetworkView>, net: NetworkView)
    ensures
        0 <= place_of(ranking, net) <= ranking.len(),
        forall|i: int|
            place_of(ranking, net) <= i < ranking.len() ==> net.signal.exceeds(
                (#[trigger] ranking[i]).signal,
            ),
        place_of(ranking, net) > 0 ==> !net.signal.exceeds(
            ranking[place_of(ranking, net) - 1].signal,
        ),
        placed(ranking, net) == ranking.insert(place_of(ranking, net), net),
    decreases ranking.len(),
{
    if ranking.len() > 0 && net.signal.exceeds(ranking.last().signal) {
        let shorter = ranking.drop_last();
        lemma_place_of(shorter, net);
        let n = place_of(ranking, net);
        assert forall|i: int| n <= i < ranking.len() implies net.signal.exceeds(
            (#[trigger] ranking[i]).signal,
        ) by {
            if i < shorter.len() {
                assert(ranking[i] == shorter[i]);
            }
        }
        if n > 0 {
            assert(ranking[n - 1] == shorter[n - 1]);
        }
    }
    lemma_placed(ranking, net, place_of(ranking, net));
}

/// Whether every signal in the list is a number.
pub open spec fn all_numbers(nets: Seq<NetworkView>) -> bool {
    forall|i: int| 0 <= i < nets.len() ==> !(#[trigger] nets[i]).signal.is_nan()
}

/// Whether `ranking` is `nets` in another order, where entry `i` of the ranking
/// is entry `origin[i]` of the list.
pub open spec fn is_reordering(
    nets: Seq<NetworkView>,
    ranking: Seq<NetworkView>,
    origin: Seq<int>,
) -> bool {
    &&& ranking.len() == nets.len()
    &&& origin.len() == nets.len()
    &&& forall|i: int|
        0 <= i < nets.len() ==> 0 <= #[trigger] origin[i] < nets.len() && ranking[i]
            == nets[origin[i]]
    &&& forall|i: int, j: int|
        0 <= i < j < nets.len() ==> #[trigger] origin[i] != #[trigger] origin[j]
}

/// Whether a ranking goes from the strongest to the weakest, with equally
/// strong networks in the order of the list.
pub open spec fn is_stable_ranking(ranking: Seq<NetworkView>, origin: Seq<int>) -> bool {
    forall|i: int, j: int|
        0 <= i < j < ranking.len() ==> {
            ||| (#[trigger] ranking[i]).signal.level() > (#[trigger] ranking[j]).signal.level()
            ||| ranking[i].signal.level() == ranking[j].signal.level() && origin[i] < origin[j]
        }
}

/// A ranking holds exactly the networks of the list. If their signals are
/// numbers, it goes from the strongest to the weakest, and equally strong
/// networks keep their order.
pub proof fn law_ranking(nets: Seq<NetworkView>) -> (origin: Seq<int>)
    ensures
        is_reordering(nets, ranked(nets), origin),
        all_numbers(nets) ==> is_stable_ranking(ranked(nets), origin),
    decreases nets.len(),
{
    if nets.len() == 0 {
        Seq::empty()
    } else {
        let earlier = nets.drop_last();
        let before = law_ranking(earlier);
        let ranking = ranked(earlier);
        let net = nets.last();
        let n = place_of(ranking, net);
        lemma_place_of(ranking, net);
        let origin = before.insert(n, nets.len() - 1);
        let after = ranking.insert(n, net);
        assert forall|i: int| 0 <= i < nets.len() implies 0 <= #[trigger] origin[i] < nets.len()
            && after[i] == nets[origin[i]] by {
            if i < n {
                assert(origin[i] == before[i]);
            } else if i > n {
                assert(origin[i] == before[i - 1]);
            }
        }
        assert forall|i: int, j: int| 0 <= i < j < nets.len() implies #[trigger] origin[i]
            != #[trigger] origin[j] by {
            let a = if i < n { i } else { i - 1 };
            let b = if j < n { j } else { j - 1 };
            if i != n && j != n {
                assert(before[a] != before[b]);
            } else if i == n {
                assert(0 <= before[b] < earlier.len());
            } else {
                assert(0 <= before[a] < earlier.len());
            }
        }
        if all_numbers(nets) {
            assert(all_numbers(earlier)) by {
                assert forall|i: int| 0 <= i < earlier.len() implies !(
                #[trigger] earlier[i]).signal.is_nan() by {
                    assert(earlier[i] == nets[i]);
                }
            }
            assert forall|i: int| 0 <= i < ranking.len() implies !(
            #[trigger] ranking[i]).signal.is_nan() by {
                assert(ranking[i] == earlier[before[i]]);
            }
            assert forall|i: int, j: int| 0 <= i < j < after.len() implies {
                ||| (#[trigger] after[i]).signal.level() > (#[trigger] after[j]).signal.level()
                ||| after[i].signal.level() == after[j].signal.level() && origin[i] < origin[j]
            } by {
                let a = if i < n { i } else { i - 1 };
                let b = if j < n { j } else { j - 1 };
                if i != n && j != n {
                    assert(after[i] == ranking[a] && after[j] == ranking[b]);
                } else if i == n {
                    assert(after[j] == ranking[b]);
                } else {
                    assert(after[i] == ranking[a]);
                    assert(!net.signal.exceeds(ranking[n - 1].signal));
                    if a < n - 1 {
                        assert(ranking[a].signal.level() >= ranking[n - 1].signal.level());
                    }
                    assert(0 <= before[a] < earlier.len());
                }
            }
        }
        origin
    }
}

/// No hidden network stands in the list.
pub proof fn law_scan_shows_only_visible_names(output: Seq<char>, readings: Seq<Option<Signal>>)
    ensures
        forall|i: int|
            0 <= i < scanned(output, readings).len() ==> is_visible(
                (#[trigger] scanned(output, readings)[i]).ssid,
            ),
{
    let ls = text::lines(output);
    let seen = sightings(ls, readings);
    lemma_sightings_visible(ls, readings);
    law_scan_keeps_the_strongest(output, readings);
    let nets = scanned(output, readings);
    assert forall|i: int| 0 <= i < nets.len() implies is_visible((#[trigger] nets[i]).ssid) by {
        assert(seen.contains(nets[i]));
    }
}

proof fn lemma_sightings_visible(ls: Seq<Seq<char>>, readings: Seq<Option<Signal>>)
    ensures
        forall|i: int|
            0 <= i < sightings(ls, readings).len() ==> is_visible(
                (#[trigger] sightings(ls, readings)[i]).ssid,
            ),
    decreases ls.len(),
{
    if ls.len() > 0 {
        lemma_sightings_visible(ls.drop_last(), readings);
        let earlier = sightings(ls.drop_last(), readings);
        let seen = sightings(ls, readings);
        assert forall|i: int| 0 <= i < seen.len() implies is_visible((#[trigger] seen[i]).ssid) by {
            if i < earlier.len() {
                assert(seen[i] == earlier[i]);
            }
        }
    }
}

/// A signal ends with its station: as long as the next station has told none,
/// there is none.
pub proof fn law_signal_ends_with_its_station(
    ls: Seq<Seq<char>>,
    later: Seq<Seq<char>>,
    readings: Seq<Option<Signal>>,
)
    requires
        ls.len() > 0,
        scan_line(ls.last()) is Station,
        forall|i: int| 0 <= i < later.len() ==> !(scan_line(#[trigger] later[i]) is Signal),
    ensures
        current_signal(ls + later, readings) is None,
    decreases later.len(),
{
    if later.len() == 0 {
        assert(ls + later =~= ls);
    } else {
        let shorter = later.drop_last();
        assert forall|i: int| 0 <= i < shorter.len() implies !(scan_line(
            #[trigger] shorter[i],
        ) is Signal) by {
            assert(shorter[i] == later[i]);
        }
        law_signal_ends_with_its_station(ls, shorter, readings);
        assert((ls + later).drop_last() =~= ls + shorter);
        assert(later[later.len() - 1] == later.last());
    }
}

/// The list holds each name that was seen, and no other.
pub proof fn law_scan_lists_what_was_seen(
    output: Seq<char>,
    readings: Seq<Option<Signal>>,
    ssid: Seq<char>,
)
    ensures
        is_listed(scanned(output, readings), ssid) <==> is_listed(
            sightings(text::lines(output), readings),
            ssid,
        ),
{
    let seen = sightings(text::lines(output), readings);
    lemma_merged_lists(seen, ssid);
    let nets = merged(seen);
    let ranking = ranked(nets);
    let origin = law_ranking(nets);
    if is_listed(ranking, ssid) {
        let i = choose|i: int| 0 <= i < ranking.len() && (#[trigger] ranking[i]).ssid == ssid;
        assert(nets[origin[i]].ssid == ssid);
    }
    if is_listed(nets, ssid) {
        let p = choose|p: int| 0 <= p < nets.len() && (#[trigger] nets[p]).ssid == ssid;
        lemma_origin_onto(origin, p);
        let i = choose|i: int| 0 <= i < origin.len() && #[trigger] origin[i] == p;
        assert(ranking[i] == nets[p]);
    }
}

/// An injective map from `0..n` into itself meets every value.
pub proof fn lemma_origin_onto(origin: Seq<int>, p: int)
    requires
        0 <= p < origin.len(),
        forall|i: int| 0 <= i < origin.len() ==> 0 <= #[trigger] origin[i] < origin.len(),
        forall|i: int, j: int|
            0 <= i < j < origin.len() ==> #[trigger] origin[i] != #[trigger] origin[j],
    ensures
        exists|i: int| 0 <= i < origin.len() && #[trigger] origin[i] == p,
{
    assert(origin.no_duplicates());
    origin.unique_seq_to_set();
    let values = origin.to_set();
    let range = vstd::set_lib::set_int_range(0, origin.len() as int);
    vstd::set_lib::lemma_int_range(0, origin.len() as int);
    assert forall|v: int| values.contains(v) implies range.contains(v) by {
        let i = choose|i: int| 0 <= i < origin.len() && origin[i] == v;
        assert(0 <= origin[i] < origin.len());
    }
    vstd::set_lib::lemma_subset_equality(values, range);
    assert(values.contains(p));
}

proof fn lemma_merged_lists(seen: Seq<NetworkView>, ssid: Seq<char>)
    ensures
        is_listed(merged(seen), ssid) <==> is_listed(seen, ssid),
    decreases seen.len(),
{
    if seen.len() > 0 {
        let earlier = seen.drop_last();
        let last = seen.last();
        lemma_merged_lists(earlier, ssid);
        let nets = merged(earlier);
        let after = merged(seen);
        if is_listed(after, ssid) {
            let i = choose|i: int| 0 <= i < after.len() && (#[trigger] after[i]).ssid == ssid;
            if i < nets.len() {
                assert(nets[i].ssid == ssid);
                let k = choose|k: int| 0 <= k < earlier.len() && (#[trigger] earlier[k]).ssid == ssid;
                assert(seen[k].ssid == ssid);
            } else {
                assert(seen[seen.len() - 1].ssid == ssid);
            }
        }
        if is_listed(seen, ssid) {
            let k = choose|k: int| 0 <= k < seen.len() && (#[trigger] seen[k]).ssid == ssid;
            if k < earlier.len() {
                assert(earlier[k].ssid == ssid);
                let i = choose|i: int| 0 <= i < nets.len() && (#[trigger] nets[i]).ssid == ssid;
                assert(after[i].ssid == ssid);
            } else if is_listed(nets, ssid) {
                let i = choose|i: int| 0 <= i < nets.len() && (#[trigger] nets[i]).ssid == ssid;
                assert(after[i].ssid == ssid);
            } else {
                assert(after[nets.len() as int].ssid == ssid);
            }
        }
    }
}

/// Each entry of the list has a signal that was received under its name, and
/// none received under that name is stronger, if all of them are numbers.
pub proof fn law_scan_keeps_the_strongest(output: Seq<char>, readings: Seq<Option<Signal>>)
    ensures
        ({
            let seen = sightings(text::lines(output), readings);
            let nets = scanned(output, readings);
            &&& forall|i: int| 0 <= i < nets.len() ==> seen.contains(#[trigger] nets[i])
            &&& all_numbers(seen) ==> forall|i: int, k: int|
                0 <= i < nets.len() && 0 <= k < seen.len() && (#[trigger] nets[i]).ssid == (
                #[trigger] seen[k]).ssid ==> !seen[k].signal.exceeds(nets[i].signal)
        }),
{
    let seen = sightings(text::lines(output), readings);
    let nets = merged(seen);
    let ranking = ranked(nets);
    let origin = law_ranking(nets);
    lemma_merged_strongest(seen);
    assert forall|i: int| 0 <= i < ranking.len() implies seen.contains(#[trigger] ranking[i]) by {
        assert(ranking[i] == nets[origin[i]]);
    }
    if all_numbers(seen) {
        assert forall|i: int, k: int|
            0 <= i < ranking.len() && 0 <= k < seen.len() && (#[trigger] ranking[i]).ssid == (
            #[trigger] seen[k]).ssid implies !seen[k].signal.exceeds(ranking[i].signal) by {
            assert(ranking[i] == nets[origin[i]]);
        }
    }
}

/// If all the signals are numbers, the list goes from the strongest network to
/// the weakest.
pub proof fn law_scan_goes_from_strong_to_weak(output: Seq<char>, readings: Seq<Option<Signal>>)
    requires
        all_numbers(sightings(text::lines(output), readings)),
    ensures
        forall|i: int, j: int|
            0 <= i < j < scanned(output, readings).len() ==> (#[trigger] scanned(
                output,
                readings,
            )[i]).signal.level() >= (#[trigger] scanned(output, readings)[j]).signal.level(),
{
    let seen = sightings(text::lines(output), readings);
    let nets = merged(seen);
    lemma_merged_strongest(seen);
    assert forall|i: int| 0 <= i < nets.len() implies !(#[trigger] nets[i]).signal.is_nan() by {
        assert(seen.contains(nets[i]));
        let k = choose|k: int| 0 <= k < seen.len() && seen[k] == nets[i];
        assert(!seen[k].signal.is_nan());
    }
    let origin = law_ranking(nets);
}

proof fn lemma_merged_strongest(seen: Seq<NetworkView>)
    ensures
        forall|i: int| 0 <= i < merged(seen).len() ==> seen.contains(#[trigger] merged(seen)[i]),
        all_numbers(seen) ==> forall|i: int, k: int|
            0 <= i < merged(seen).len() && 0 <= k < seen.len() && (#[trigger] merged(seen)[i]).ssid
                == (#[trigger] seen[k]).ssid ==> !seen[k].signal.exceeds(merged(seen)[i].signal),
    decreases seen.len(),
{
    if seen.len() > 0 {
        let earlier = seen.drop_last();
        let last = seen.last();
        lemma_merged_strongest(earlier);
        let nets = merged(earlier);
        let after = merged(seen);
        assert(seen[seen.len() - 1] == last);
        assert forall|i: int| 0 <= i < after.len() implies seen.contains(#[trigger] after[i]) by {
            if i < nets.len() && after[i] == nets[i] {
                assert(earlier.contains(nets[i]));
                let k = choose|k: int| 0 <= k < earlier.len() && earlier[k] == nets[i];
                assert(seen[k] == nets[i]);
            }
        }
        if all_numbers(seen) {
            assert(all_numbers(earlier)) by {
                assert forall|k: int| 0 <= k < earlier.len() implies !(
                #[trigger] earlier[k]).signal.is_nan() by {
                    assert(earlier[k] == seen[k]);
                }
            }
            assert forall|i: int, k: int|
                0 <= i < after.len() && 0 <= k < seen.len() && (#[trigger] after[i]).ssid == (
                #[trigger] seen[k]).ssid implies !seen[k].signal.exceeds(after[i].signal) by {
                let j = choose|j: int| 0 <= j < seen.len() && seen[j] == after[i];
                assert(seen.contains(after[i]));
                assert(!seen[j].signal.is_nan());
                if k < earlier.len() {
                    assert(earlier[k] == seen[k]);
                    if i < nets.len() {
                        assert(nets[i].ssid == seen[k].ssid);
                        assert(!earlier[k].signal.exceeds(nets[i].signal));
                        assert(earlier.contains(nets[i]));
                    } else {
                        assert(is_listed(earlier, last.ssid));
                        lemma_merged_lists(earlier, last.ssid);
                    }
                } else if i < nets.len() {
                    assert(after[i] == raised(nets[i], last) || after[i] == nets[i]);
                    assert(nets[i].ssid == last.ssid);
                    assert(is_listed(nets, last.ssid));
                }
            }
        }
    }
}

} // verus!
