//! Laws of scans.

use vstd::prelude::*;

use crate::laws::text as text_laws;
use crate::scan;
use crate::scan::NetworkView;
use crate::signal::Signal;
use crate::text;

verus! {

/// Whether a line begins, behind white space, with that text.
pub open spec fn begins(line: Seq<char>, with: Seq<char>) -> bool {
    with.is_prefix_of(text::trim(line))
}

proof fn lemma_beginnings(line: Seq<char>)
    ensures
        begins(line, "BSS "@) ==> !begins(line, "signal:"@) && !begins(line, "SSID:"@),
        begins(line, "signal:"@) ==> !begins(line, "SSID:"@),
{
    reveal_strlit("BSS ");
    reveal_strlit("signal:");
    reveal_strlit("SSID:");
    let t = text::trim(line);
    if begins(line, "BSS "@) {
        assert(t.subrange(0, 4)[0] == 'B');
    }
    if begins(line, "signal:"@) {
        assert(t.subrange(0, 7)[0] == 's');
    }
    if begins(line, "SSID:"@) {
        assert(t.subrange(0, 5)[0] == 'S');
    }
}

proof fn lemma_rest(line: Seq<char>, with: Seq<char>, rest: Seq<char>)
    requires
        text::trim(line) == with + rest,
    ensures
        begins(line, with),
        text::trim(line).skip(with.len() as int) == rest,
{
    assert(text::trim(line).subrange(0, with.len() as int) =~= with);
    assert(text::trim(line).skip(with.len() as int) =~= rest);
}

// ---------- line by line ----------

/// Before any line, no network is known and no signal is in effect.
pub proof fn law_scan_of_no_lines(readings: Seq<Option<Signal>>)
    ensures
        scan::signal_words(Seq::empty()) == Seq::<Seq<char>>::empty(),
        scan::current_signal(Seq::empty(), readings) is None,
        scan::sightings(Seq::empty(), readings) == Seq::<NetworkView>::empty(),
{
}

/// A line that begins a station ends the signal of the one before, and shows
/// no network by itself.
pub proof fn law_station_line(
    ls: Seq<Seq<char>>,
    line: Seq<char>,
    readings: Seq<Option<Signal>>,
)
    requires
        begins(line, "BSS "@),
    ensures
        scan::signal_words(ls.push(line)) == scan::signal_words(ls),
        scan::current_signal(ls.push(line), readings) is None,
        scan::sightings(ls.push(line), readings) == scan::sightings(ls, readings),
{
    lemma_beginnings(line);
    assert(ls.push(line).drop_last() =~= ls);
}

/// A signal line brings its first word among the signal words, and what that
/// word reads as into effect. Without a word no signal is in effect.
pub proof fn law_signal_line(
    ls: Seq<Seq<char>>,
    line: Seq<char>,
    rest: Seq<char>,
    readings: Seq<Option<Signal>>,
)
    requires
        text::trim(line) == "signal:"@ + rest,
    ensures
        ({
            let word = text::first_word(text::trim(rest));
            let after = ls.push(line);
            &&& word is Some ==> scan::signal_words(after) == scan::signal_words(ls).push(word->0)
            &&& word is None ==> scan::signal_words(after) == scan::signal_words(ls)
            &&& word is Some ==> scan::current_signal(after, readings)
                == readings[scan::signal_words(ls).len() as int]
            &&& word is None ==> scan::current_signal(after, readings) is None
            &&& scan::sightings(after, readings) == scan::sightings(ls, readings)
        }),
{
    lemma_rest(line, "signal:"@, rest);
    lemma_beginnings(line);
    assert(ls.push(line).drop_last() =~= ls);
}

/// A name line shows a network, with the signal in effect or, where there is
/// none, -100 dBm. A name that is blank or holds an escaped zero byte shows
/// nothing. The signal stays in effect.
pub proof fn law_name_line(
    ls: Seq<Seq<char>>,
    line: Seq<char>,
    rest: Seq<char>,
    readings: Seq<Option<Signal>>,
)
    requires
        text::trim(line) == "SSID:"@ + rest,
    ensures
        ({
            let name = text::trim(rest);
            let before = scan::sightings(ls, readings);
            let after = scan::sightings(ls.push(line), readings);
            let shown = name.len() > 0 && !text::contains(name, "\\x00"@);
            &&& !shown ==> after == before
            &&& shown ==> {
                &&& after.len() == before.len() + 1
                &&& after.drop_last() == before
                &&& after.last().ssid == name
                &&& match scan::current_signal(ls, readings) {
                    Some(s) => after.last().signal == s,
                    None => after.last().signal.bits == 0xc2c8_0000,
                }
            }
            &&& scan::signal_words(ls.push(line)) == scan::signal_words(ls)
            &&& scan::current_signal(ls.push(line), readings) == scan::current_signal(ls, readings)
        }),
{
    lemma_rest(line, "SSID:"@, rest);
    lemma_beginnings(line);
    assert(ls.push(line).drop_last() =~= ls);
    let before = scan::sightings(ls, readings);
    let after = scan::sightings(ls.push(line), readings);
    if after != before {
        assert(after.drop_last() =~= before);
    }
}

/// A line that neither begins a station nor gives a signal or a name makes no
/// difference wherever it stands: the signal words, the signal in effect and
/// the networks shown are the same without it.
pub proof fn law_other_lines_make_no_difference(
    before: Seq<Seq<char>>,
    line: Seq<char>,
    after: Seq<Seq<char>>,
    readings: Seq<Option<Signal>>,
)
    requires
        !begins(line, "BSS "@),
        !begins(line, "signal:"@),
        !begins(line, "SSID:"@),
    ensures
        ({
            let with = before + seq![line] + after;
            let without = before + after;
            &&& scan::signal_words(with) == scan::signal_words(without)
            &&& scan::current_signal(with, readings) == scan::current_signal(without, readings)
            &&& scan::sightings(with, readings) == scan::sightings(without, readings)
        }),
    decreases after.len(),
{
    let with = before + seq![line] + after;
    let without = before + after;
    if after.len() == 0 {
        assert(with.drop_last() =~= before);
        assert(without =~= before);
    } else {
        law_other_lines_make_no_difference(before, line, after.drop_last(), readings);
        assert(with.drop_last() =~= before + seq![line] + after.drop_last());
        assert(without.drop_last() =~= before + after.drop_last());
        assert(with.last() == without.last());
    }
}

/// Taking a line that neither begins a station nor gives a signal or a name out
/// of a scan leaves its signal words, its networks, their signals and their
/// order.
pub proof fn law_other_lines_do_not_change_a_scan(
    before: Seq<char>,
    line: Seq<char>,
    after: Seq<char>,
    readings: Seq<Option<Signal>>,
)
    requires
        before.len() == 0 || before.last() == '\n',
        forall|i: int| 0 <= i < line.len() ==> #[trigger] line[i] != '\n',
        !begins(line, "BSS "@),
        !begins(line, "signal:"@),
        !begins(line, "SSID:"@),
    ensures
        scan::scanned(before + line + seq!['\n'] + after, readings) == scan::scanned(
            before + after,
            readings,
        ),
        scan::signal_words(text::lines(before + line + seq!['\n'] + after)) == scan::signal_words(
            text::lines(before + after),
        ),
{
    let lone = if line.len() > 0 && line.last() == '\r' {
        line.drop_last()
    } else {
        line
    };
    if line.len() > 0 && line.last() == '\r' {
        text_laws::lemma_trim_end_of_line(lone);
        assert(lone.push('\r') =~= line);
        assert(lone + seq!['\r', '\n'] + after =~= line + seq!['\n'] + after);
    }
    assert forall|i: int| 0 <= i < lone.len() implies #[trigger] lone[i] != '\n' by {
        assert(lone[i] == line[i]);
    }
    assert(before + line + seq!['\n'] + after =~= before + (line + seq!['\n'] + after));
    text_laws::law_lines_of_whole_lines(before, line + seq!['\n'] + after);
    text_laws::law_lines_of_whole_lines(before, after);
    text_laws::law_lines(lone, after);
    let a = text::lines(before);
    let b = text::lines(after);
    assert(a + (seq![lone] + b) =~= a + seq![lone] + b);
    law_other_lines_make_no_difference(a, lone, b, readings);
}

/// What a signal line reads as stays in effect over any lines that neither
/// begin a station nor give another signal.
pub proof fn law_signal_stays_in_effect(
    ls: Seq<Seq<char>>,
    line: Seq<char>,
    rest: Seq<char>,
    later: Seq<Seq<char>>,
    readings: Seq<Option<Signal>>,
)
    requires
        text::trim(line) == "signal:"@ + rest,
        text::first_word(text::trim(rest)) is Some,
        forall|i: int|
            0 <= i < later.len() ==> !begins(#[trigger] later[i], "BSS "@) && !begins(
                later[i],
                "signal:"@,
            ),
    ensures
        scan::current_signal(ls.push(line) + later, readings)
            == readings[scan::signal_words(ls).len() as int],
        scan::signal_words(ls.push(line) + later) == scan::signal_words(ls).push(
            text::first_word(text::trim(rest))->0,
        ),
    decreases later.len(),
{
    let all = ls.push(line) + later;
    if later.len() == 0 {
        assert(all =~= ls.push(line));
        law_signal_line(ls, line, rest, readings);
    } else {
        let fewer = later.drop_last();
        assert forall|i: int| 0 <= i < fewer.len() implies !begins(#[trigger] fewer[i], "BSS "@)
            && !begins(fewer[i], "signal:"@) by {
            assert(fewer[i] == later[i]);
        }
        law_signal_stays_in_effect(ls, line, rest, fewer, readings);
        assert(all.drop_last() =~= ls.push(line) + fewer);
        assert(all.last() == later[later.len() - 1]);
    }
}

/// A station that gives its signal and then its name is shown with that name
/// and that signal, whatever stands in between and whatever came before.
pub proof fn law_station_is_shown_with_its_signal(
    ls: Seq<Seq<char>>,
    signal_line: Seq<char>,
    value: Seq<char>,
    between: Seq<Seq<char>>,
    name_line: Seq<char>,
    name: Seq<char>,
    readings: Seq<Option<Signal>>,
)
    requires
        text::trim(signal_line) == "signal:"@ + value,
        text::first_word(text::trim(value)) is Some,
        forall|i: int|
            0 <= i < between.len() ==> !begins(#[trigger] between[i], "BSS "@) && !begins(
                between[i],
                "signal:"@,
            ),
        text::trim(name_line) == "SSID:"@ + name,
        text::trim(name).len() > 0,
        !text::contains(text::trim(name), "\\x00"@),
        readings[scan::signal_words(ls).len() as int] is Some,
    ensures
        scan::sightings((ls.push(signal_line) + between).push(name_line), readings).last()
            == (NetworkView {
            ssid: text::trim(name),
            signal: readings[scan::signal_words(ls).len() as int]->0,
        }),
{
    law_signal_stays_in_effect(ls, signal_line, value, between, readings);
    law_name_line(ls.push(signal_line) + between, name_line, name, readings);
}

// ---------- one entry per name ----------

/// One more sighting of a name that is known changes at most the signal of its
/// entry, and only to a stronger one; one of a name that is not known goes to
/// the end.
pub proof fn law_one_more_sighting(seen: Seq<NetworkView>, next: NetworkView)
    ensures
        scan::merged(Seq::empty()) == Seq::<NetworkView>::empty(),
        ({
            let before = scan::merged(seen);
            let after = scan::merged(seen.push(next));
            let known = exists|i: int| 0 <= i < before.len() && (#[trigger] before[i]).ssid == next.ssid;
            &&& !known ==> after == before.push(next)
            &&& known ==> after.len() == before.len()
            &&& known ==> forall|i: int|
                0 <= i < after.len() ==> (#[trigger] after[i]).ssid == before[i].ssid
            &&& known ==> forall|i: int|
                0 <= i < after.len() ==> (#[trigger] after[i]).signal == if before[i].ssid
                    == next.ssid && next.signal.exceeds(before[i].signal) {
                    next.signal
                } else {
                    before[i].signal
                }
        }),
{
    assert(seen.push(next).drop_last() =~= seen);
    let before = scan::merged(seen);
    assert((exists|i: int| 0 <= i < before.len() && (#[trigger] before[i]).ssid == next.ssid)
        == scan::is_listed(before, next.ssid));
}

proof fn lemma_place(ranking: Seq<NetworkView>, net: NetworkView) -> (n: int)
    ensures
        0 <= n <= ranking.len(),
        scan::placed(ranking, net) == ranking.insert(n, net),
        forall|i: int|
            n <= i < ranking.len() ==> net.signal.exceeds((#[trigger] ranking[i]).signal),
        n > 0 ==> !net.signal.exceeds(ranking[n - 1].signal),
    decreases ranking.len(),
{
    if ranking.len() > 0 && net.signal.exceeds(ranking.last().signal) {
        let shorter = ranking.drop_last();
        let n = lemma_place(shorter, net);
        assert(shorter.insert(n, net).push(ranking.last()) =~= ranking.insert(n, net));
        assert forall|i: int| n <= i < ranking.len() implies net.signal.exceeds(
            (#[trigger] ranking[i]).signal,
        ) by {
            if i < shorter.len() {
                assert(ranking[i] == shorter[i]);
            }
        }
        n
    } else {
        assert(ranking.push(net) =~= ranking.insert(ranking.len() as int, net));
        ranking.len() as int
    }
}

/// One more network goes, from the end of the ranking, past those that it is
/// stronger than and stops at the first that it is not; the others keep their
/// order. So it is with signals that are no numbers, too: they are passed by
/// none and pass none.
pub proof fn law_one_more_in_the_ranking(nets: Seq<NetworkView>, net: NetworkView) -> (n: int)
    ensures
        scan::ranked(Seq::empty()) == Seq::<NetworkView>::empty(),
        ({
            let before = scan::ranked(nets);
            &&& 0 <= n <= before.len()
            &&& scan::ranked(nets.push(net)) == before.insert(n, net)
            &&& forall|i: int|
                n <= i < before.len() ==> net.signal.exceeds((#[trigger] before[i]).signal)
            &&& n > 0 ==> !net.signal.exceeds(before[n - 1].signal)
        }),
{
    assert(nets.push(net).drop_last() =~= nets);
    lemma_place(scan::ranked(nets), net)
}

/// The place where a name is seen first.
pub open spec fn is_first_sighting(seen: Seq<NetworkView>, ssid: Seq<char>, p: int) -> bool {
    &&& 0 <= p < seen.len()
    &&& seen[p].ssid == ssid
    &&& forall|q: int| 0 <= q < p ==> (#[trigger] seen[q]).ssid != ssid
}

proof fn lemma_merged_order(seen: Seq<NetworkView>) -> (first: Seq<int>)
    ensures
        first.len() == scan::merged(seen).len(),
        forall|i: int|
            0 <= i < first.len() ==> is_first_sighting(
                seen,
                (#[trigger] scan::merged(seen)[i]).ssid,
                first[i],
            ),
        forall|i: int, j: int| 0 <= i < j < first.len() ==> #[trigger] first[i] < #[trigger] first[j],
    decreases seen.len(),
{
    if seen.len() == 0 {
        Seq::empty()
    } else {
        let earlier = seen.drop_last();
        let last = seen.last();
        let places = lemma_merged_order(earlier);
        let before = scan::merged(earlier);
        let after = scan::merged(seen);
        law_one_more_sighting(earlier, last);
        assert(earlier.push(last) =~= seen);
        let known = exists|i: int| 0 <= i < before.len() && (#[trigger] before[i]).ssid == last.ssid;
        let first = if known {
            places
        } else {
            places.push(seen.len() - 1)
        };
        assert forall|i: int| 0 <= i < first.len() implies is_first_sighting(
            seen,
            (#[trigger] after[i]).ssid,
            first[i],
        ) by {
            if i < before.len() {
                assert(after[i].ssid == before[i].ssid);
                assert(is_first_sighting(earlier, before[i].ssid, places[i]));
                let p = places[i];
                assert(seen[p] == earlier[p]);
                assert forall|q: int| 0 <= q < p implies (#[trigger] seen[q]).ssid != after[i].ssid by {
                    assert(seen[q] == earlier[q]);
                }
            } else {
                assert forall|q: int| 0 <= q < seen.len() - 1 implies (#[trigger] seen[q]).ssid
                    != last.ssid by {
                    assert(seen[q] == earlier[q]);
                    lemma_seen_is_listed(earlier, q);
                }
            }
        }
        assert forall|i: int, j: int| 0 <= i < j < first.len() implies #[trigger] first[i]
            < #[trigger] first[j] by {
            if j < before.len() {
                assert(places[i] < places[j]);
            } else {
                assert(is_first_sighting(earlier, before[i].ssid, places[i]));
            }
        }
        first
    }
}

proof fn lemma_seen_is_listed(seen: Seq<NetworkView>, q: int)
    requires
        0 <= q < seen.len(),
    ensures
        exists|i: int|
            0 <= i < scan::merged(seen).len() && (#[trigger] scan::merged(seen)[i]).ssid
                == seen[q].ssid,
    decreases seen.len(),
{
    let earlier = seen.drop_last();
    let last = seen.last();
    let before = scan::merged(earlier);
    let after = scan::merged(seen);
    law_one_more_sighting(earlier, last);
    assert(earlier.push(last) =~= seen);
    let known = exists|i: int| 0 <= i < before.len() && (#[trigger] before[i]).ssid == last.ssid;
    if q == seen.len() - 1 {
        if known {
            let i = choose|i: int| 0 <= i < before.len() && (#[trigger] before[i]).ssid == last.ssid;
            assert(after[i].ssid == last.ssid);
        } else {
            assert(after[after.len() - 1].ssid == last.ssid);
        }
    } else {
        lemma_seen_is_listed(earlier, q);
        let i = choose|i: int|
            0 <= i < before.len() && (#[trigger] before[i]).ssid == earlier[q].ssid;
        assert(after[i].ssid == seen[q].ssid);
    }
}

/// What a scan shows: each name that was seen and no other, each once, each
/// with a signal that it was seen with. Where every signal is a number, that is
/// the strongest, and the stronger network comes before the weaker.
pub proof fn law_scan_ranks_what_was_seen(output: Seq<char>, readings: Seq<Option<Signal>>)
    ensures
        ({
            let seen = scan::sightings(text::lines(output), readings);
            let nets = scan::scanned(output, readings);
            let numbers = forall|k: int|
                0 <= k < seen.len() ==> !(#[trigger] seen[k]).signal.is_nan();
            &&& forall|i: int| 0 <= i < nets.len() ==> seen.contains(#[trigger] nets[i])
            &&& forall|k: int|
                0 <= k < seen.len() ==> exists|i: int|
                    0 <= i < nets.len() && (#[trigger] nets[i]).ssid == (#[trigger] seen[k]).ssid
            &&& forall|i: int, j: int|
                0 <= i < j < nets.len() ==> (#[trigger] nets[i]).ssid != (#[trigger] nets[j]).ssid
            &&& numbers ==> forall|i: int, k: int|
                0 <= i < nets.len() && 0 <= k < seen.len() && (#[trigger] nets[i]).ssid == (
                #[trigger] seen[k]).ssid ==> !seen[k].signal.exceeds(nets[i].signal)
            &&& numbers ==> forall|i: int, j: int|
                0 <= i < j < nets.len() ==> !(#[trigger] nets[j]).signal.exceeds(
                    (#[trigger] nets[i]).signal,
                )
        }),
{
    let seen = scan::sightings(text::lines(output), readings);
    let nets = scan::scanned(output, readings);
    scan::law_scan_keeps_the_strongest(output, readings);
    scan::law_scan_names_are_distinct(output, readings);
    assert forall|k: int| 0 <= k < seen.len() implies exists|i: int|
        0 <= i < nets.len() && (#[trigger] nets[i]).ssid == (#[trigger] seen[k]).ssid by {
        scan::law_scan_lists_what_was_seen(output, readings, seen[k].ssid);
        assert(scan::is_listed(seen, seen[k].ssid));
        assert(scan::is_listed(nets, seen[k].ssid));
    }
    if scan::all_numbers(seen) {
        scan::law_scan_goes_from_strong_to_weak(output, readings);
        assert forall|i: int, j: int| 0 <= i < j < nets.len() implies !(
        #[trigger] nets[j]).signal.exceeds((#[trigger] nets[i]).signal) by {
            assert(nets[i].signal.level() >= nets[j].signal.level());
        }
    }
}

proof fn lemma_first_sighting_is_one(seen: Seq<NetworkView>, ssid: Seq<char>, p: int, q: int)
    requires
        is_first_sighting(seen, ssid, p),
        is_first_sighting(seen, ssid, q),
    ensures
        p == q,
{
    if p < q {
        assert(seen[p].ssid != ssid);
    }
    if q < p {
        assert(seen[q].ssid != ssid);
    }
}

/// Networks that are equally strong are shown in the order in which their names
/// were first seen.
pub proof fn law_ties_keep_the_order_of_sighting(
    output: Seq<char>,
    readings: Seq<Option<Signal>>,
    i: int,
    j: int,
    p: int,
    q: int,
)
    requires
        ({
            let seen = scan::sightings(text::lines(output), readings);
            let nets = scan::scanned(output, readings);
            &&& forall|k: int| 0 <= k < seen.len() ==> !(#[trigger] seen[k]).signal.is_nan()
            &&& 0 <= i < j < nets.len()
            &&& !nets[i].signal.exceeds(nets[j].signal)
            &&& is_first_sighting(seen, nets[i].ssid, p)
            &&& is_first_sighting(seen, nets[j].ssid, q)
        }),
    ensures
        p < q,
{
    let seen = scan::sightings(text::lines(output), readings);
    let all = scan::merged(seen);
    let nets = scan::scanned(output, readings);
    let origin = scan::law_ranking(all);
    let first = lemma_merged_order(seen);
    assert(scan::all_numbers(nets)) by {
        scan::law_scan_keeps_the_strongest(output, readings);
        assert forall|k: int| 0 <= k < nets.len() implies !(#[trigger] nets[k]).signal.is_nan() by {
            assert(seen.contains(nets[k]));
        }
    }
    assert(scan::all_numbers(all)) by {
        assert forall|m: int| 0 <= m < all.len() implies !(#[trigger] all[m]).signal.is_nan() by {
            scan::lemma_origin_onto(origin, m);
            let k = choose|k: int| 0 <= k < origin.len() && #[trigger] origin[k] == m;
            assert(nets[k] == all[m]);
        }
    }
    let a = origin[i];
    let b = origin[j];
    assert(nets[i] == all[a]);
    assert(nets[j] == all[b]);
    assert(a < b);
    assert(is_first_sighting(seen, all[a].ssid, first[a]));
    assert(is_first_sighting(seen, all[b].ssid, first[b]));
    lemma_first_sighting_is_one(seen, nets[i].ssid, p, first[a]);
    lemma_first_sighting_is_one(seen, nets[j].ssid, q, first[b]);
}

} // verus!
