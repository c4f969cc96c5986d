//! Laws of signals, of how they are shown, and of short texts.

use vstd::prelude::*;

use crate::label;
use crate::signal;
use crate::signal::{Color, Signal};
use crate::text;

verus! {

/// The bits of two positive numbers are in the order of the numbers, and those
/// of two negative ones in the reverse; a positive number is above a negative
/// one, the two zeros are equal, and what is no number is not above or below
/// anything.
pub proof fn law_signals_are_ordered_as_numbers(a: Signal, b: Signal)
    ensures
        a.bits <= 0x7f80_0000 && b.bits <= 0x7f80_0000 ==> (a.exceeds(b) <==> a.bits > b.bits),
        0x8000_0000 <= a.bits <= 0xff80_0000 && 0x8000_0000 <= b.bits <= 0xff80_0000 ==> (
        a.exceeds(b) <==> a.bits < b.bits),
        a.bits <= 0x7f80_0000 && 0x8000_0000 <= b.bits <= 0xff80_0000 ==> !b.exceeds(a) && (
        a.exceeds(b) <==> !(a.bits == 0 && b.bits == 0x8000_0000)),
        0x7f80_0000 < a.bits < 0x8000_0000 || a.bits > 0xff80_0000 ==> !a.exceeds(b) && !b.exceeds(
            a,
        ),
{
}

/// The bars fill from the left, one for every 25 percent that a quality has
/// passed, and the lowest is always filled.
pub proof fn law_bars_fill_from_the_left(quality: u8)
    ensures
        ({
            let shown = signal::bars(quality);
            &&& shown.len() == 4
            &&& shown[0] == '▂'
            &&& shown[1] == if quality > 25 { '▄' } else { '·' }
            &&& shown[2] == if quality > 50 { '▆' } else { '·' }
            &&& shown[3] == if quality > 75 { '█' } else { '·' }
        }),
{
}

/// The colour says the same as the bars: one bar is red, two are yellow, three
/// light green, and all four green.
pub proof fn law_color_goes_with_the_bars(quality: u8)
    ensures
        ({
            let shown = signal::bars(quality);
            let color = signal::quality_color(quality);
            &&& shown == seq!['▂', '·', '·', '·'] <==> color == Color::Red
            &&& shown == seq!['▂', '▄', '·', '·'] <==> color == Color::Yellow
            &&& shown == seq!['▂', '▄', '▆', '·'] <==> color == Color::LightGreen
            &&& shown == seq!['▂', '▄', '▆', '█'] <==> color == Color::Green
        }),
{
    let shown = signal::bars(quality);
    if quality <= 25 {
        assert(shown =~= seq!['▂', '·', '·', '·']);
    } else if quality <= 50 {
        assert(shown =~= seq!['▂', '▄', '·', '·']);
    } else if quality <= 75 {
        assert(shown =~= seq!['▂', '▄', '▆', '·']);
    } else {
        assert(shown =~= seq!['▂', '▄', '▆', '█']);
    }
    assert(shown[1] != '·' || quality <= 25);
    assert(seq!['▂', '·', '·', '·'][1] == '·');
    assert(seq!['▂', '▄', '·', '·'][1] == '▄' && seq!['▂', '▄', '·', '·'][2] == '·');
    assert(seq!['▂', '▄', '▆', '·'][2] == '▆' && seq!['▂', '▄', '▆', '·'][3] == '·');
    assert(seq!['▂', '▄', '▆', '█'][2] == '▆' && seq!['▂', '▄', '▆', '█'][3] == '█');
}

/// A network that reported no signal has -100 dBm: weaker than any number
/// above that, stronger than any below.
pub proof fn law_unreported_is_a_hundred_below(other: Signal)
    requires
        !(0x7f80_0000 < other.bits < 0x8000_0000) && other.bits <= 0xff80_0000,
    ensures
        other.exceeds(Signal { bits: signal::UNREPORTED }) <==> other.bits < 0xc2c8_0000,
        (Signal { bits: signal::UNREPORTED }).exceeds(other) <==> other.bits > 0xc2c8_0000,
{
}

/// A name that is too long keeps all the characters that fit beside one
/// ellipsis; one that is not is kept whole.
pub proof fn law_cut_name_keeps_its_start(s: Seq<char>, max: nat)
    requires
        max > 0 || s.len() == 0,
    ensures
        s.len() <= max ==> label::truncated(s, max) == s,
        s.len() > max ==> label::truncated(s, max) == s.take(max - 1) + seq!['…'],
{
    if s.len() > max {
        assert(label::truncated(s, max) =~= s.take(max - 1) + seq!['…']);
    }
}

/// The number that decimal digits stand for, the last of them the ones.
pub open spec fn number(s: Seq<char>) -> int
    decreases s.len(),
{
    if s.len() == 0 {
        0
    } else {
        10 * number(s.drop_last()) + (s.last() as int - 48)
    }
}

/// A number in decimal consists of digits only, has the value of the number
/// and no zero in front; below zero there is a minus sign before them.
pub proof fn law_decimal_is_the_number(n: int)
    ensures
        n < 0 ==> label::decimal(n) == seq!['-'] + label::decimal(-n),
        n >= 0 ==> {
            let s = label::decimal(n);
            &&& s.len() > 0
            &&& number(s) == n
            &&& forall|i: int| 0 <= i < s.len() ==> '0' <= #[trigger] s[i] <= '9'
            &&& s[0] == '0' ==> s.len() == 1
        },
{
    if n >= 0 {
        lemma_digits(n as nat);
    }
}

proof fn lemma_digits(n: nat)
    ensures
        ({
            let s = label::digits(n);
            &&& s.len() > 0
            &&& number(s) == n
            &&& forall|i: int| 0 <= i < s.len() ==> '0' <= #[trigger] s[i] <= '9'
            &&& s[0] == '0' ==> n == 0 && s.len() == 1
        }),
    decreases n,
{
    let s = label::digits(n);
    if n < 10 {
        assert(s.drop_last() =~= Seq::<char>::empty());
        assert(number(s.drop_last()) == 0);
    } else {
        lemma_digits(n / 10);
        assert(s.drop_last() =~= label::digits(n / 10));
        assert(s[0] == label::digits(n / 10)[0]);
        assert forall|i: int| 0 <= i < s.len() implies '0' <= #[trigger] s[i] <= '9' by {
            if i < s.len() - 1 {
                assert(s[i] == label::digits(n / 10)[i]);
            }
        }
    }
}

/// A name in its column starts at the left of it, and nothing but spaces
/// follows.
pub proof fn law_name_in_its_column(s: Seq<char>, width: nat, i: int)
    requires
        s.len() <= width,
        0 <= i < width,
    ensures
        text::pad_right(label::truncated(s, width), width).len() == width,
        text::pad_right(label::truncated(s, width), width)[i] == if i < s.len() { s[i] } else { ' ' },
{
}

} // verus!
