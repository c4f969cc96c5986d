//! How strong a network is received, and how that is shown.

use vstd::prelude::*;

use crate::text;

verus! {

/// A received signal strength in dBm, as the bits of an IEEE 754 single
/// precision number: one sign bit, eight of exponent, 23 of fraction.
#[derive(Clone, Copy, Debug, PartialEq, Eq, Structural)]
pub struct Signal {
    pub bits: u32,
}

/// The bits of -100 dBm, the strength of a network that reported none.
pub const UNREPORTED: u32 = 0xc2c8_0000;

impl Signal {
    /// The bits without the sign.
    pub open spec fn magnitude(self) -> int {
        self.bits as int % 0x8000_0000
    }

    /// Whether the bits stand for no number at all: the exponent is all ones
    /// and the fraction is not zero.
    pub open spec fn is_nan(self) -> bool {
        self.magnitude() > 0x7f80_0000
    }

    /// An integer that orders the numbers as their values do. Both zeros have
    /// the same.
    pub open spec fn level(self) -> int {
        if self.bits >= 0x8000_0000 {
            -self.magnitude()
        } else {
            self.magnitude()
        }
    }

    /// Whether this is a stronger signal than `other`. What is no number is
    /// neither stronger nor weaker than anything.
    pub open spec fn exceeds(self, other: Signal) -> bool {
        !self.is_nan() && !other.is_nan() && self.level() > other.level()
    }

    /// Whether this is a stronger signal than `other`.
    pub fn is_stronger_than(self, other: Signal) -> (stronger: bool)
        ensures
            stronger == self.exceeds(other),
    {
        let a: u32 = self.bits % 0x8000_0000;
        let b: u32 = other.bits % 0x8000_0000;
        if a > 0x7f80_0000 || b > 0x7f80_0000 {
            return false;
        }
        match (self.bits >= 0x8000_0000, other.bits >= 0x8000_0000) {
            (false, false) => a > b,
            (true, true) => a < b,
            (false, true) => a > 0 || b > 0,
            (true, false) => false,
        }
    }
}

/// How many of the four bars a quality of so many percent fills.
pub open spec fn bar_count(quality: u8) -> nat {
    if quality <= 25 {
        1
    } else if quality <= 50 {
        2
    } else if quality <= 75 {
        3
    } else {
        4
    }
}

/// The four bars, from the lowest to the highest.
pub open spec fn all_bars() -> Seq<char> {
    seq!['▂', '▄', '▆', '█']
}

/// The bars that a quality fills, and a dot for each of the others.
pub open spec fn bars(quality: u8) -> Seq<char> {
    all_bars().take(bar_count(quality) as int) + text::repeated('·', (4 - bar_count(quality)) as nat)
}

/// The four bars that show a quality of so many percent.
pub fn signal_bars(quality: u8) -> (shown: String)
    ensures
        shown@ == bars(quality),
{
    let n: usize = match quality {
        0..=25 => 1,
        26..=50 => 2,
        51..=75 => 3,
        _ => 4,
    };
    let all: [char; 4] = ['▂', '▄', '▆', '█'];
    let filled = text::text_of(vstd::slice::slice_subrange(all.as_slice(), 0, n));
    assert(all@ =~= all_bars());
    filled.concat(text::repeat_char('·', 4 - n).as_str())
}

/// The colours that the screens use.
#[derive(Clone, Copy, Debug, PartialEq, Eq, Structural)]
pub enum Color {
    Cyan,
    DarkGray,
    Green,
    LightGreen,
    Red,
    White,
    Yellow,
}

/// The colour of a quality: from red for the weakest to green.
pub open spec fn quality_color(quality: u8) -> Color {
    if quality <= 25 {
        Color::Red
    } else if quality <= 50 {
        Color::Yellow
    } else if quality <= 75 {
        Color::LightGreen
    } else {
        Color::Green
    }
}

/// The colour in which a quality of so many percent is shown.
pub fn signal_color(quality: u8) -> (color: Color)
    ensures
        color == quality_color(quality),
{
    match quality {
        0..=25 => Color::Red,
        26..=50 => Color::Yellow,
        51..=75 => Color::LightGreen,
        _ => Color::Green,
    }
}

/// However weak or strong the signal, the bars are four characters wide.
pub proof fn law_bars_are_four_wide(quality: u8)
    ensures
        bars(quality).len() == 4,
{
}

/// A better quality never shows fewer bars.
pub proof fn law_bars_grow_with_quality(weaker: u8, stronger: u8)
    requires
        weaker <= stronger,
    ensures
        bar_count(weaker) <= bar_count(stronger),
{
}

/// Among numbers, being stronger is a strict order in which two signals are
/// only tied if they have the same level.
pub proof fn law_stronger_is_an_order(a: Signal, b: Signal, c: Signal)
    requires
        !a.is_nan(),
        !b.is_nan(),
        !c.is_nan(),
    ensures
        !a.exceeds(a),
        a.exceeds(b) && b.exceeds(c) ==> a.exceeds(c),
        a.exceeds(b) || b.exceeds(a) || a.level() == b.level(),
{
}

} // verus!
