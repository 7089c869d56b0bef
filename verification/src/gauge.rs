//! The bars and colours of the dashboard: how full a bar is drawn and which
//! tone a reading gets.
use vstd::prelude::*;

verus! {

/// A usage at or above this many percent is drawn red.
pub const ALERT_PERCENT: usize = 85;

/// A usage at or above this many percent (and below [`ALERT_PERCENT`]) is
/// drawn yellow.
pub const WARN_PERCENT: usize = 60;

/// Cores shown in the CPU panel.
pub const SHOWN_CORES: usize = 8;

/// Directories shown in the disk panel.
pub const SHOWN_DIRS: usize = 6;

/// The colours of the dashboard.
#[derive(Clone, Copy, Debug, PartialEq, Eq, Structural)]
pub enum Tone {
    /// Cyan.
    Accent,
    /// Magenta.
    Purple,
    Green,
    Yellow,
    Red,
    /// Dark grey.
    Dim,
    White,
}

/// How a bar of `width` cells is drawn for a usage: the usage clamped to
/// 100 percent, and the filled and empty cells.
#[derive(Clone, Copy, Debug, PartialEq, Eq, Structural)]
pub struct BarFill {
    pub percent: usize,
    pub filled: usize,
    pub empty: usize,
}

/// `p` capped at 100.
pub open spec fn capped(p: int) -> int {
    if p > 100 {
        100
    } else {
        p
    }
}

/// The bar of a usage: `width * percent / 100` cells filled, the percentage
/// capped at 100, the rest empty.
pub open spec fn spec_bar_fill(percent: u16, width: usize) -> BarFill {
    let p = capped(percent as int);
    let filled = width * p / 100;
    BarFill { percent: p as usize, filled: filled as usize, empty: (width - filled) as usize }
}

/// The bar of a usage in a bar `width` cells wide.
pub fn bar_fill(percent: u16, width: usize) -> (b: BarFill)
    requires
        width * capped(percent as int) <= usize::MAX,
    ensures
        b == spec_bar_fill(percent, width),
        b.filled + b.empty == width,
        b.percent <= 100,
{
    let p: usize = if percent > 100 {
        100
    } else {
        percent as usize
    };
    proof {
        assert(width * p / 100 <= width) by (nonlinear_arith)
            requires
                p <= 100,
        ;
    }
    let filled = width * p / 100;
    BarFill { percent: p, filled, empty: width - filled }
}

/// The tone of a usage: red from [`ALERT_PERCENT`], yellow from
/// [`WARN_PERCENT`], the panel's own tone below.
pub open spec fn spec_load_tone(percent: usize, base: Tone) -> Tone {
    if percent >= ALERT_PERCENT {
        Tone::Red
    } else if percent >= WARN_PERCENT {
        Tone::Yellow
    } else {
        base
    }
}

/// The tone of a usage in a panel whose own tone is `base`.
pub fn load_tone(percent: usize, base: Tone) -> (t: Tone)
    ensures
        t == spec_load_tone(percent, base),
{
    if percent >= ALERT_PERCENT {
        Tone::Red
    } else if percent >= WARN_PERCENT {
        Tone::Yellow
    } else {
        base
    }
}

/// How alarming a tone is for a usage: the panel's own tone 0, yellow 1,
/// red 2.
pub open spec fn severity(t: Tone, base: Tone) -> int {
    if t == base {
        0
    } else if t == Tone::Yellow {
        1
    } else {
        2
    }
}

/// Gauges go from the panel's tone to yellow to red as usage grows: a higher
/// usage never gets a less alarming tone.
pub proof fn lemma_tone_escalates(p: usize, q: usize, base: Tone)
    requires
        p <= q,
        base != Tone::Yellow && base != Tone::Red,
    ensures
        severity(spec_load_tone(p, base), base) <= severity(spec_load_tone(q, base), base),
{
}

/// The bar of a directory: `width * percent / 100` cells filled, at most the
/// whole bar, the rest empty.
pub open spec fn spec_dir_fill(percent: u32, width: usize) -> (usize, usize) {
    let f = width * percent / 100;
    let filled = if f > width {
        width as int
    } else {
        f
    };
    (filled as usize, (width - filled) as usize)
}

/// The filled and empty cells of a directory's bar.
pub fn dir_fill(percent: u32, width: usize) -> (r: (usize, usize))
    requires
        width * percent <= usize::MAX,
    ensures
        r == spec_dir_fill(percent, width),
        r.0 + r.1 == width,
{
    let f = width * (percent as usize) / 100;
    let filled = if f > width {
        width
    } else {
        f
    };
    (filled, width - filled)
}

/// The tone of the `i`-th core's bar: cyan and magenta in turn.
pub open spec fn spec_core_tone(i: usize) -> Tone {
    if i % 2 == 0 {
        Tone::Accent
    } else {
        Tone::Purple
    }
}

/// The tone of the `i`-th core's bar.
pub fn core_tone(i: usize) -> (t: Tone)
    ensures
        t == spec_core_tone(i),
{
    if i % 2 == 0 {
        Tone::Accent
    } else {
        Tone::Purple
    }
}

/// The tone of the `i`-th directory's row: green, cyan, magenta in turn.
pub open spec fn spec_dir_tone(i: usize) -> Tone {
    if i % 3 == 0 {
        Tone::Green
    } else if i % 3 == 1 {
        Tone::Accent
    } else {
        Tone::Purple
    }
}

/// The tone of the `i`-th directory's row.
pub fn dir_tone(i: usize) -> (t: Tone)
    ensures
        t == spec_dir_tone(i),
{
    if i % 3 == 0 {
        Tone::Green
    } else if i % 3 == 1 {
        Tone::Accent
    } else {
        Tone::Purple
    }
}

/// How a process row is emphasised.
#[derive(Clone, Copy, Debug, PartialEq, Eq, Structural)]
pub enum Emphasis {
    /// The row under the mouse: white and bold on a dark background.
    Selected,
    /// The first row: white and bold.
    Top,
    /// Any other row: dim.
    Plain,
}

/// The emphasis of row `i` when `selected` is the selected row: selection
/// wins over being first.
pub open spec fn spec_row_emphasis(i: usize, selected: Option<usize>) -> Emphasis {
    if selected == Some(i) {
        Emphasis::Selected
    } else if i == 0 {
        Emphasis::Top
    } else {
        Emphasis::Plain
    }
}

/// The emphasis of process row `i`.
pub fn row_emphasis(i: usize, selected: Option<usize>) -> (e: Emphasis)
    ensures
        e == spec_row_emphasis(i, selected),
{
    match selected {
        Some(s) => if s == i {
            return Emphasis::Selected;
        },
        None => {},
    }
    if i == 0 {
        Emphasis::Top
    } else {
        Emphasis::Plain
    }
}

/// How many of `n` items a panel shows when it has room for `limit`.
pub fn shown(n: usize, limit: usize) -> (r: usize)
    ensures
        r == if n < limit {
            n
        } else {
            limit
        },
{
    if n < limit {
        n
    } else {
        limit
    }
}

} // verus!
