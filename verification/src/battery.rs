//! The battery widget's rules: which power supply is the battery, and
//! which glyph shows its charge.

use vstd::prelude::*;
use crate::text::{chars_of, span_starts_with};

verus! {

/// The glyph for a charge given in whole percent: one glyph while
/// charging; otherwise one of ten, by bands of ten from 10 to 100, and the
/// emptiest for anything outside.
pub open spec fn charge_glyph(level: int, charging: bool) -> Seq<char> {
    if charging {
        "󰂄"@
    } else if 90 <= level <= 100 {
        "󰁹"@
    } else if 80 <= level <= 89 {
        "󰂂"@
    } else if 70 <= level <= 79 {
        "󰂁"@
    } else if 60 <= level <= 69 {
        "󰂀"@
    } else if 50 <= level <= 59 {
        "󰁿"@
    } else if 40 <= level <= 49 {
        "󰁾"@
    } else if 30 <= level <= 39 {
        "󰁽"@
    } else if 20 <= level <= 29 {
        "󰁼"@
    } else if 10 <= level <= 19 {
        "󰁻"@
    } else {
        "󰁺"@
    }
}

/// The glyph that shows the battery's charge.
pub fn battery_icon(level: i32, charging: bool) -> (icon: &'static str)
    ensures
        icon@ == charge_glyph(level as int, charging),
{
    if charging {
        "󰂄"
    } else if 90 <= level && level <= 100 {
        "󰁹"
    } else if 80 <= level && level <= 89 {
        "󰂂"
    } else if 70 <= level && level <= 79 {
        "󰂁"
    } else if 60 <= level && level <= 69 {
        "󰂀"
    } else if 50 <= level && level <= 59 {
        "󰁿"
    } else if 40 <= level && level <= 49 {
        "󰁾"
    } else if 30 <= level && level <= 39 {
        "󰁽"
    } else if 20 <= level && level <= 29 {
        "󰁼"
    } else if 10 <= level && level <= 19 {
        "󰁻"
    } else {
        "󰁺"
    }
}

/// Whether a power supply of this name is a battery.
pub open spec fn names_battery(name: Seq<char>) -> bool {
    "BAT"@.is_prefix_of(name)
}

/// Index of the first name that names a battery, or the length if none does.
pub open spec fn first_battery(names: Seq<Seq<char>>) -> int
    decreases names.len(),
{
    if names.len() == 0 {
        0
    } else if names_battery(names.first()) {
        0
    } else {
        1 + first_battery(names.drop_first())
    }
}

/// Picks the battery among the power supplies: the first whose name
/// begins with `BAT`. Returns its index in `names`.
pub fn find_battery(names: &Vec<String>) -> (found: Option<usize>)
    ensures
        match found {
            Some(at) => at < names.len() && at == first_battery(names.deep_view()),
            None => first_battery(names.deep_view()) == names.len(),
        },
{
    let prefix = chars_of("BAT");
    let mut i: usize = 0;
    proof {
        assert(names.deep_view().skip(0) =~= names.deep_view());
    }
    while i < names.len()
        invariant
            i <= names.len(),
            prefix@ == "BAT"@,
            first_battery(names.deep_view()) == i + first_battery(
                names.deep_view().skip(i as int),
            ),
        decreases names.len() - i,
    {
        let name = chars_of(names[i].as_str());
        proof {
            let rest = names.deep_view().skip(i as int);
            assert(rest.first() == names@[i as int]@);
            assert(rest.drop_first() =~= names.deep_view().skip(i as int + 1));
            assert(name@.subrange(0, name.len() as int) =~= name@);
        }
        if span_starts_with(&name, 0, name.len(), &prefix) {
            return Some(i);
        }
        i += 1;
    }
    proof {
        assert(names.deep_view().skip(i as int).len() == 0);
    }
    None
}

} // verus!
