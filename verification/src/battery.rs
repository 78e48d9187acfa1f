//! The battery button: its charge, its state, and what it shows of them.
use crate::text;
use vstd::prelude::*;
use vstd::string::StringExecFns;

verus! {

/// Below this charge, in percent, a discharging battery is low.
pub const LOW_PERCENT: u32 = 10;

#[derive(Clone, Copy, Debug, PartialEq, Eq, Structural)]
pub enum BatteryState {
    NotCharging,
    Charging,
    Low,
}

/// Whether a battery button shows its charge as a picture, in digits or both.
#[derive(Clone, Copy, Debug, PartialEq, Eq, Structural)]
pub enum BatteryIconMode {
    Percentage,
    Icon,
    Both,
}

/// One of the pictures of a battery, by its place in its series.
#[derive(Clone, Copy, Debug, PartialEq, Eq, Structural)]
pub enum BatteryIcon {
    Plain(usize),
    Charging(usize),
    Bolt,
}

/// The colour of a button's body: grey, or green or red in its brightness.
#[derive(Clone, Copy, Debug, PartialEq, Eq, Structural)]
pub enum Tint {
    Grey,
    Green,
    Red,
}

impl BatteryIconMode {
    pub fn should_draw_icon(self) -> (r: bool)
        ensures
            r == (self != BatteryIconMode::Percentage),
    {
        !matches!(self, BatteryIconMode::Percentage)
    }

    pub fn should_draw_text(self) -> (r: bool)
        ensures
            r == (self != BatteryIconMode::Icon),
    {
        !matches!(self, BatteryIconMode::Icon)
    }

    /// The mode with the configured name.
    pub open spec fn named(name: Seq<char>) -> Option<BatteryIconMode> {
        if name == "icon"@ {
            Some(BatteryIconMode::Icon)
        } else if name == "percentage"@ {
            Some(BatteryIconMode::Percentage)
        } else if name == "both"@ {
            Some(BatteryIconMode::Both)
        } else {
            None
        }
    }

    /// The mode with the configured name; there are no others.
    pub fn from_name(name: &str) -> (r: Option<BatteryIconMode>)
        ensures
            r == BatteryIconMode::named(name@),
    {
        if text::same_text(name, "icon") {
            Some(BatteryIconMode::Icon)
        } else if text::same_text(name, "percentage") {
            Some(BatteryIconMode::Percentage)
        } else if text::same_text(name, "both") {
            Some(BatteryIconMode::Both)
        } else {
            None
        }
    }
}

/// What the kernel's status word and the charge in percent amount to.
pub open spec fn state_spec(status: Seq<char>, capacity: u32) -> BatteryState {
    let word = text::trimmed(status);
    if word == "Charging"@ || word == "Full"@ {
        BatteryState::Charging
    } else if word == "Discharging"@ && capacity < LOW_PERCENT {
        BatteryState::Low
    } else {
        BatteryState::NotCharging
    }
}

/// `text` without white space around it.
fn trimmed_text(text: &str) -> (r: String)
    ensures
        r@ == text::trimmed(text@),
{
    let chars = text::chars_of(text);
    let (from, to) = text::trim_range(&chars);
    text::string_of(&chars, from, to)
}

/// The state of a battery with the given status word and charge.
pub fn battery_state(status: &str, capacity: u32) -> (r: BatteryState)
    ensures
        r == state_spec(status@, capacity),
{
    let word = trimmed_text(status);
    let word = word.as_str();
    if text::same_text(word, "Charging") || text::same_text(word, "Full") {
        BatteryState::Charging
    } else if text::same_text(word, "Discharging") && capacity < LOW_PERCENT {
        BatteryState::Low
    } else {
        BatteryState::NotCharging
    }
}

/// The charge that the kernel reports, in percent; 100 where it is missing
/// or no number.
pub fn capacity_from_text(report: Option<String>) -> (r: u32)
    ensures
        r == (match report {
            Some(s) => match text::u32_value(text::trimmed(s@)) {
                Some(n) => n,
                None => 100,
            },
            None => 100,
        }),
{
    match report {
        Some(s) => {
            let chars = text::chars_of(s.as_str());
            let (from, to) = text::trim_range(&chars);
            match text::parse_u32(&chars, from, to) {
                Some(n) => n,
                None => 100,
            }
        },
        None => 100,
    }
}

/// Whether a power supply with this type is a battery.
pub fn is_battery_type(kind: &str) -> (r: bool)
    ensures
        r == (text::trimmed(kind@) == "Battery"@),
{
    text::same_text(trimmed_text(kind).as_str(), "Battery")
}

/// How many of the ascending `limits` lie below `capacity`.
pub open spec fn steps_below(limits: Seq<u32>, capacity: u32) -> nat
    decreases limits.len(),
{
    if limits.len() == 0 {
        0
    } else {
        steps_below(limits.drop_last(), capacity) + if limits.last() < capacity {
            1nat
        } else {
            0nat
        }
    }
}

/// The charge up to which each picture of the charging series is shown; the
/// last picture is for everything above.
pub open spec fn charging_limits() -> Seq<u32> {
    seq![20u32, 30, 50, 60, 80, 99]
}

/// The same for the plain series, whose first picture is for an empty
/// battery.
pub open spec fn plain_limits() -> Seq<u32> {
    seq![0u32, 20, 30, 50, 60, 80, 99]
}

/// The picture shown for a charge: none where only digits are wanted, except
/// for a bolt while charging.
pub open spec fn icon_spec(
    mode: BatteryIconMode,
    state: BatteryState,
    capacity: u32,
) -> Option<BatteryIcon> {
    if mode != BatteryIconMode::Percentage {
        if state == BatteryState::Charging {
            Some(BatteryIcon::Charging(steps_below(charging_limits(), capacity) as usize))
        } else {
            Some(BatteryIcon::Plain(steps_below(plain_limits(), capacity) as usize))
        }
    } else if state == BatteryState::Charging {
        Some(BatteryIcon::Bolt)
    } else {
        None
    }
}

fn charging_step(capacity: u32) -> (r: usize)
    ensures
        r == steps_below(charging_limits(), capacity),
        r < 7,
{
    proof {
        reveal_with_fuel(steps_below, 7);
        let s = charging_limits();
        assert(s.drop_last() =~= seq![20u32, 30, 50, 60, 80]);
        assert(s.drop_last().drop_last() =~= seq![20u32, 30, 50, 60]);
        assert(s.drop_last().drop_last().drop_last() =~= seq![20u32, 30, 50]);
        assert(s.drop_last().drop_last().drop_last().drop_last() =~= seq![20u32, 30]);
        assert(s.drop_last().drop_last().drop_last().drop_last().drop_last() =~= seq![20u32]);
    }
    match capacity {
        0..=20 => 0,
        21..=30 => 1,
        31..=50 => 2,
        51..=60 => 3,
        61..=80 => 4,
        81..=99 => 5,
        _ => 6,
    }
}

fn plain_step(capacity: u32) -> (r: usize)
    ensures
        r == steps_below(plain_limits(), capacity),
        r < 8,
{
    proof {
        reveal_with_fuel(steps_below, 8);
        let s = plain_limits();
        assert(s.drop_last() =~= seq![0u32, 20, 30, 50, 60, 80]);
        assert(s.drop_last().drop_last() =~= seq![0u32, 20, 30, 50, 60]);
        assert(s.drop_last().drop_last().drop_last() =~= seq![0u32, 20, 30, 50]);
        assert(s.drop_last().drop_last().drop_last().drop_last() =~= seq![0u32, 20, 30]);
        assert(s.drop_last().drop_last().drop_last().drop_last().drop_last() =~= seq![0u32, 20]);
    }
    match capacity {
        0 => 0,
        1..=20 => 1,
        21..=30 => 2,
        31..=50 => 3,
        51..=60 => 4,
        61..=80 => 5,
        81..=99 => 6,
        _ => 7,
    }
}

/// The picture that a battery button shows.
pub fn battery_icon(mode: BatteryIconMode, state: BatteryState, capacity: u32) -> (r: Option<
    BatteryIcon,
>)
    ensures
        r == icon_spec(mode, state, capacity),
        r matches Some(BatteryIcon::Plain(i)) ==> i < 8,
        r matches Some(BatteryIcon::Charging(i)) ==> i < 7,
{
    if mode.should_draw_icon() {
        match state {
            BatteryState::Charging => Some(BatteryIcon::Charging(charging_step(capacity))),
            _ => Some(BatteryIcon::Plain(plain_step(capacity))),
        }
    } else {
        match state {
            BatteryState::Charging => Some(BatteryIcon::Bolt),
            _ => None,
        }
    }
}

/// The name under which a picture is looked up.
pub open spec fn icon_name_spec(icon: BatteryIcon) -> Seq<char> {
    match icon {
        BatteryIcon::Bolt => "bolt"@,
        BatteryIcon::Plain(i) => if i == 0 {
            "battery_0_bar"@
        } else if i == 1 {
            "battery_1_bar"@
        } else if i == 2 {
            "battery_2_bar"@
        } else if i == 3 {
            "battery_3_bar"@
        } else if i == 4 {
            "battery_4_bar"@
        } else if i == 5 {
            "battery_5_bar"@
        } else if i == 6 {
            "battery_6_bar"@
        } else {
            "battery_full"@
        },
        BatteryIcon::Charging(i) => if i == 0 {
            "battery_charging_20"@
        } else if i == 1 {
            "battery_charging_30"@
        } else if i == 2 {
            "battery_charging_50"@
        } else if i == 3 {
            "battery_charging_60"@
        } else if i == 4 {
            "battery_charging_80"@
        } else if i == 5 {
            "battery_charging_90"@
        } else {
            "battery_charging_full"@
        },
    }
}

/// The name under which a picture is looked up.
pub fn icon_name(icon: BatteryIcon) -> (r: &'static str)
    ensures
        r@ == icon_name_spec(icon),
{
    match icon {
        BatteryIcon::Bolt => "bolt",
        BatteryIcon::Plain(i) => match i {
            0 => "battery_0_bar",
            1 => "battery_1_bar",
            2 => "battery_2_bar",
            3 => "battery_3_bar",
            4 => "battery_4_bar",
            5 => "battery_5_bar",
            6 => "battery_6_bar",
            _ => "battery_full",
        },
        BatteryIcon::Charging(i) => match i {
            0 => "battery_charging_20",
            1 => "battery_charging_30",
            2 => "battery_charging_50",
            3 => "battery_charging_60",
            4 => "battery_charging_80",
            5 => "battery_charging_90",
            _ => "battery_charging_full",
        },
    }
}

/// The charge in digits.
pub fn percent_text(capacity: u32) -> (r: String)
    ensures
        r@ == text::decimal_spec(capacity as nat) + "%"@,
{
    let mut r = text::decimal(capacity as u64);
    r.append("%");
    r
}

/// The colour of a battery button's body.
pub fn battery_tint(state: BatteryState) -> (r: Tint)
    ensures
        r == (match state {
            BatteryState::NotCharging => Tint::Grey,
            BatteryState::Charging => Tint::Green,
            BatteryState::Low => Tint::Red,
        }),
{
    match state {
        BatteryState::NotCharging => Tint::Grey,
        BatteryState::Charging => Tint::Green,
        BatteryState::Low => Tint::Red,
    }
}

/// A fuller battery never shows an emptier picture of its series.
pub proof fn pictures_follow_the_charge(limits: Seq<u32>, less: u32, more: u32)
    requires
        less <= more,
    ensures
        steps_below(limits, less) <= steps_below(limits, more),
    decreases limits.len(),
{
    if limits.len() > 0 {
        pictures_follow_the_charge(limits.drop_last(), less, more);
    }
}

} // verus!
