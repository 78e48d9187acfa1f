//! What is shown of numbers and states: the battery, waits, levels, and the
//! picture of a crash.
use crate::battery::{
    charging_limits, icon_name_spec, icon_spec, plain_limits, state_spec, steps_below,
    BatteryIconMode, BatteryState,
};
use crate::crash::{bit, shade};
use crate::moment::{elapsed, remainder, wait_millis, Moment};
use crate::scalar::{nearest_even, Scalar};
use crate::text::{trim_end, trim_start, trimmed, white_space};
use vstd::prelude::*;

verus! {

/// Trimming takes away white space at both ends, all of it, and nothing
/// else.
pub proof fn only_white_space_is_trimmed(s: Seq<char>) -> (from: int)
    ensures
        ({
            let t = trimmed(s);
            &&& 0 <= from <= from + t.len() <= s.len()
            &&& t == s.subrange(from, from + t.len())
            &&& forall|i: int|
                0 <= i < s.len() && (i < from || i >= from + t.len()) ==> white_space(
                    #[trigger] s[i],
                )
            &&& (t.len() > 0 ==> !white_space(t[0]) && !white_space(t.last()))
        }),
{
    let n = lemma_front(s);
    let head = trim_start(s);
    lemma_back(head);
    let t = trimmed(s);
    assert(t =~= s.subrange(n, n + t.len()));
    assert forall|i: int| 0 <= i < s.len() && (i < n || i >= n + t.len()) implies white_space(
        #[trigger] s[i],
    ) by {
        if i >= n {
            assert(head[i - n] == s[i]);
        }
    }
    n
}

proof fn lemma_front(s: Seq<char>) -> (n: int)
    ensures
        0 <= n <= s.len(),
        trim_start(s) == s.skip(n),
        forall|i: int| 0 <= i < n ==> white_space(#[trigger] s[i]),
        n < s.len() ==> !white_space(s[n]),
    decreases s.len(),
{
    if s.len() > 0 && white_space(s[0]) {
        let rest = s.drop_first();
        let m = lemma_front(rest);
        assert(rest.skip(m) =~= s.skip(m + 1));
        assert forall|i: int| 0 <= i < m + 1 implies white_space(#[trigger] s[i]) by {
            if i > 0 {
                assert(rest[i - 1] == s[i]);
            }
        }
        m + 1
    } else {
        assert(s.skip(0) =~= s);
        0
    }
}

proof fn lemma_back(s: Seq<char>)
    ensures
        trim_end(s).len() <= s.len(),
        trim_end(s) == s.take(trim_end(s).len() as int),
        forall|i: int| trim_end(s).len() <= i < s.len() ==> white_space(#[trigger] s[i]),
        trim_end(s).len() > 0 ==> !white_space(trim_end(s).last()),
    decreases s.len(),
{
    if s.len() > 0 && white_space(s.last()) {
        let rest = s.drop_last();
        lemma_back(rest);
        assert(trim_end(s) =~= s.take(trim_end(s).len() as int));
        assert forall|i: int| trim_end(s).len() <= i < s.len() implies white_space(
            #[trigger] s[i],
        ) by {
            if i < rest.len() {
                assert(rest[i] == s[i]);
            }
        }
    } else {
        assert(s.take(s.len() as int) =~= s);
    }
}

/// A battery is charging where the kernel says that it is, or that it is
/// full. It is low only while it discharges, and that below ten percent.
pub proof fn batteries_are_what_the_kernel_says(status: Seq<char>, capacity: u32)
    ensures
        state_spec(status, capacity) == BatteryState::Charging <==> trimmed(status) == "Charging"@
            || trimmed(status) == "Full"@,
        state_spec(status, capacity) == BatteryState::Low <==> trimmed(status) == "Discharging"@
            && capacity < 10,
{
    reveal_strlit("Charging");
    reveal_strlit("Full");
    reveal_strlit("Discharging");
    assert("Charging"@.len() != "Discharging"@.len());
    assert("Full"@.len() != "Discharging"@.len());
}

/// Digits alone need no picture, but a bolt while the battery charges; in
/// every other mode there is a picture of the charge, from its series.
pub proof fn batteries_show_their_charge(
    mode: BatteryIconMode,
    state: BatteryState,
    capacity: u32,
)
    ensures
        ({
            let icon = icon_spec(mode, state, capacity);
            let charging = state == BatteryState::Charging;
            &&& (mode == BatteryIconMode::Percentage && !charging ==> icon is None)
            &&& (mode == BatteryIconMode::Percentage && charging ==> icon is Some && icon_name_spec(
                icon->0,
            ) == "bolt"@)
            &&& (mode != BatteryIconMode::Percentage ==> icon is Some)
            &&& (mode != BatteryIconMode::Percentage && !charging ==> {
                let name = icon_name_spec(icon->0);
                &&& (capacity == 0 ==> name == "battery_0_bar"@)
                &&& (0 < capacity <= 20 ==> name == "battery_1_bar"@)
                &&& (20 < capacity <= 30 ==> name == "battery_2_bar"@)
                &&& (30 < capacity <= 50 ==> name == "battery_3_bar"@)
                &&& (50 < capacity <= 60 ==> name == "battery_4_bar"@)
                &&& (60 < capacity <= 80 ==> name == "battery_5_bar"@)
                &&& (80 < capacity < 100 ==> name == "battery_6_bar"@)
                &&& (100 <= capacity ==> name == "battery_full"@)
            })
            &&& (mode != BatteryIconMode::Percentage && charging ==> {
                let name = icon_name_spec(icon->0);
                &&& (capacity <= 20 ==> name == "battery_charging_20"@)
                &&& (20 < capacity <= 30 ==> name == "battery_charging_30"@)
                &&& (30 < capacity <= 50 ==> name == "battery_charging_50"@)
                &&& (50 < capacity <= 60 ==> name == "battery_charging_60"@)
                &&& (60 < capacity <= 80 ==> name == "battery_charging_80"@)
                &&& (80 < capacity < 100 ==> name == "battery_charging_90"@)
                &&& (100 <= capacity ==> name == "battery_charging_full"@)
            })
        }),
{
    reveal_with_fuel(steps_below, 8);
    let c = charging_limits();
    assert(c.drop_last() =~= seq![20u32, 30, 50, 60, 80]);
    assert(c.drop_last().drop_last() =~= seq![20u32, 30, 50, 60]);
    assert(c.drop_last().drop_last().drop_last() =~= seq![20u32, 30, 50]);
    assert(c.drop_last().drop_last().drop_last().drop_last() =~= seq![20u32, 30]);
    assert(c.drop_last().drop_last().drop_last().drop_last().drop_last() =~= seq![20u32]);
    let p = plain_limits();
    assert(p.drop_last() =~= seq![0u32, 20, 30, 50, 60, 80]);
    assert(p.drop_last().drop_last() =~= seq![0u32, 20, 30, 50, 60]);
    assert(p.drop_last().drop_last().drop_last() =~= seq![0u32, 20, 30, 50]);
    assert(p.drop_last().drop_last().drop_last().drop_last() =~= seq![0u32, 20, 30]);
    assert(p.drop_last().drop_last().drop_last().drop_last().drop_last() =~= seq![0u32, 20]);
}

/// The three modes have names of their own.
pub proof fn modes_have_names(name: Seq<char>)
    ensures
        BatteryIconMode::named(name) == Some(BatteryIconMode::Icon) <==> name == "icon"@,
        BatteryIconMode::named(name) == Some(BatteryIconMode::Percentage) <==> name
            == "percentage"@,
        BatteryIconMode::named(name) == Some(BatteryIconMode::Both) <==> name == "both"@,
{
    reveal_strlit("icon");
    reveal_strlit("percentage");
    reveal_strlit("both");
    assert("icon"@[0] == 'i');
    assert("both"@[0] == 'b');
    assert("percentage"@[0] == 'p');
}

/// A pixel of the crash picture is white exactly where its bit is clear, the
/// lowest bit of a byte first.
pub proof fn clear_bits_are_white(byte: u8, i: int)
    requires
        0 <= i < 8,
    ensures
        shade(byte, i) == 0xff || shade(byte, i) == 0,
        shade(byte, i) == 0xff <==> (byte as int / vstd::arithmetic::power2::pow2(i as nat) as int)
            % 2 == 0,
{
    lemma_bit(byte as int, i);
}

proof fn lemma_bit(byte: int, i: int)
    requires
        0 <= byte,
        0 <= i,
    ensures
        bit(byte, i) == (byte / vstd::arithmetic::power2::pow2(i as nat) as int) % 2,
    decreases i,
{
    if i == 0 {
        vstd::arithmetic::power2::lemma2_to64();
        assert(byte / 1 == byte);
    } else {
        let p = vstd::arithmetic::power2::pow2((i - 1) as nat) as int;
        lemma_bit(byte / 2, i - 1);
        vstd::arithmetic::power2::lemma_pow2_unfold(i as nat);
        vstd::arithmetic::power2::lemma_pow2_pos((i - 1) as nat);
        vstd::arithmetic::div_mod::lemma_div_denominator(byte, 2, p);
        assert(vstd::arithmetic::power2::pow2(i as nat) == 2 * p);
        assert(byte / 2 / p == byte / (2 * p));
    }
}

/// A wait is never longer than what is left of an interval, unless that is
/// less than a millisecond, and it is shorter by less than a millisecond;
/// and it is never nothing.
pub proof fn waits_end_with_their_interval(limit: nat, now: Moment, start: Moment)
    ensures
        ({
            let ms = wait_millis(remainder(limit, elapsed(now, start)));
            let end = start.nanos + limit;
            &&& ms >= 1
            &&& (start.nanos <= now.nanos && now.nanos + 1_000_000 <= end ==> now.nanos + ms
                * 1_000_000 <= end && end < now.nanos + (ms + 1) * 1_000_000)
            &&& (start.nanos <= now.nanos && end < now.nanos + 1_000_000 ==> ms == 1)
        }),
{
}

/// Rounding gives a nearest integer, and of two that are equally near the
/// even one.
pub proof fn rounding_gives_the_nearest(n: nat, d: nat)
    requires
        d > 0,
    ensures
        ({
            let q = nearest_even(n, d);
            &&& 2 * (q * d - n) <= d
            &&& 2 * (n - q * d) <= d
            &&& (2 * (q * d - n) == d || 2 * (n - q * d) == d ==> q % 2 == 0)
        }),
{
    let q = (n / d) as int;
    let r = (n % d) as int;
    vstd::arithmetic::div_mod::lemma_fundamental_div_mod(n as int, d as int);
    assert(d * q == q * d) by (nonlinear_arith);
    assert((q + 1) * d == q * d + d) by (nonlinear_arith);
    assert(0 <= r < d) by {
        vstd::arithmetic::div_mod::lemma_mod_bound(n as int, d as int);
    }
}

/// A level in ten-thousandths is at most half of one away from the level.
pub proof fn levels_are_rounded_to_the_nearest(level: Scalar)
    ensures
        ({
            let t = level.ten_thousandths_spec();
            let d = vstd::arithmetic::power2::pow2((1075 - level.exponent()) as nat);
            &&& 2 * (t * d - 10000 * level.significand()) <= d
            &&& 2 * (10000 * level.significand() - t * d) <= d
        }),
{
    let d = vstd::arithmetic::power2::pow2((1075 - level.exponent()) as nat);
    vstd::arithmetic::power2::lemma_pow2_pos((1075 - level.exponent()) as nat);
    rounding_gives_the_nearest((10000 * level.significand()) as nat, d);
}

/// Turning a number round mirrors it, and its distance from nothing is the
/// same on both sides.
pub proof fn numbers_are_mirrored(s: Scalar)
    ensures
        s.negated().rank() == -s.rank(),
        s.negated().negated() == s,
        s.negated().nan() == s.nan(),
        s.absolute().rank() == if s.rank() < 0 {
            -s.rank()
        } else {
            s.rank()
        },
        s.absolute().nan() == s.nan(),
{
}

/// A number that is held to a range is the nearest one of the range.
pub proof fn ranges_hold_numbers(s: Scalar, low: Scalar, high: Scalar)
    requires
        !s.nan(),
        !low.nan(),
        !high.nan(),
        low.rank() <= high.rank(),
    ensures
        low.rank() <= s.clamped(low, high).rank() <= high.rank(),
        low.rank() <= s.rank() <= high.rank() ==> s.clamped(low, high) == s,
        s.rank() < low.rank() ==> s.clamped(low, high) == low,
        s.rank() > high.rank() ==> s.clamped(low, high) == high,
{
}

} // verus!
