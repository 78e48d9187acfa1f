//! Absolute-value brightness devices behind the sliders. A device that is
//! missing or cannot be written makes its slider inert; nothing here fails
//! while a finger is dragging.
use crate::config::SliderTarget;
use crate::link_laws::numbers_are_read_as_written;
use crate::scalar::Scalar;
use crate::text;
use vstd::prelude::*;
use vstd::string::StringExecFns;

verus! {

/// Why a device cannot be used.
#[derive(Clone, Copy, Debug, PartialEq, Eq, Structural)]
pub enum SliderError {
    /// Its greatest brightness could not be read.
    Unreadable,
    /// Its greatest brightness is no number.
    NotANumber,
    /// Its greatest brightness is 0.
    ZeroMax,
}

/// What is known of a device: its greatest brightness, the least fraction
/// of it that is ever written, and whether a failed write was reported.
#[derive(Debug)]
pub struct SysfsSlider {
    max: u32,
    min_fraction: Scalar,
    write_error_logged: bool,
}

pub struct SliderModel {
    pub max: u32,
    pub min_fraction: Scalar,
    pub logged: bool,
}

impl View for SysfsSlider {
    type V = SliderModel;

    closed spec fn view(&self) -> SliderModel {
        SliderModel {
            max: self.max,
            min_fraction: self.min_fraction,
            logged: self.write_error_logged,
        }
    }
}

/// The number that a device reports, with white space around it.
pub open spec fn reported(text: Seq<char>) -> Option<u32> {
    text::u32_value(text::trimmed(text))
}

/// A fraction as it may bound a range: a number from 0 to 1.
pub open spec fn sound_fraction(fraction: Scalar) -> Scalar {
    if fraction.finite() {
        fraction.clamped(Scalar::zero(), Scalar::one())
    } else {
        Scalar::zero()
    }
}

fn parse_report(report: &str) -> (r: Option<u32>)
    ensures
        r == reported(report@),
{
    let chars = text::chars_of(report);
    let (from, to) = text::trim_range(&chars);
    text::parse_u32(&chars, from, to)
}

impl SliderModel {
    /// There is a brightness to set, and the least fraction is one.
    pub open spec fn wf(self) -> bool {
        &&& self.max > 0
        &&& self.min_fraction.finite()
        &&& !self.min_fraction.below(Scalar::zero())
        &&& !Scalar::one().below(self.min_fraction)
    }

    /// The least number that is ever written: a device that may not be
    /// turned off gets at least 1.
    pub open spec fn least(self) -> u32 {
        if Scalar::zero().below(self.min_fraction) {
            1
        } else {
            0
        }
    }

    /// A number brought between the least and the greatest brightness.
    pub open spec fn in_range(self, rounded: u32) -> u32 {
        if rounded < self.least() {
            self.least()
        } else if rounded > self.max {
            self.max
        } else {
            rounded
        }
    }

    /// The fraction of the greatest brightness that a slider position sets.
    /// Positions that are no numbers set nothing.
    pub open spec fn fraction_of(self, value: Scalar) -> Option<Scalar> {
        if value.finite() {
            Some(value.clamped(self.min_fraction, Scalar::one()))
        } else {
            None
        }
    }

    /// The number that a slider position writes, where `rounded` is the
    /// whole number next to its fraction of the greatest brightness.
    pub open spec fn number_of(self, value: Scalar, rounded: u32) -> Option<u32> {
        match self.fraction_of(value) {
            Some(fraction) => Some(
                if fraction.below(Scalar::one()) {
                    self.in_range(rounded)
                } else {
                    self.max
                },
            ),
            None => None,
        }
    }
}

impl SysfsSlider {
    /// A device whose greatest brightness reads `max_report`; never below
    /// `min_fraction` of it.
    pub fn open(max_report: Option<String>, min_fraction: Scalar) -> (r: Result<
        SysfsSlider,
        SliderError,
    >)
        ensures
            match max_report {
                None => r == Err::<SysfsSlider, SliderError>(SliderError::Unreadable),
                Some(text) => match reported(text@) {
                    None => r == Err::<SysfsSlider, SliderError>(SliderError::NotANumber),
                    Some(max) => if max == 0 {
                        r == Err::<SysfsSlider, SliderError>(SliderError::ZeroMax)
                    } else {
                        r matches Ok(s) && s@ == (SliderModel {
                            max,
                            min_fraction: sound_fraction(min_fraction),
                            logged: false,
                        }) && s@.wf()
                    },
                },
            },
    {
        let max: u32 = match max_report {
            Some(text) => match parse_report(text.as_str()) {
                Some(max) => max,
                None => {
                    return Err(SliderError::NotANumber);
                },
            },
            None => {
                return Err(SliderError::Unreadable);
            },
        };
        if max == 0 {
            return Err(SliderError::ZeroMax);
        }
        let min_fraction = if min_fraction.is_finite() {
            min_fraction.clamp(Scalar::zero(), Scalar::one())
        } else {
            Scalar::zero()
        };
        Ok(SysfsSlider { max, min_fraction, write_error_logged: false })
    }

    /// The greatest brightness.
    pub fn max(&self) -> (r: u32)
        ensures
            r == self@.max,
    {
        self.max
    }

    /// The brightness that a device reports, at most the greatest; none
    /// where it does not answer with a number.
    pub fn read_value(&self, report: Option<String>) -> (r: Option<u32>)
        ensures
            r == (match report {
                Some(text) => match reported(text@) {
                    Some(raw) => Some(
                        if raw <= self@.max {
                            raw
                        } else {
                            self@.max
                        },
                    ),
                    None => None,
                },
                None => None,
            }),
    {
        match report {
            Some(text) => match parse_report(text.as_str()) {
                Some(raw) => if raw <= self.max {
                    Some(raw)
                } else {
                    Some(self.max)
                },
                None => None,
            },
            None => None,
        }
    }

    /// The fraction that a slider position sets: no less than the least one
    /// and no more than all. Positions that are no numbers set nothing.
    pub fn fraction(&self, value: Scalar) -> (r: Option<Scalar>)
        requires
            self@.wf(),
        ensures
            r == self@.fraction_of(value),
            r matches Some(fraction) ==> !fraction.below(self@.min_fraction)
                && !Scalar::one().below(fraction),
    {
        if !value.is_finite() {
            return None;
        }
        Some(value.clamp(self.min_fraction, Scalar::one()))
    }

    /// A number as it may be written to the device: at most its greatest
    /// brightness, and at least 1 where it may not be turned off.
    pub fn raw_to_write(&self, rounded: u32) -> (r: u32)
        requires
            self@.wf(),
        ensures
            r == self@.in_range(rounded),
            r <= self@.max,
            Scalar::zero().below(self@.min_fraction) ==> r >= 1,
    {
        let least: u32 = if Scalar::zero().lt(self.min_fraction) {
            1
        } else {
            0
        };
        if rounded < least {
            least
        } else if rounded > self.max {
            self.max
        } else {
            rounded
        }
    }

    /// The number to write for a slider position, where `rounded` is the
    /// whole number next to its fraction of the greatest brightness: all of
    /// it at the far right, and never 0 for a device that may not be turned
    /// off. Positions that are no numbers write nothing.
    pub fn write_value(&self, value: Scalar, rounded: u32) -> (r: Option<u32>)
        requires
            self@.wf(),
        ensures
            r == self@.number_of(value, rounded),
            r is Some == value.finite(),
            r matches Some(n) ==> self@.least() <= n <= self@.max,
    {
        match self.fraction(value) {
            Some(fraction) => if fraction.lt(Scalar::one()) {
                Some(self.raw_to_write(rounded))
            } else {
                Some(self.max)
            },
            None => None,
        }
    }

    /// A write succeeded or failed; says whether to report it. A failure is
    /// reported once, until a write succeeds again.
    pub fn written(&mut self, ok: bool) -> (report: bool)
        ensures
            report == (!ok && !old(self)@.logged),
            final(self)@ == (SliderModel { logged: !ok, ..old(self)@ }),
    {
        if ok {
            self.write_error_logged = false;
            return false;
        }
        let report = !self.write_error_logged;
        self.write_error_logged = true;
        report
    }
}

/// One hundredth: the panel is never dimmed further, so that a drag to the
/// far left leaves something to see.
pub const DISPLAY_FLOOR_BITS: u64 = 0x3f84_7ae1_47ae_147b;

/// The least fraction that is written to the panel.
pub open spec fn display_floor() -> Scalar {
    Scalar { bits: DISPLAY_FLOOR_BITS }
}

/// The devices behind the brightness sliders, as far as they can be used.
#[derive(Debug)]
pub struct SliderBackends {
    pub display: Option<SysfsSlider>,
    pub keyboard: Option<SysfsSlider>,
}

/// A device that reports `max_report`, if it can be used.
pub open spec fn usable(max_report: Option<Seq<char>>, floor: Scalar) -> Option<SliderModel> {
    match max_report {
        Some(text) => match reported(text) {
            Some(max) if max > 0 => Some(
                SliderModel { max, min_fraction: floor, logged: false },
            ),
            _ => None,
        },
        None => None,
    }
}

pub open spec fn slider_model(slider: Option<SysfsSlider>) -> Option<SliderModel> {
    match slider {
        Some(s) => Some(s@),
        None => None,
    }
}

/// What a slider position asks of the world.
#[derive(Clone, Copy, Debug, PartialEq, Eq, Structural)]
pub enum Drive {
    /// Write this fraction of the greatest brightness to the panel.
    Display(Scalar),
    /// Write this fraction of the greatest brightness to the keyboard.
    Keyboard(Scalar),
    /// Ask the companion for this volume.
    Volume(Scalar),
    /// Leave everything as it is.
    Nothing,
}

impl SliderBackends {
    /// Both devices are usable where they are there, and the panel cannot be
    /// turned off.
    pub open spec fn wf(self) -> bool {
        &&& self.display matches Some(s) ==> s@.wf() && s@.min_fraction == display_floor()
        &&& self.keyboard matches Some(s) ==> s@.wf()
    }

    /// The devices that report these greatest brightnesses. The keyboard may
    /// be turned off, the panel may not.
    pub fn new(display_max: Option<String>, keyboard_max: Option<String>) -> (r: SliderBackends)
        ensures
            slider_model(r.display) == usable(text::text_model(display_max), display_floor()),
            slider_model(r.keyboard) == usable(text::text_model(keyboard_max), Scalar::zero()),
            r.wf(),
    {
        let floor = Scalar::from_bits(DISPLAY_FLOOR_BITS);
        let display = match SysfsSlider::open(display_max, floor) {
            Ok(slider) => Some(slider),
            Err(_) => None,
        };
        let keyboard = match SysfsSlider::open(keyboard_max, Scalar::zero()) {
            Ok(slider) => Some(slider),
            Err(_) => None,
        };
        SliderBackends { display, keyboard }
    }

    /// What a position of the given slider asks for: nothing where its
    /// device is missing, or the position is no number.
    pub open spec fn drive_spec(self, target: SliderTarget, value: Scalar) -> Drive {
        match target {
            SliderTarget::DisplayBrightness => match self.display {
                Some(s) if value.finite() => Drive::Display(
                    value.clamped(s@.min_fraction, Scalar::one()),
                ),
                _ => Drive::Nothing,
            },
            SliderTarget::KeyboardBrightness => match self.keyboard {
                Some(s) if value.finite() => Drive::Keyboard(
                    value.clamped(s@.min_fraction, Scalar::one()),
                ),
                _ => Drive::Nothing,
            },
            SliderTarget::Volume => Drive::Volume(value),
        }
    }

    /// What a position of the given slider asks for.
    pub fn drive(&self, target: SliderTarget, value: Scalar) -> (r: Drive)
        requires
            self.wf(),
        ensures
            r == self.drive_spec(target, value),
    {
        match target {
            SliderTarget::DisplayBrightness => match &self.display {
                Some(s) => match s.fraction(value) {
                    Some(fraction) => Drive::Display(fraction),
                    None => Drive::Nothing,
                },
                None => Drive::Nothing,
            },
            SliderTarget::KeyboardBrightness => match &self.keyboard {
                Some(s) => match s.fraction(value) {
                    Some(fraction) => Drive::Keyboard(fraction),
                    None => Drive::Nothing,
                },
                None => Drive::Nothing,
            },
            SliderTarget::Volume => Drive::Volume(value),
        }
    }
}

/// No position of its slider turns the panel off, however dim it is at its
/// brightest: what is written is at least 1 and at most the greatest
/// brightness, which is what the far right writes. A position that is no
/// number writes nothing.
pub proof fn the_panel_never_goes_dark(b: SliderBackends, value: Scalar, rounded: u32)
    requires
        b.wf(),
        b.display is Some,
    ensures
        match b.display->0@.number_of(value, rounded) {
            Some(n) => value.finite() && 1 <= n <= b.display->0@.max && (!value.below(
                Scalar::one(),
            ) ==> n == b.display->0@.max),
            None => !value.finite(),
        },
{
}

/// Writing the fraction that a position asks for is writing the position.
pub proof fn fractions_write_what_positions_write(s: SliderModel, value: Scalar, rounded: u32)
    requires
        s.wf(),
        value.finite(),
    ensures
        s.fraction_of(value) is Some,
        s.number_of(s.fraction_of(value)->0, rounded) == s.number_of(value, rounded),
{
}

/// The fraction that a position asks of a device, where it asks for one.
pub open spec fn asked_of(d: Drive) -> Option<Scalar> {
    match d {
        Drive::Display(fraction) => Some(fraction),
        Drive::Keyboard(fraction) => Some(fraction),
        _ => None,
    }
}

/// A device's least fraction is the one that was asked for, wherever that is
/// a fraction; what is out of range counts as the nearer end, and what is no
/// number as nothing.
pub proof fn least_fractions_are_as_asked(fraction: Scalar)
    ensures
        fraction.finite() && !fraction.below(Scalar { bits: 0 }) && !(Scalar {
            bits: 0x3ff0_0000_0000_0000,
        }).below(fraction) ==> sound_fraction(fraction) == fraction,
        fraction.finite() && fraction.below(Scalar { bits: 0 }) ==> sound_fraction(fraction).bits
            == 0,
        fraction.finite() && (Scalar { bits: 0x3ff0_0000_0000_0000 }).below(fraction)
            ==> sound_fraction(fraction).bits == 0x3ff0_0000_0000_0000,
        !fraction.finite() ==> sound_fraction(fraction).bits == 0,
{
}

/// A slider drives its own device and no other, and asks for exactly the
/// position that it stands at, as far as the device may go: below the least
/// fraction for that, beyond the end for all of it. The volume is asked for
/// as it is.
pub proof fn positions_are_asked_for_as_they_are(
    b: SliderBackends,
    target: SliderTarget,
    value: Scalar,
)
    requires
        b.wf(),
    ensures
        b.drive_spec(SliderTarget::Volume, value) == Drive::Volume(value),
        ({
            let device = match target {
                SliderTarget::DisplayBrightness => slider_model(b.display),
                SliderTarget::KeyboardBrightness => slider_model(b.keyboard),
                SliderTarget::Volume => None,
            };
            let d = b.drive_spec(target, value);
            &&& (target is DisplayBrightness ==> d is Display || d is Nothing)
            &&& (target is KeyboardBrightness ==> d is Keyboard || d is Nothing)
            &&& (!(target is Volume) && (device is None || !value.finite()) ==> d is Nothing)
            &&& (device matches Some(s) && value.finite() ==> {
                &&& asked_of(d) is Some
                &&& (!value.below(device->0.min_fraction) && !(Scalar {
                    bits: 0x3ff0_0000_0000_0000,
                }).below(value) ==> asked_of(d) == Some(value))
                &&& (value.below(device->0.min_fraction) ==> asked_of(d) == Some(
                    device->0.min_fraction,
                ))
                &&& ((Scalar { bits: 0x3ff0_0000_0000_0000 }).below(value) ==> asked_of(d) == Some(
                    Scalar { bits: 0x3ff0_0000_0000_0000 },
                ))
            })
        }),
{
}

/// A number that a device can take is written as it is; beyond its greatest
/// brightness that is written, and 0 only where the device may be turned
/// off.
pub proof fn numbers_in_range_are_written(s: SliderModel, value: Scalar, rounded: u32)
    requires
        s.wf(),
        value.finite(),
    ensures
        1 <= rounded <= s.max && !s.min_fraction.same(Scalar { bits: 0x3ff0_0000_0000_0000 })
            && value.below(Scalar { bits: 0x3ff0_0000_0000_0000 }) ==> s.number_of(value, rounded)
            == Some(rounded),
        s.number_of(value, rounded) matches Some(n) && n <= s.max,
        s.min_fraction.same(Scalar { bits: 0 }) && value.below(
            Scalar { bits: 0x3ff0_0000_0000_0000 },
        ) ==> s.number_of(value, 0) == Some(0u32),
        !value.below(Scalar { bits: 0x3ff0_0000_0000_0000 }) ==> s.number_of(value, rounded)
            == Some(s.max),
{
}

/// A device is usable exactly where it reports a greatest brightness above
/// 0, which is then its greatest brightness; the floor is one hundredth for
/// the panel and nothing for the keyboard.
pub proof fn devices_are_what_they_report(max: u32, floor: Scalar)
    ensures
        max > 0 ==> (usable(Some(text::decimal_spec(max as nat) + "\n"@), floor) matches Some(s)
            && s.max == max && s.min_fraction == floor && !s.logged),
        max == 0 ==> usable(Some(text::decimal_spec(max as nat) + "\n"@), floor) is None,
        usable(None, floor) is None,
        reported(text::decimal_spec(max as nat) + "\n"@) == Some(max),
        display_floor().bits == 0x3f84_7ae1_47ae_147b,
{
    numbers_are_read_as_written(max);
}

/// The value of a slider under a finger at `x`, which is `along` the track
/// as a fraction of its length: 0 before its beginning, 1 behind its end,
/// and 0 where `x` is no number.
pub fn slider_value_from_x(x: Scalar, along: Scalar) -> (r: Scalar)
    ensures
        r == (if x.finite() {
            along.clamped(Scalar::zero(), Scalar::one())
        } else {
            Scalar::zero()
        }),
        !along.nan() ==> !r.below(Scalar::zero()) && !Scalar::one().below(r),
        x.finite() && !along.below(Scalar { bits: 0 }) && !(Scalar {
            bits: 0x3ff0_0000_0000_0000,
        }).below(along) ==> r == along,
        x.finite() && (Scalar { bits: 0x3ff0_0000_0000_0000 }).below(along) ==> r.bits
            == 0x3ff0_0000_0000_0000,
{
    if x.is_finite() {
        along.clamp(Scalar::zero(), Scalar::one())
    } else {
        Scalar::zero()
    }
}

/// A brightness as it is written to a device.
pub fn brightness_text(raw: u32) -> (r: String)
    ensures
        r@ == text::decimal_spec(raw as nat) + "\n"@,
{
    let mut r = text::decimal(raw as u64);
    r.append("\n");
    r
}

} // verus!
