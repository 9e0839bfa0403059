//! The Japanese terrestrial (ISDB-T) UHF channel plan.
//!
//! Physical channels 13 through 52, six megahertz apart, based at the UHF13
//! centre frequency. This is a published allocation, not a device property:
//! every tuner that receives Japanese terrestrial television uses these same
//! numbers.

use vstd::prelude::*;

verus! {

#[derive(Debug, Clone, Copy, PartialEq, Eq)]
pub enum JapaneseTerrestrialChannelError {
    UnsupportedPhysicalChannel(i32),
}

/// The allocation as a formula: UHF13 is at 473.142857 MHz and each channel is
/// one 6 MHz step above the one before.
pub open spec fn centre_frequency_hz(physical_channel: int) -> int {
    473_142_857 + (physical_channel - 13) * 6_000_000
}

/// Whether a channel belongs to the current terrestrial broadcast allocation.
pub open spec fn is_terrestrial(physical_channel: int) -> bool {
    13 <= physical_channel <= 52
}

/// Centre frequency of a Japanese UHF physical channel, in Hz.
///
/// Deliberately not restricted to the broadcast allocation: which channels are
/// usable is a policy that differs by caller. The only limits are the ones the
/// arithmetic needs, channel 13 at the bottom and a `u32` frequency at the top.
/// See [`JapaneseTerrestrialChannel`] for the broadcast allocation.
pub fn uhf_centre_frequency_hz(physical_channel: u32) -> (frequency: u32)
    requires
        13 <= physical_channel,
        centre_frequency_hz(physical_channel as int) <= u32::MAX,
    ensures
        frequency == centre_frequency_hz(physical_channel as int),
{
    473_142_857 + (physical_channel - 13) * 6_000_000
}

/// The same value in kHz, rounded, which is what a tuner PLL takes.
///
/// Every centre frequency ends in 857 Hz, so rounding up and rounding to the
/// nearest kilohertz are the same thing here; the contract states both.
pub fn uhf_centre_frequency_khz(physical_channel: u32) -> (frequency: u32)
    requires
        13 <= physical_channel,
        centre_frequency_hz(physical_channel as int) <= u32::MAX,
    ensures
        (frequency - 1) * 1_000 < centre_frequency_hz(physical_channel as int) <= frequency * 1_000,
        -500 < frequency * 1_000 - centre_frequency_hz(physical_channel as int) < 500,
{
    let hz: u32 = uhf_centre_frequency_hz(physical_channel);
    if hz % 1_000 == 0 {
        hz / 1_000
    } else {
        hz / 1_000 + 1
    }
}

/// A Japanese terrestrial (UHF) physical channel and its centre frequency.
#[derive(Debug, Clone, Copy, PartialEq, Eq, Hash)]
pub struct JapaneseTerrestrialChannel {
    physical_channel: i32,
}

impl View for JapaneseTerrestrialChannel {
    type V = int;

    closed spec fn view(&self) -> int {
        self.physical_channel as int
    }
}

impl JapaneseTerrestrialChannel {
    /// First channel in the current Japanese terrestrial broadcast allocation.
    pub const FIRST_PHYSICAL_CHANNEL: i32 = 13;

    /// Last channel in the current allocation; 53 to 62 were reassigned to mobile.
    pub const LAST_PHYSICAL_CHANNEL: i32 = 52;

    #[verifier::type_invariant]
    spec fn inside_the_allocation(self) -> bool {
        is_terrestrial(self.physical_channel as int)
    }

    pub fn new(physical_channel: i32) -> (channel: Result<Self, JapaneseTerrestrialChannelError>)
        ensures
            match channel {
                Ok(channel) => is_terrestrial(physical_channel as int) && channel@
                    == physical_channel,
                Err(error) => !is_terrestrial(physical_channel as int) && error
                    == JapaneseTerrestrialChannelError::UnsupportedPhysicalChannel(
                    physical_channel,
                ),
            },
    {
        if physical_channel < Self::FIRST_PHYSICAL_CHANNEL || physical_channel
            > Self::LAST_PHYSICAL_CHANNEL {
            return Err(
                JapaneseTerrestrialChannelError::UnsupportedPhysicalChannel(physical_channel),
            );
        }
        Ok(Self { physical_channel })
    }

    pub fn physical_channel(&self) -> (physical_channel: i32)
        ensures
            physical_channel == self@,
            is_terrestrial(self@),
    {
        proof {
            use_type_invariant(self);
        }
        self.physical_channel
    }

    pub fn frequency_hz(&self) -> (frequency: u32)
        ensures
            frequency == centre_frequency_hz(self@),
            is_terrestrial(self@),
    {
        proof {
            use_type_invariant(self);
        }
        uhf_centre_frequency_hz(self.physical_channel as u32)
    }
}

/// Neighbouring channels are six megahertz apart.
pub proof fn law_channels_step_by_six_megahertz(physical_channel: int)
    ensures
        centre_frequency_hz(physical_channel + 1) == centre_frequency_hz(physical_channel)
            + 6_000_000,
{
}

/// Different channels have different centre frequencies, in the same order.
pub proof fn law_frequencies_order_like_channels(lower: int, higher: int)
    requires
        lower < higher,
    ensures
        centre_frequency_hz(lower) < centre_frequency_hz(higher),
{
}

/// Every channel of the broadcast allocation has a frequency that fits a `u32`,
/// between those of UHF13 and UHF52.
pub proof fn law_terrestrial_frequencies_fit(physical_channel: int)
    requires
        is_terrestrial(physical_channel),
    ensures
        473_142_857 <= centre_frequency_hz(physical_channel) <= 707_142_857,
        centre_frequency_hz(physical_channel) <= u32::MAX,
{
}

/// The allocation is one run of forty channels: thirteen to fifty-two and no
/// other, without a hole.
pub proof fn law_allocation_is_one_run(physical_channel: int)
    ensures
        is_terrestrial(13) && !is_terrestrial(12),
        is_terrestrial(52) && !is_terrestrial(53),
        is_terrestrial(physical_channel) && physical_channel != 52 ==> is_terrestrial(
            physical_channel + 1,
        ),
        is_terrestrial(physical_channel) && physical_channel != 13 ==> is_terrestrial(
            physical_channel - 1,
        ),
        physical_channel < 13 || physical_channel > 52 ==> !is_terrestrial(physical_channel),
        13 <= physical_channel <= 52 ==> is_terrestrial(physical_channel),
{
}

/// The frequency of every channel, within the allocation or not, is as many steps
/// of six megahertz from UHF13 as the channel is.
pub proof fn law_frequency_is_counted_from_uhf13(physical_channel: int)
    ensures
        centre_frequency_hz(13) == 473_142_857,
        centre_frequency_hz(physical_channel) - centre_frequency_hz(13) == 6_000_000 * (
        physical_channel - 13),
{
}

} // verus!
