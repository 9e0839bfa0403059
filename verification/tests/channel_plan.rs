use tuner_codec::channel::{
    uhf_centre_frequency_hz, uhf_centre_frequency_khz, JapaneseTerrestrialChannel,
    JapaneseTerrestrialChannelError,
};

#[test]
fn kilohertz_are_rounded_to_the_nearest() {
    assert_eq!(uhf_centre_frequency_khz(13), 473_143);
    assert_eq!(uhf_centre_frequency_khz(23), 533_143);
    assert_eq!(uhf_centre_frequency_khz(52), 707_143);
    for channel in 13..=52u32 {
        let hz = uhf_centre_frequency_hz(channel);
        assert_eq!(uhf_centre_frequency_khz(channel), (hz + 500) / 1_000);
    }
}

#[test]
fn the_formula_goes_beyond_the_allocation() {
    assert_eq!(uhf_centre_frequency_hz(53), 713_142_857);
    assert_eq!(uhf_centre_frequency_hz(62), 767_142_857);
    assert_eq!(uhf_centre_frequency_hz(649), 4_289_142_857);
}

#[test]
fn neighbouring_channels_are_six_megahertz_apart_and_ordered() {
    for channel in 13..52i32 {
        let lower = JapaneseTerrestrialChannel::new(channel).unwrap();
        let higher = JapaneseTerrestrialChannel::new(channel + 1).unwrap();
        assert_eq!(higher.frequency_hz() - lower.frequency_hz(), 6_000_000);
        assert!(lower.frequency_hz() < higher.frequency_hz());
        assert_ne!(lower, higher);
    }
}

#[test]
fn both_ends_of_the_allocation_are_accepted() {
    for channel in [
        JapaneseTerrestrialChannel::FIRST_PHYSICAL_CHANNEL,
        JapaneseTerrestrialChannel::LAST_PHYSICAL_CHANNEL,
    ] {
        let accepted = JapaneseTerrestrialChannel::new(channel).unwrap();
        assert_eq!(accepted.physical_channel(), channel);
    }
    for channel in [i32::MIN, i32::MAX] {
        assert_eq!(
            JapaneseTerrestrialChannel::new(channel),
            Err(JapaneseTerrestrialChannelError::UnsupportedPhysicalChannel(channel))
        );
    }
}
