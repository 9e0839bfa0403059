use tuner_codec::channel::{JapaneseTerrestrialChannel, JapaneseTerrestrialChannelError};

#[test]
fn uhf13_is_the_arib_base_frequency() {
    assert_eq!(
        JapaneseTerrestrialChannel::new(13).unwrap().frequency_hz(),
        473_142_857
    );
}

#[test]
fn each_channel_steps_by_six_megahertz() {
    // ch23 is the channel every hardware verification uses.
    let ch23 = JapaneseTerrestrialChannel::new(23).unwrap();
    assert_eq!(ch23.frequency_hz(), 473_142_857 + 10 * 6_000_000);
    assert_eq!(ch23.physical_channel(), 23);

    let ch52 = JapaneseTerrestrialChannel::new(52).unwrap();
    assert_eq!(ch52.frequency_hz(), 473_142_857 + 39 * 6_000_000);
}

#[test]
fn channels_outside_the_terrestrial_band_are_rejected() {
    for channel in [12, 53, 0, -1] {
        assert_eq!(
            JapaneseTerrestrialChannel::new(channel),
            Err(JapaneseTerrestrialChannelError::UnsupportedPhysicalChannel(
                channel
            ))
        );
    }
}

#[test]
fn the_frequency_of_the_last_channel_does_not_overflow() {
    // 473142857 + 39*6000000 = 707142857, well inside u32.
    assert_eq!(
        JapaneseTerrestrialChannel::new(52).unwrap().frequency_hz(),
        707_142_857
    );
}
