use grayline_apps::recording::check_recording;

const MINIMUM_RATE: u32 = 8_000;

#[test]
fn a_rate_the_decoder_cannot_use_is_refused() {
    assert_eq!(
        check_recording(1, 4_000, true, 16, MINIMUM_RATE),
        Err("4000 Hz is below the 8000 Hz the decoder needs".to_owned())
    );
}

#[test]
fn a_recording_with_no_channels_is_refused() {
    assert_eq!(
        check_recording(0, 4_000, true, 0, MINIMUM_RATE),
        Err("the file has no channels".to_owned())
    );
}

#[test]
fn an_integer_depth_past_thirty_two_bits_is_refused() {
    assert_eq!(
        check_recording(2, 11_025, true, 40, MINIMUM_RATE),
        Err("unsupported PCM depth: 40 bits".to_owned())
    );
    assert_eq!(
        check_recording(2, 11_025, true, 0, MINIMUM_RATE),
        Err("unsupported PCM depth: 0 bits".to_owned())
    );
}

#[test]
fn a_usable_recording_is_taken() {
    assert_eq!(check_recording(1, 11_025, true, 16, MINIMUM_RATE), Ok(()));
    assert_eq!(check_recording(2, 8_000, false, 64, MINIMUM_RATE), Ok(()));
}
