use ultrafxr::cmd_sfx::{
    buffer_size, sample_rate, select_input, wave_target, BufferSize, BufferWarning, InputError,
    InputKind, RateError, WaveTarget,
};

#[test]
fn sample_rate_range() {
    assert_eq!(sample_rate(None), Ok(48000));
    assert_eq!(sample_rate(Some(8000)), Ok(8000));
    assert_eq!(sample_rate(Some(44100)), Ok(44100));
    assert_eq!(sample_rate(Some(192000)), Ok(192000));
    assert_eq!(sample_rate(Some(7999)), Err(RateError::TooLow));
    assert_eq!(sample_rate(Some(0)), Err(RateError::TooLow));
    assert_eq!(sample_rate(Some(192001)), Err(RateError::TooHigh));
}

fn size(size: usize, warning: Option<BufferWarning>) -> BufferSize {
    BufferSize { size, warning }
}

#[test]
fn buffer_size_range() {
    assert_eq!(buffer_size(None), size(1024, None));
    assert_eq!(buffer_size(Some(32)), size(32, None));
    assert_eq!(buffer_size(Some(8192)), size(8192, None));
    assert_eq!(buffer_size(Some(512)), size(512, None));
    assert_eq!(buffer_size(Some(31)), size(32, Some(BufferWarning::TooLow)));
    assert_eq!(buffer_size(Some(0)), size(32, Some(BufferWarning::TooLow)));
    assert_eq!(
        buffer_size(Some(8193)),
        size(8192, Some(BufferWarning::TooHigh))
    );
    assert_eq!(
        buffer_size(Some(usize::MAX)),
        size(8192, Some(BufferWarning::TooHigh))
    );
}

#[test]
fn buffer_size_rounds_up() {
    assert_eq!(
        buffer_size(Some(33)),
        size(64, Some(BufferWarning::NotPowerOfTwo))
    );
    assert_eq!(
        buffer_size(Some(1000)),
        size(1024, Some(BufferWarning::NotPowerOfTwo))
    );
    assert_eq!(
        buffer_size(Some(4097)),
        size(8192, Some(BufferWarning::NotPowerOfTwo))
    );
    for requested in 32..=8192usize {
        assert_eq!(
            buffer_size(Some(requested)).size,
            requested.next_power_of_two()
        );
    }
}

#[test]
fn one_input() {
    assert_eq!(select_input(true, false), Ok(InputKind::File));
    assert_eq!(select_input(false, true), Ok(InputKind::Script));
    assert_eq!(select_input(true, true), Err(InputError::Both));
    assert_eq!(select_input(false, false), Err(InputError::Neither));
}

#[test]
fn wave_file_target() {
    assert_eq!(
        wave_target(true, false, InputKind::File, true),
        Some(WaveTarget::Named)
    );
    assert_eq!(
        wave_target(false, false, InputKind::File, false),
        Some(WaveTarget::Nowhere)
    );
    assert_eq!(
        wave_target(false, true, InputKind::File, false),
        Some(WaveTarget::BesideInput)
    );
    assert_eq!(wave_target(false, true, InputKind::File, true), None);
    assert_eq!(
        wave_target(false, true, InputKind::Script, false),
        Some(WaveTarget::Default)
    );
}
