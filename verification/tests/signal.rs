use ultrafxr::signal::ops::{FilterMode, OpKind};

#[test]
fn input_counts() {
    assert_eq!(OpKind::Oscillator.input_count(), 1);
    assert_eq!(OpKind::Sawtooth.input_count(), 1);
    assert_eq!(OpKind::Sine.input_count(), 1);
    assert_eq!(OpKind::Noise.input_count(), 0);
    assert_eq!(OpKind::HighPass.input_count(), 1);
    assert_eq!(OpKind::StateVariableFilter.input_count(), 2);
    assert_eq!(OpKind::Saturate.input_count(), 1);
    assert_eq!(OpKind::Rectify.input_count(), 1);
    assert_eq!(OpKind::Envelope.input_count(), 0);
    assert_eq!(OpKind::Multiply.input_count(), 2);
    assert_eq!(OpKind::Constant.input_count(), 0);
    assert_eq!(OpKind::Frequency.input_count(), 1);
    assert_eq!(OpKind::Mix.input_count(), 2);
    assert_eq!(OpKind::Zero.input_count(), 0);
    assert_eq!(OpKind::ScaleInt.input_count(), 1);
    assert_eq!(OpKind::Note.input_count(), 0);
}

#[test]
fn accepts_only_its_count() {
    assert!(OpKind::Mix.accepts(2));
    assert!(!OpKind::Mix.accepts(1));
    assert!(!OpKind::Mix.accepts(3));
    assert!(OpKind::Noise.accepts(0));
    assert!(!OpKind::Noise.accepts(1));
}

#[test]
fn filter_modes_differ() {
    assert_ne!(FilterMode::LowPass2, FilterMode::LowPass4);
    assert_ne!(FilterMode::HighPass2, FilterMode::BandPass2);
    assert_eq!(FilterMode::LowPass2, FilterMode::LowPass2);
}
