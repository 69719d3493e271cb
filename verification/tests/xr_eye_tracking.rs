use cat_engine::ecs::component::xr_eye_tracking::{EyeTrackingSource, HeadRotationCompensation};

#[test]
fn eye_tracking_source_names_and_default_priority_are_stable() {
    assert_eq!(
        EyeTrackingSource::parse("htc"),
        Some(EyeTrackingSource::Htc)
    );
    assert_eq!(
        EyeTrackingSource::parse("vrchat_osc"),
        Some(EyeTrackingSource::VrChatOsc)
    );
    assert_eq!(
        EyeTrackingSource::parse("mediapipe"),
        Some(EyeTrackingSource::MediaPipe)
    );
    assert_eq!(EyeTrackingSource::parse("osc"), None);
    assert_eq!(
        EyeTrackingSource::DEFAULT_PRIORITY,
        [
            EyeTrackingSource::Htc,
            EyeTrackingSource::VrChatOsc,
            EyeTrackingSource::MediaPipe,
        ]
    );
}

#[test]
fn head_rotation_compensation_parses_authored_names() {
    assert_eq!(HeadRotationCompensation::parse("off"), Some(HeadRotationCompensation::Off));
    assert_eq!(
        HeadRotationCompensation::parse("cancel"),
        Some(HeadRotationCompensation::CancelHeadRotation)
    );
    assert_eq!(HeadRotationCompensation::parse("Cancel"), None);
    assert_eq!(HeadRotationCompensation::parse(""), None);
    assert_eq!(HeadRotationCompensation::default(), HeadRotationCompensation::Off);
}
