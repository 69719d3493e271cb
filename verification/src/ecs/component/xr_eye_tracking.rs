//! Names of eye-tracking transports and head-rotation conventions.
use vstd::prelude::*;
use crate::text::str_eq;

verus! {

/// A transport that can provide normalized eye-tracking data.
#[derive(Debug, Clone, Copy, PartialEq, Eq, Structural, Hash)]
pub enum EyeTrackingSource {
    Htc,
    VrChatOsc,
    MediaPipe,
}

/// The authored name of each source.
pub open spec fn eye_tracking_source_name(source: EyeTrackingSource) -> Seq<char> {
    match source {
        EyeTrackingSource::Htc => seq!['h', 't', 'c'],
        EyeTrackingSource::VrChatOsc => seq!['v', 'r', 'c', 'h', 'a', 't', '_', 'o', 's', 'c'],
        EyeTrackingSource::MediaPipe => seq!['m', 'e', 'd', 'i', 'a', 'p', 'i', 'p', 'e'],
    }
}

impl EyeTrackingSource {
    pub const DEFAULT_PRIORITY: [EyeTrackingSource; 3] = [
        EyeTrackingSource::Htc,
        EyeTrackingSource::VrChatOsc,
        EyeTrackingSource::MediaPipe,
    ];

    /// Parse an authored source name; unknown names give `None`.
    pub fn parse(value: &str) -> (r: Option<Self>)
        ensures
            match r {
                Some(source) => value@ == eye_tracking_source_name(source),
                None => forall|source: EyeTrackingSource|
                    value@ != #[trigger] eye_tracking_source_name(source),
            },
    {
        proof {
            reveal_strlit("htc");
            reveal_strlit("vrchat_osc");
            reveal_strlit("mediapipe");
        }
        if str_eq(value, "htc") {
            Some(EyeTrackingSource::Htc)
        } else if str_eq(value, "vrchat_osc") {
            Some(EyeTrackingSource::VrChatOsc)
        } else if str_eq(value, "mediapipe") {
            Some(EyeTrackingSource::MediaPipe)
        } else {
            proof {
                assert forall|source: EyeTrackingSource|
                    value@ != #[trigger] eye_tracking_source_name(source) by {
                    match source {
                        EyeTrackingSource::Htc => assert("htc"@ =~= eye_tracking_source_name(source)),
                        EyeTrackingSource::VrChatOsc => assert("vrchat_osc"@ =~= eye_tracking_source_name(source)),
                        EyeTrackingSource::MediaPipe => assert("mediapipe"@ =~= eye_tracking_source_name(source)),
                    }
                }
            }
            None
        }
    }
}

/// The coordinate convention used by an eye-tracking transport.
#[derive(Debug, Clone, Copy, PartialEq, Eq, Structural)]
pub enum HeadRotationCompensation {
    Off,
    CancelHeadRotation,
}

impl HeadRotationCompensation {
    pub fn default() -> (r: Self)
        ensures
            r == HeadRotationCompensation::Off,
    {
        HeadRotationCompensation::Off
    }

    /// Parse `"off"` or `"cancel"`; anything else gives `None`.
    pub fn parse(value: &str) -> (r: Option<Self>)
        ensures
            r == (if value@ == seq!['o', 'f', 'f'] {
                Some(HeadRotationCompensation::Off)
            } else if value@ == seq!['c', 'a', 'n', 'c', 'e', 'l'] {
                Some(HeadRotationCompensation::CancelHeadRotation)
            } else {
                None
            }),
    {
        proof {
            reveal_strlit("off");
            reveal_strlit("cancel");
            assert("off"@ =~= seq!['o', 'f', 'f']);
            assert("cancel"@ =~= seq!['c', 'a', 'n', 'c', 'e', 'l']);
        }
        if str_eq(value, "off") {
            Some(HeadRotationCompensation::Off)
        } else if str_eq(value, "cancel") {
            Some(HeadRotationCompensation::CancelHeadRotation)
        } else {
            None
        }
    }
}

} // verus!
