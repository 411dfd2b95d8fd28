//! Camera-domain types, capability validation and the camera lifecycle state machine.
use vstd::prelude::*;
use vstd::string::*;
use crate::text::{owned, push_str, push_decimal, push_padded, padded_decimal, blank, is_blank, decimal};
use crate::asset::CapturedAsset;
use crate::media::VideoFrame;

verus! {

#[derive(Debug, Clone, Copy, Default, PartialEq, Eq, Structural)]
pub enum CameraMode {
    #[default]
    Still,
    Video,
}

#[derive(Debug, Clone, Copy, Default, PartialEq, Eq, Structural)]
pub enum CameraState {
    #[default]
    Idle,
    Starting,
    Previewing,
    Recording,
    Stopping,
    Failed,
}

#[derive(Debug, Clone, Copy, PartialEq, Eq, Structural)]
pub enum CameraLifecycleEvent {
    WindowClosing,
    EnteringBackground,
    SystemSleeping,
    DeviceDisconnected,
    ReturningForeground,
    DeviceAvailable,
}

#[derive(Debug, Clone, Copy, PartialEq, Eq, Structural)]
pub enum CameraRecoveryAction {
    NoAction,
    FinalizeRecordingThenStop,
    StopPreview,
    RestartPreview,
    WaitForDevice,
}

#[derive(Debug, Clone, Copy, Default, PartialEq, Eq, Structural)]
pub enum CameraAuthorizationStatus {
    NotDetermined,
    Restricted,
    Denied,
    Authorized,
    #[default]
    Unavailable,
}

#[derive(Debug, Clone, PartialEq, Eq)]
pub struct CameraDevice {
    pub id: String,
    pub label: String,
    pub position: CameraPosition,
}

#[derive(Debug, Clone, Copy, PartialEq, Eq, Structural)]
pub enum CameraPosition {
    Front,
    Back,
    External,
    Unspecified,
}

#[derive(Debug, Clone)]
pub struct CameraFormatCapability {
    pub width: u32,
    pub height: u32,
    pub frame_rates: Vec<u32>,
}

#[derive(Debug, Clone, Copy, PartialEq, Eq, Structural)]
pub enum CaptureContainer {
    Jpeg,
    Heif,
    Dng,
    QuickTime,
    Mp4,
}

#[derive(Debug, Clone, Copy, PartialEq, Eq, Structural)]
pub enum CaptureCodec {
    Jpeg,
    Hevc,
    Raw,
    H264,
    ProRes422,
    Aac,
    Pcm,
}

#[derive(Debug, Clone, PartialEq, Eq)]
pub struct AudioCapability {
    pub codec: CaptureCodec,
    pub sample_rates_hz: Vec<u32>,
    pub channel_counts: Vec<u16>,
    pub bitrate_range_bps: Option<(u32, u32)>,
}

#[derive(Debug, Clone, PartialEq, Eq)]
pub struct CaptureOutputCapability {
    pub id: String,
    pub mode: CameraMode,
    pub container: CaptureContainer,
    pub video_or_still_codec: CaptureCodec,
    pub bit_depths: Vec<u16>,
    /// `None` represents a codec/container combination whose bitrate is
    /// quality- or implementation-defined (for example RAW or JPEG).
    pub bitrate_range_bps: Option<(u64, u64)>,
    pub audio: Option<AudioCapability>,
}

/// A camera-domain failure with a human-readable message.
#[derive(Debug, Clone, PartialEq, Eq)]
pub struct CameraError(pub String);

impl CameraError {
    /// The message, as the error's `Display` shows it.
    pub fn message(&self) -> (r: String)
        ensures
            r@ == self.0@,
    {
        self.0.clone()
    }
}

pub fn camera_error(message: &str) -> (e: CameraError)
    ensures
        e.0@ == message@,
{
    CameraError(owned(message))
}

/// The audio part of an output is usable.
pub open spec fn audio_valid(audio: AudioCapability) -> bool {
    &&& audio.sample_rates_hz@.len() > 0
    &&& audio.channel_counts@.len() > 0
    &&& forall|i: int| 0 <= i < audio.channel_counts@.len() ==> #[trigger] audio.channel_counts@[i] != 0
}

/// The first rule that an output capability breaks, if any: 0 incomplete,
/// 1 bitrate range, 2 audio on a still output, 3 audio description.
pub open spec fn output_capability_violation(c: CaptureOutputCapability) -> Option<int> {
    if blank(c.id@) || c.bit_depths@.len() == 0 {
        Some(0)
    } else if c.bitrate_range_bps matches Some((lo, hi)) && (lo == 0 || lo > hi) {
        Some(1)
    } else if c.mode == CameraMode::Still && c.audio is Some {
        Some(2)
    } else if c.audio matches Some(a) && !audio_valid(a) {
        Some(3)
    } else {
        None
    }
}

pub open spec fn output_capability_message(k: int) -> Seq<char> {
    if k == 0 {
        "capture output capability is incomplete"@
    } else if k == 1 {
        "invalid capture bitrate range"@
    } else if k == 2 {
        "still output cannot declare audio"@
    } else {
        "invalid audio capability"@
    }
}

impl CaptureOutputCapability {
    pub fn validate(&self) -> (r: Result<(), CameraError>)
        ensures
            r is Ok <==> output_capability_violation(*self) is None,
            r matches Err(e) ==> e.0@ == output_capability_message(
                output_capability_violation(*self)->0,
            ),
    {
        proof {
            reveal_strlit("capture output capability is incomplete");
            reveal_strlit("invalid capture bitrate range");
            reveal_strlit("still output cannot declare audio");
            reveal_strlit("invalid audio capability");
        }
        if is_blank(self.id.as_str()) || self.bit_depths.len() == 0 {
            return Err(camera_error("capture output capability is incomplete"));
        }
        if let Some((minimum, maximum)) = self.bitrate_range_bps {
            if minimum == 0 || minimum > maximum {
                return Err(camera_error("invalid capture bitrate range"));
            }
        }
        if self.mode == CameraMode::Still && self.audio.is_some() {
            return Err(camera_error("still output cannot declare audio"));
        }
        if let Some(audio) = &self.audio {
            let mut valid = audio.sample_rates_hz.len() > 0 && audio.channel_counts.len() > 0;
            let mut i: usize = 0;
            while i < audio.channel_counts.len()
                invariant
                    i <= audio.channel_counts.len(),
                    valid == (audio.sample_rates_hz@.len() > 0 && audio.channel_counts@.len() > 0
                        && forall|j: int| 0 <= j < i ==> #[trigger] audio.channel_counts@[j] != 0),
                decreases audio.channel_counts.len() - i,
            {
                if audio.channel_counts[i] == 0 {
                    valid = false;
                }
                i = i + 1;
            }
            if !valid {
                return Err(camera_error("invalid audio capability"));
            }
        }
        Ok(())
    }
}

#[derive(Debug, Clone)]
pub struct CameraConfig {
    pub device_id: String,
    pub mode: CameraMode,
    pub width: u32,
    pub height: u32,
    pub fps: u32,
    pub audio_enabled: bool,
}

/// Orientation requested by the UI for every native video connection.
///
/// Preview mirroring is intentionally independent from capture mirroring:
/// front-camera monitoring may be mirrored while stored media remains
/// unmirrored and interoperable with other imaging applications.
#[derive(Debug, Clone, Copy, Default, PartialEq, Eq, Structural)]
pub struct CaptureOrientation {
    pub rotation_degrees: u16,
    pub preview_mirrored: bool,
    pub capture_mirrored: bool,
}

pub open spec fn quarter_turn(degrees: int) -> bool {
    degrees == 0 || degrees == 90 || degrees == 180 || degrees == 270
}

impl CaptureOrientation {
    pub fn new(rotation_degrees: u16, preview_mirrored: bool, capture_mirrored: bool) -> (r: Result<
        Self,
        CameraError,
    >)
        ensures
            r is Ok <==> quarter_turn(rotation_degrees as int),
            r matches Ok(o) ==> o == (CaptureOrientation {
                rotation_degrees,
                preview_mirrored,
                capture_mirrored,
            }),
            r matches Err(e) ==> e.0@ == "unsupported capture rotation: "@ + decimal(
                rotation_degrees as nat,
            ) + " degrees"@,
    {
        if !(rotation_degrees == 0 || rotation_degrees == 90 || rotation_degrees == 180
            || rotation_degrees == 270) {
            let mut m = owned("unsupported capture rotation: ");
            push_decimal(&mut m, rotation_degrees as u64);
            push_str(&mut m, " degrees");
            return Err(CameraError(m));
        }
        Ok(CaptureOrientation { rotation_degrees, preview_mirrored, capture_mirrored })
    }
}

#[derive(Debug, Clone, Copy, PartialEq, Eq, Structural)]
pub enum CapturedMediaType {
    Photo,
    Video,
}

/// Lifecycle edges a camera may take.
pub open spec fn allowed_transition(from: CameraState, to: CameraState) -> bool {
    match (from, to) {
        (CameraState::Idle, CameraState::Starting) => true,
        (CameraState::Starting, CameraState::Previewing) => true,
        (CameraState::Starting, CameraState::Failed) => true,
        (CameraState::Previewing, CameraState::Recording) => true,
        (CameraState::Previewing, CameraState::Stopping) => true,
        (CameraState::Previewing, CameraState::Failed) => true,
        (CameraState::Recording, CameraState::Stopping) => true,
        (CameraState::Recording, CameraState::Failed) => true,
        (CameraState::Stopping, CameraState::Idle) => true,
        (CameraState::Stopping, CameraState::Previewing) => true,
        (CameraState::Stopping, CameraState::Failed) => true,
        (CameraState::Failed, CameraState::Idle) => true,
        _ => false,
    }
}

/// What a lifecycle event asks of a camera in a given state.
pub open spec fn recovery_for(state: CameraState, event: CameraLifecycleEvent) -> CameraRecoveryAction {
    match (state, event) {
        (CameraState::Recording, CameraLifecycleEvent::WindowClosing)
        | (CameraState::Recording, CameraLifecycleEvent::EnteringBackground)
        | (CameraState::Recording, CameraLifecycleEvent::SystemSleeping)
        | (CameraState::Recording, CameraLifecycleEvent::DeviceDisconnected) =>
            CameraRecoveryAction::FinalizeRecordingThenStop,
        (CameraState::Previewing, CameraLifecycleEvent::WindowClosing)
        | (CameraState::Previewing, CameraLifecycleEvent::EnteringBackground)
        | (CameraState::Previewing, CameraLifecycleEvent::SystemSleeping) =>
            CameraRecoveryAction::StopPreview,
        (CameraState::Previewing, CameraLifecycleEvent::DeviceDisconnected) =>
            CameraRecoveryAction::WaitForDevice,
        (CameraState::Idle, CameraLifecycleEvent::ReturningForeground)
        | (CameraState::Idle, CameraLifecycleEvent::DeviceAvailable)
        | (CameraState::Failed, CameraLifecycleEvent::ReturningForeground)
        | (CameraState::Failed, CameraLifecycleEvent::DeviceAvailable) =>
            CameraRecoveryAction::RestartPreview,
        _ => CameraRecoveryAction::NoAction,
    }
}

pub open spec fn state_name(s: CameraState) -> Seq<char> {
    match s {
        CameraState::Idle => "Idle"@,
        CameraState::Starting => "Starting"@,
        CameraState::Previewing => "Previewing"@,
        CameraState::Recording => "Recording"@,
        CameraState::Stopping => "Stopping"@,
        CameraState::Failed => "Failed"@,
    }
}

fn state_label(s: CameraState) -> (r: &'static str)
    ensures
        r@ == state_name(s),
{
    match s {
        CameraState::Idle => "Idle",
        CameraState::Starting => "Starting",
        CameraState::Previewing => "Previewing",
        CameraState::Recording => "Recording",
        CameraState::Stopping => "Stopping",
        CameraState::Failed => "Failed",
    }
}

#[derive(Debug)]
pub struct CameraController {
    state: CameraState,
    mode: CameraMode,
}

impl Default for CameraController {
    fn default() -> (c: Self)
        ensures
            c.spec_state() == CameraState::Idle,
            c.spec_mode() == CameraMode::Still,
    {
        CameraController { state: CameraState::Idle, mode: CameraMode::Still }
    }
}

impl CameraController {
    pub closed spec fn spec_state(&self) -> CameraState {
        self.state
    }

    pub closed spec fn spec_mode(&self) -> CameraMode {
        self.mode
    }

    pub fn state(&self) -> (s: CameraState)
        ensures
            s == self.spec_state(),
    {
        self.state
    }

    pub fn mode(&self) -> (m: CameraMode)
        ensures
            m == self.spec_mode(),
    {
        self.mode
    }

    /// A photo is taken only from a running preview in still mode.
    pub fn check_photo_ready(&self) -> (r: Result<(), CameraError>)
        ensures
            self.spec_state() != CameraState::Previewing ==> (r matches Err(e) && e.0@
                == "camera preview is not ready"@),
            self.spec_state() == CameraState::Previewing && self.spec_mode() != CameraMode::Still ==> (r matches Err(
                e,
            ) && e.0@ == "photo capture requires still mode"@),
            self.spec_state() == CameraState::Previewing && self.spec_mode() == CameraMode::Still ==> r is Ok,
    {
        if self.state != CameraState::Previewing {
            return Err(camera_error("camera preview is not ready"));
        }
        if self.mode != CameraMode::Still {
            return Err(camera_error("photo capture requires still mode"));
        }
        Ok(())
    }

    /// A recording starts only from a running preview in video mode.
    pub fn check_recording_ready(&self) -> (r: Result<(), CameraError>)
        ensures
            self.spec_state() != CameraState::Previewing ==> (r matches Err(e) && e.0@
                == "camera preview is not ready"@),
            self.spec_state() == CameraState::Previewing && self.spec_mode() != CameraMode::Video ==> (r matches Err(
                e,
            ) && e.0@ == "video recording requires video mode"@),
            self.spec_state() == CameraState::Previewing && self.spec_mode() == CameraMode::Video ==> r is Ok,
    {
        if self.state != CameraState::Previewing {
            return Err(camera_error("camera preview is not ready"));
        }
        if self.mode != CameraMode::Video {
            return Err(camera_error("video recording requires video mode"));
        }
        Ok(())
    }

    /// A recording is stopped only while one is active.
    pub fn check_recording_active(&self) -> (r: Result<(), CameraError>)
        ensures
            self.spec_state() != CameraState::Recording ==> (r matches Err(e) && e.0@
                == "video recording is not active"@),
            self.spec_state() == CameraState::Recording ==> r is Ok,
    {
        if self.state != CameraState::Recording {
            return Err(camera_error("video recording is not active"));
        }
        Ok(())
    }

    /// Mode changes are refused while recording; the state never changes.
    pub fn select_mode(&mut self, mode: CameraMode) -> (r: Result<(), CameraError>)
        ensures
            r is Ok <==> old(self).spec_state() != CameraState::Recording,
            final(self).spec_state() == old(self).spec_state(),
            r is Ok ==> final(self).spec_mode() == mode,
            r is Err ==> final(self).spec_mode() == old(self).spec_mode(),
            r matches Err(e) ==> e.0@ == "cannot change mode while recording"@,
    {
        if self.state == CameraState::Recording {
            return Err(camera_error("cannot change mode while recording"));
        }
        self.mode = mode;
        Ok(())
    }

    /// Takes a lifecycle edge; refused edges leave the controller unchanged.
    pub fn transition(&mut self, next: CameraState) -> (r: Result<(), CameraError>)
        ensures
            r is Ok <==> allowed_transition(old(self).spec_state(), next),
            r is Ok ==> final(self).spec_state() == next,
            r is Err ==> final(self).spec_state() == old(self).spec_state(),
            final(self).spec_mode() == old(self).spec_mode(),
            r matches Err(e) ==> e.0@ == "invalid transition: "@ + state_name(
                old(self).spec_state(),
            ) + " -> "@ + state_name(next),
    {
        let valid = match (self.state, next) {
            (CameraState::Idle, CameraState::Starting) => true,
            (CameraState::Starting, CameraState::Previewing) => true,
            (CameraState::Starting, CameraState::Failed) => true,
            (CameraState::Previewing, CameraState::Recording) => true,
            (CameraState::Previewing, CameraState::Stopping) => true,
            (CameraState::Previewing, CameraState::Failed) => true,
            (CameraState::Recording, CameraState::Stopping) => true,
            (CameraState::Recording, CameraState::Failed) => true,
            (CameraState::Stopping, CameraState::Idle) => true,
            (CameraState::Stopping, CameraState::Previewing) => true,
            (CameraState::Stopping, CameraState::Failed) => true,
            (CameraState::Failed, CameraState::Idle) => true,
            _ => false,
        };
        if !valid {
            let mut m = owned("invalid transition: ");
            push_str(&mut m, state_label(self.state));
            push_str(&mut m, " -> ");
            push_str(&mut m, state_label(next));
            return Err(CameraError(m));
        }
        self.state = next;
        Ok(())
    }

    pub fn recovery_action(&self, event: CameraLifecycleEvent) -> (a: CameraRecoveryAction)
        ensures
            a == recovery_for(self.spec_state(), event),
    {
        match (self.state, event) {
            (CameraState::Recording, CameraLifecycleEvent::WindowClosing)
            | (CameraState::Recording, CameraLifecycleEvent::EnteringBackground)
            | (CameraState::Recording, CameraLifecycleEvent::SystemSleeping)
            | (CameraState::Recording, CameraLifecycleEvent::DeviceDisconnected) =>
                CameraRecoveryAction::FinalizeRecordingThenStop,
            (CameraState::Previewing, CameraLifecycleEvent::WindowClosing)
            | (CameraState::Previewing, CameraLifecycleEvent::EnteringBackground)
            | (CameraState::Previewing, CameraLifecycleEvent::SystemSleeping) =>
                CameraRecoveryAction::StopPreview,
            (CameraState::Previewing, CameraLifecycleEvent::DeviceDisconnected) =>
                CameraRecoveryAction::WaitForDevice,
            (CameraState::Idle, CameraLifecycleEvent::ReturningForeground)
            | (CameraState::Idle, CameraLifecycleEvent::DeviceAvailable)
            | (CameraState::Failed, CameraLifecycleEvent::ReturningForeground)
            | (CameraState::Failed, CameraLifecycleEvent::DeviceAvailable) =>
                CameraRecoveryAction::RestartPreview,
            _ => CameraRecoveryAction::NoAction,
        }
    }
}

/// A recording in progress is always finalized before the camera stops,
/// whatever interrupts it.
pub proof fn law_recording_is_finalized_on_interruption(event: CameraLifecycleEvent)
    requires
        event != CameraLifecycleEvent::ReturningForeground,
        event != CameraLifecycleEvent::DeviceAvailable,
    ensures
        recovery_for(CameraState::Recording, event) == CameraRecoveryAction::FinalizeRecordingThenStop,
{
}

/// Only a previewing camera can start recording, and every state can return
/// to `Idle` in at most two edges.
pub proof fn law_recording_entered_only_from_preview(from: CameraState)
    ensures
        allowed_transition(from, CameraState::Recording) <==> from == CameraState::Previewing,
        from == CameraState::Idle || allowed_transition(from, CameraState::Idle) || (
        allowed_transition(from, CameraState::Failed) && allowed_transition(
            CameraState::Failed,
            CameraState::Idle,
        )) || (allowed_transition(from, CameraState::Stopping) && allowed_transition(
            CameraState::Stopping,
            CameraState::Idle,
        )),
{
}

/// Every recovery the controller asks for can be carried out along the
/// lifecycle: a stop (finalizing a recording, or stopping a preview) is an
/// edge to `Stopping` and from there to `Idle`, and a restart reaches
/// `Previewing` through `Starting`, from `Failed` by way of `Idle`.
pub proof fn law_recovery_actions_follow_the_lifecycle(state: CameraState, event: CameraLifecycleEvent)
    ensures
        recovery_for(state, event) == CameraRecoveryAction::FinalizeRecordingThenStop
            || recovery_for(state, event) == CameraRecoveryAction::StopPreview ==> allowed_transition(
            state,
            CameraState::Stopping,
        ) && allowed_transition(CameraState::Stopping, CameraState::Idle),
        recovery_for(state, event) == CameraRecoveryAction::RestartPreview ==> (allowed_transition(
            state,
            CameraState::Starting,
        ) || (allowed_transition(state, CameraState::Idle) && allowed_transition(
            CameraState::Idle,
            CameraState::Starting,
        ))) && allowed_transition(CameraState::Starting, CameraState::Previewing),
{
}

/// A camera that shows a picture, previewing or recording, can always be
/// stopped normally, and a stopped camera can go back to previewing.
pub proof fn law_shown_picture_can_be_stopped(state: CameraState)
    requires
        state == CameraState::Previewing || state == CameraState::Recording,
    ensures
        allowed_transition(state, CameraState::Stopping),
        allowed_transition(CameraState::Stopping, CameraState::Previewing),
{
}

/// A recording ends only by being stopped, which finalizes it, or by a
/// failure: it never leaves straight for `Idle`, `Starting` or `Previewing`.
pub proof fn law_recording_ends_through_stopping_or_failure(next: CameraState)
    ensures
        allowed_transition(CameraState::Recording, next) <==> next == CameraState::Stopping || next
            == CameraState::Failed,
{
}

/// What a platform's camera discovery reports: whether the camera may be
/// used, and the devices found.
#[derive(Debug)]
pub struct DiscoveryResponse {
    pub authorization: CameraAuthorizationStatus,
    pub devices: Vec<CameraDevice>,
}

/// What a capture gives back: the validated asset.
pub type CaptureResult = CapturedAsset;

/// A running capture session; platform adapters implement it.
pub trait CameraSession {
    fn start_preview(&mut self) -> Result<(), CameraError>;

    fn next_frame(&mut self) -> Result<Option<VideoFrame>, CameraError>;

    fn capture_photo(&mut self, destination: String) -> Result<CaptureResult, CameraError>;

    fn start_recording(&mut self, destination: String) -> Result<(), CameraError>;

    fn stop_recording(&mut self) -> Result<CaptureResult, CameraError>;

    fn stop(&mut self) -> Result<(), CameraError>;
}

/// The Apple camera backend where AVFoundation is not available: nothing to
/// authorize and no devices.
#[derive(Debug, Default)]
pub struct AppleCameraBackend;

impl AppleCameraBackend {
    pub fn authorization_status(&self) -> (r: CameraAuthorizationStatus)
        ensures
            r == CameraAuthorizationStatus::Unavailable,
    {
        CameraAuthorizationStatus::Unavailable
    }

    pub fn request_authorization(&self) -> (r: Result<CameraAuthorizationStatus, CameraError>)
        ensures
            r matches Err(e) && e.0@ == "camera authorization is unavailable on this backend"@,
    {
        Err(camera_error("camera authorization is unavailable on this backend"))
    }

    pub fn devices(&self) -> (r: Result<Vec<CameraDevice>, CameraError>)
        ensures
            r matches Ok(v) && v@.len() == 0,
    {
        Ok(Vec::new())
    }
}

/// The identifier of a capture made `secs` seconds and `nanos` nanoseconds
/// after the Unix epoch: `UFC-`, the seconds, `-`, and the nanoseconds in
/// at least nine digits.
pub fn capture_id(secs: u64, nanos: u32) -> (r: String)
    ensures
        r@ == "UFC-"@ + decimal(secs as nat) + "-"@ + padded_decimal(nanos as nat, 9),
{
    let mut id = owned("UFC-");
    push_decimal(&mut id, secs);
    push_str(&mut id, "-");
    push_padded(&mut id, nanos as u64, 9);
    id
}

} // verus!
