//! Imaging profile vocabulary and render-snapshot records.
use vstd::prelude::*;

verus! {

pub const PROFILE_SCHEMA_VERSION: u32 = 1;

#[derive(Debug, Clone, Copy, PartialEq, Eq, Structural)]
pub enum ProfileKind {
    Camera,
    Lens,
    DigitalSensor,
    Film,
    Development,
    Print,
    Display,
    OutputTransform,
    Synthetic,
}

#[derive(Debug, Clone, Copy, PartialEq, Eq, Structural)]
pub enum MeasurementQuality {
    Official,
    Measured,
    Digitized,
    Estimated,
    Synthetic,
}

#[derive(Debug, Clone, Copy, PartialEq, Eq, Structural)]
pub enum FilmType {
    ColorNegative,
    ColorPositive,
    Slide,
    BlackAndWhite,
    Intermediate,
    Print,
    Synthetic,
}

#[derive(Debug, Clone, Copy, PartialEq, Eq, Structural)]
pub enum CurveInterpolation {
    MonotonicCubic,
    Linear,
}

#[derive(Debug, Clone, Copy, PartialEq, Eq, Structural)]
pub enum CurveExtrapolation {
    Clamp,
    Linear,
    Reject,
}

#[derive(Debug, Clone, Copy, PartialEq, Eq, Structural)]
pub enum LensType {
    Spherical,
    Anamorphic,
    Probe,
    Computational,
}

#[derive(Debug, Clone, Copy, PartialEq, Eq, Structural)]
pub enum SensorCfa {
    BayerRggb,
    BayerBggr,
    BayerGrbg,
    BayerGbrg,
    XTrans,
    Monochrome,
    StackedRgb,
    Custom,
}

#[derive(Debug, Clone, PartialEq, Eq)]
pub struct ProfileSnapshotEntry {
    pub id: String,
    pub kind: ProfileKind,
    pub profile_version: String,
    pub content_sha256: String,
}

#[derive(Debug, Clone, PartialEq, Eq)]
pub struct RenderProfileSnapshot {
    pub schema_version: u32,
    pub pipeline_id: String,
    pub pipeline_sha256: String,
    pub profiles: Vec<ProfileSnapshotEntry>,
    pub snapshot_sha256: String,
}

impl ProfileSnapshotEntry {
    pub fn duplicate(&self) -> (r: Self)
        ensures
            r == *self,
    {
        ProfileSnapshotEntry {
            id: self.id.clone(),
            kind: self.kind,
            profile_version: self.profile_version.clone(),
            content_sha256: self.content_sha256.clone(),
        }
    }
}

/// A snapshot as plain values.
pub open spec fn snapshot_view(s: RenderProfileSnapshot) -> (u32, Seq<char>, Seq<char>, Seq<ProfileSnapshotEntry>, Seq<char>) {
    (s.schema_version, s.pipeline_id@, s.pipeline_sha256@, s.profiles@, s.snapshot_sha256@)
}

impl RenderProfileSnapshot {
    pub fn duplicate(&self) -> (r: Self)
        ensures
            snapshot_view(r) == snapshot_view(*self),
    {
        let mut profiles: Vec<ProfileSnapshotEntry> = Vec::new();
        let mut i: usize = 0;
        while i < self.profiles.len()
            invariant
                i <= self.profiles@.len(),
                profiles@ == self.profiles@.subrange(0, i as int),
            decreases self.profiles.len() - i,
        {
            profiles.push(self.profiles[i].duplicate());
            i = i + 1;
            assert(profiles@ =~= self.profiles@.subrange(0, i as int));
        }
        assert(profiles@ =~= self.profiles@);
        RenderProfileSnapshot {
            schema_version: self.schema_version,
            pipeline_id: self.pipeline_id.clone(),
            pipeline_sha256: self.pipeline_sha256.clone(),
            profiles,
            snapshot_sha256: self.snapshot_sha256.clone(),
        }
    }
}

} // verus!
