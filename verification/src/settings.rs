//! Per-device camera format settings: which capture format was last chosen
//! for each camera, kept in a versioned settings document.
use vstd::prelude::*;

verus! {

pub const SETTINGS_SCHEMA_VERSION: u32 = 1;

#[derive(Debug, Clone, Copy, PartialEq, Eq, Structural)]
pub struct StoredCameraFormat {
    pub width: u32,
    pub height: u32,
    pub fps: u32,
}

/// The settings document: its schema version and, per device id, the stored
/// format. Each device id occurs at most once.
#[derive(Debug)]
pub struct CameraSettings {
    pub schema_version: u32,
    pub formats_by_device: Vec<(String, StoredCameraFormat)>,
}

#[derive(Debug, Clone, Copy, PartialEq, Eq, Structural)]
pub enum SettingsError {
    /// The document was written with a schema this version does not read.
    UnsupportedSchemaVersion(u32),
}

/// The formats of a list of (device id, format) entries, as a map.
pub open spec fn entries_map(v: Seq<(String, StoredCameraFormat)>) -> Map<Seq<char>, StoredCameraFormat>
    decreases v.len(),
{
    if v.len() == 0 {
        Map::empty()
    } else {
        entries_map(v.drop_last()).insert(v.last().0@, v.last().1)
    }
}

/// No device id occurs twice.
pub open spec fn distinct_devices(v: Seq<(String, StoredCameraFormat)>) -> bool {
    forall|i: int, j: int|
        0 <= i < v.len() && 0 <= j < v.len() && i != j ==> (#[trigger] v[i]).0@ != (#[trigger] v[j]).0@
}

/// What a lookup of `device` in a map of formats gives.
pub open spec fn format_in(m: Map<Seq<char>, StoredCameraFormat>, device: Seq<char>) -> Option<StoredCameraFormat> {
    if m.dom().contains(device) {
        Some(m[device])
    } else {
        None
    }
}

proof fn lemma_entries_map_has(v: Seq<(String, StoredCameraFormat)>, i: int)
    requires
        distinct_devices(v),
        0 <= i < v.len(),
    ensures
        entries_map(v).dom().contains(v[i].0@),
        entries_map(v)[v[i].0@] == v[i].1,
    decreases v.len(),
{
    if i < v.len() - 1 {
        assert(distinct_devices(v.drop_last())) by {
            assert forall|a: int, b: int|
                0 <= a < v.len() - 1 && 0 <= b < v.len() - 1 && a != b implies (#[trigger] v.drop_last()[a]).0@
                != (#[trigger] v.drop_last()[b]).0@ by {
                assert(v[a].0@ != v[b].0@);
            }
        }
        lemma_entries_map_has(v.drop_last(), i);
        assert(v.last().0@ != v[i].0@) by {
            assert(v[v.len() - 1].0@ != v[i].0@);
        }
    }
}

proof fn lemma_entries_map_lacks(v: Seq<(String, StoredCameraFormat)>, device: Seq<char>)
    requires
        forall|i: int| 0 <= i < v.len() ==> (#[trigger] v[i]).0@ != device,
    ensures
        !entries_map(v).dom().contains(device),
    decreases v.len(),
{
    if v.len() > 0 {
        assert(v[v.len() - 1].0@ != device);
        lemma_entries_map_lacks(v.drop_last(), device);
    }
}

proof fn lemma_entries_map_update(v: Seq<(String, StoredCameraFormat)>, i: int, p: (String, StoredCameraFormat))
    requires
        distinct_devices(v),
        0 <= i < v.len(),
        v[i].0@ == p.0@,
    ensures
        entries_map(v.update(i, p)) == entries_map(v).insert(p.0@, p.1),
        distinct_devices(v.update(i, p)),
    decreases v.len(),
{
    let w = v.update(i, p);
    assert forall|a: int, b: int| 0 <= a < w.len() && 0 <= b < w.len() && a != b implies (#[trigger] w[a]).0@
        != (#[trigger] w[b]).0@ by {
        assert(v[a].0@ != v[b].0@);
    }
    if i == v.len() - 1 {
        assert(w.drop_last() =~= v.drop_last());
        assert(entries_map(w) =~= entries_map(v).insert(p.0@, p.1));
    } else {
        assert(w.drop_last() =~= v.drop_last().update(i, p));
        assert(distinct_devices(v.drop_last())) by {
            assert forall|a: int, b: int|
                0 <= a < v.len() - 1 && 0 <= b < v.len() - 1 && a != b implies (#[trigger] v.drop_last()[a]).0@
                != (#[trigger] v.drop_last()[b]).0@ by {
                assert(v[a].0@ != v[b].0@);
            }
        }
        lemma_entries_map_update(v.drop_last(), i, p);
        assert(v.last().0@ != p.0@) by {
            assert(v[v.len() - 1].0@ != v[i].0@);
        }
        assert(entries_map(w) =~= entries_map(v).insert(p.0@, p.1));
    }
}

impl CameraSettings {
    /// The stored formats, by device id.
    pub open spec fn formats(&self) -> Map<Seq<char>, StoredCameraFormat> {
        entries_map(self.formats_by_device@)
    }

    /// Each device id occurs at most once.
    pub open spec fn well_formed(&self) -> bool {
        distinct_devices(self.formats_by_device@)
    }

    /// An empty document of the current schema.
    pub fn new() -> (r: Self)
        ensures
            r.schema_version == SETTINGS_SCHEMA_VERSION,
            r.formats_by_device@.len() == 0,
            r.formats() == Map::<Seq<char>, StoredCameraFormat>::empty(),
            r.well_formed(),
    {
        CameraSettings { schema_version: SETTINGS_SCHEMA_VERSION, formats_by_device: Vec::new() }
    }

    /// The format stored for `device_id`, if any; a document of another
    /// schema is refused rather than guessed at.
    pub fn format_for_device(&self, device_id: &str) -> (r: Result<Option<StoredCameraFormat>, SettingsError>)
        requires
            self.well_formed(),
        ensures
            self.schema_version != SETTINGS_SCHEMA_VERSION ==> r == Err::<Option<StoredCameraFormat>, SettingsError>(
                SettingsError::UnsupportedSchemaVersion(self.schema_version),
            ),
            self.schema_version == SETTINGS_SCHEMA_VERSION ==> r == Ok::<Option<StoredCameraFormat>, SettingsError>(
                format_in(self.formats(), device_id@),
            ),
    {
        if self.schema_version != SETTINGS_SCHEMA_VERSION {
            return Err(SettingsError::UnsupportedSchemaVersion(self.schema_version));
        }
        let mut i: usize = 0;
        while i < self.formats_by_device.len()
            invariant
                i <= self.formats_by_device@.len(),
                self.well_formed(),
                self.schema_version == SETTINGS_SCHEMA_VERSION,
                forall|k: int| 0 <= k < i ==> (#[trigger] self.formats_by_device@[k]).0@ != device_id@,
            decreases self.formats_by_device.len() - i,
        {
            if crate::text::str_eq(self.formats_by_device[i].0.as_str(), device_id) {
                proof {
                    lemma_entries_map_has(self.formats_by_device@, i as int);
                }
                return Ok(Some(self.formats_by_device[i].1));
            }
            i = i + 1;
        }
        proof {
            lemma_entries_map_lacks(self.formats_by_device@, device_id@);
        }
        Ok(None)
    }

    /// Stores `format` for `device_id`, replacing what was stored for that
    /// device and leaving every other device's format as it was. A document
    /// of another schema is refused and left unchanged.
    pub fn set_format(&mut self, device_id: &str, format: StoredCameraFormat) -> (r: Result<(), SettingsError>)
        requires
            old(self).well_formed(),
        ensures
            final(self).well_formed(),
            final(self).schema_version == old(self).schema_version,
            old(self).schema_version != SETTINGS_SCHEMA_VERSION ==> r == Err::<(), SettingsError>(
                SettingsError::UnsupportedSchemaVersion(old(self).schema_version),
            ) && final(self).formats() == old(self).formats(),
            old(self).schema_version == SETTINGS_SCHEMA_VERSION ==> r is Ok && final(self).formats() == old(
                self,
            ).formats().insert(device_id@, format),
    {
        if self.schema_version != SETTINGS_SCHEMA_VERSION {
            return Err(SettingsError::UnsupportedSchemaVersion(self.schema_version));
        }
        let key = crate::text::owned(device_id);
        let mut i: usize = 0;
        while i < self.formats_by_device.len()
            invariant
                i <= self.formats_by_device@.len(),
                self.formats_by_device@ == old(self).formats_by_device@,
                self.schema_version == old(self).schema_version,
                self.schema_version == SETTINGS_SCHEMA_VERSION,
                distinct_devices(self.formats_by_device@),
                key@ == device_id@,
                forall|k: int| 0 <= k < i ==> (#[trigger] self.formats_by_device@[k]).0@ != device_id@,
            decreases self.formats_by_device.len() - i,
        {
            if crate::text::str_eq(self.formats_by_device[i].0.as_str(), device_id) {
                let ghost before = self.formats_by_device@;
                proof {
                    lemma_entries_map_update(before, i as int, (key, format));
                }
                self.formats_by_device.set(i, (key, format));
                return Ok(());
            }
            i = i + 1;
        }
        let ghost before = self.formats_by_device@;
        self.formats_by_device.push((key, format));
        assert(self.formats_by_device@.drop_last() =~= before);
        assert forall|a: int, b: int|
            0 <= a < self.formats_by_device@.len() && 0 <= b < self.formats_by_device@.len() && a
                != b implies (#[trigger] self.formats_by_device@[a]).0@ != (#[trigger] self.formats_by_device@[b]).0@ by {
            if a < before.len() && b < before.len() {
                assert(before[a].0@ != before[b].0@);
            } else if a < before.len() {
                assert(before[a].0@ != device_id@);
            } else {
                assert(before[b].0@ != device_id@);
            }
        }
        Ok(())
    }
}

/// Storing a format for one device is read back for that device and changes
/// nothing read back for any other device.
pub proof fn law_settings_are_scoped_by_device(
    before: Map<Seq<char>, StoredCameraFormat>,
    after: Map<Seq<char>, StoredCameraFormat>,
    device: Seq<char>,
    other: Seq<char>,
    format: StoredCameraFormat,
)
    requires
        after == before.insert(device, format),
    ensures
        format_in(after, device) == Some(format),
        other != device ==> format_in(after, other) == format_in(before, other),
{
}

} // verus!
