//! Profile schema migrations: which registered step upgrades a profile from
//! each older schema version, and the checks around every step. The steps
//! themselves rewrite JSON documents and belong to their registrant.
use vstd::prelude::*;
use crate::profile_fields::ProfileError;
use crate::snapshot::ProfileCatalog;
use crate::text::{blank, is_blank, owned};
use std::collections::BTreeMap;

verus! {

#[derive(Debug, Clone, PartialEq, Eq)]
pub struct AppliedProfileMigration {
    pub name: String,
    pub from_schema_version: u32,
    pub to_schema_version: u32,
}

#[derive(Debug, Clone, PartialEq, Eq)]
pub enum MigrationError {
    InvalidSchemaVersion,
    FutureSchemaVersion { found: u32, supported: u32 },
    MissingStep { from: u32, to: u32 },
    DuplicateStep { from: u32 },
    InvalidRegistration { reason: String },
    StepFailed { name: String, reason: String },
    StepProducedWrongVersion { name: String, expected: u32 },
}

#[derive(Debug, Clone, PartialEq, Eq)]
pub enum ProfileDirectoryError {
    Io { path: String, reason: String },
    InvalidProfile { path: String, profile_path: String, reason: String },
    Migration { path: String, error: MigrationError },
    Empty { path: String },
}

#[derive(Debug, Clone, PartialEq, Eq)]
pub struct ProfileFileMigration {
    pub path: String,
    pub profile_id: String,
    pub applied: Vec<AppliedProfileMigration>,
}

pub struct ProfileDirectoryLoad {
    pub catalog: ProfileCatalog,
    pub migrations: Vec<ProfileFileMigration>,
}

/// `u32` keys order as a `BTreeMap` needs.
proof fn lemma_u32_keys_ordered()
    ensures
        vstd::laws_cmp::obeys_cmp::<u32>(),
{
    broadcast use vstd::laws_cmp::group_laws_cmp;
}

/// The registered steps: for each source schema version at most one named
/// step, every source below the target version.
pub struct MigrationSteps {
    target_schema_version: u32,
    steps: BTreeMap<u32, String>,
}

impl MigrationSteps {
    pub closed spec fn spec_target(&self) -> u32 {
        self.target_schema_version
    }

    /// The name of the step registered from each source version.
    pub closed spec fn spec_steps(&self) -> Map<u32, String> {
        self.steps@
    }

    /// Every registered step starts below the target version.
    pub open spec fn wf(&self) -> bool {
        forall|from: u32| #[trigger] self.spec_steps().contains_key(from) ==> from < self.spec_target()
    }

    /// No steps yet, upgrading to `target_schema_version`.
    pub fn new(target_schema_version: u32) -> (r: Self)
        ensures
            r.spec_target() == target_schema_version,
            r.spec_steps() == Map::<u32, String>::empty(),
            r.wf(),
    {
        MigrationSteps { target_schema_version, steps: BTreeMap::new() }
    }

    pub fn target_schema_version(&self) -> (r: u32)
        ensures
            r == self.spec_target(),
    {
        self.target_schema_version
    }

    /// Registers the step from `from_schema_version` to the next version: it
    /// needs a name and a source below the target, and one per source.
    pub fn register(&mut self, from_schema_version: u32, name: String) -> (r: Result<(), MigrationError>)
        ensures
            final(self).spec_target() == old(self).spec_target(),
            old(self).wf() ==> final(self).wf(),
            blank(name@) || from_schema_version >= old(self).spec_target() ==> (r matches Err(
                MigrationError::InvalidRegistration { reason },
            ) && reason@ == "migration name must be non-empty and source must precede target"@) && final(self).spec_steps() == old(self).spec_steps(),
            !(blank(name@) || from_schema_version >= old(self).spec_target()) && old(self).spec_steps().contains_key(
                from_schema_version,
            ) ==> r == Err::<(), MigrationError>(MigrationError::DuplicateStep { from: from_schema_version })
                && final(self).spec_steps() == old(self).spec_steps(),
            !(blank(name@) || from_schema_version >= old(self).spec_target()) && !old(self).spec_steps().contains_key(
                from_schema_version,
            ) ==> r is Ok && final(self).spec_steps() == old(self).spec_steps().insert(from_schema_version, name),
    {
        broadcast use vstd::std_specs::btree::group_btree_axioms;
        proof {
            lemma_u32_keys_ordered();
        }
        if is_blank(name.as_str()) || from_schema_version >= self.target_schema_version {
            return Err(
                MigrationError::InvalidRegistration {
                    reason: owned("migration name must be non-empty and source must precede target"),
                },
            );
        }
        if self.steps.contains_key(&from_schema_version) {
            return Err(MigrationError::DuplicateStep { from: from_schema_version });
        }
        self.steps.insert(from_schema_version, name);
        assert(old(self).wf() ==> self.wf()) by {
            if old(self).wf() {
                assert forall|from: u32| #[trigger] self.spec_steps().contains_key(from) implies from
                    < self.spec_target() by {
                    if from != from_schema_version {
                        assert(old(self).spec_steps().contains_key(from));
                    }
                }
            }
        }
        Ok(())
    }

    /// The version a document declares, given the `schema_version` number
    /// read from it (if it had one): it must fit in 32 bits and not be newer
    /// than the target.
    pub fn start(&self, declared: Option<u64>) -> (r: Result<u32, MigrationError>)
        ensures
            declared is None || declared->0 > u32::MAX ==> r == Err::<u32, MigrationError>(
                MigrationError::InvalidSchemaVersion,
            ),
            declared is Some && declared->0 <= u32::MAX && declared->0 > self.spec_target() ==> r == Err::<
                u32,
                MigrationError,
            >(MigrationError::FutureSchemaVersion { found: declared->0 as u32, supported: self.spec_target() }),
            declared is Some && declared->0 <= self.spec_target() ==> r == Ok::<u32, MigrationError>(
                declared->0 as u32,
            ),
    {
        let version = match declared {
            Some(v) => {
                if v > u32::MAX as u64 {
                    return Err(MigrationError::InvalidSchemaVersion);
                }
                v as u32
            },
            None => return Err(MigrationError::InvalidSchemaVersion),
        };
        if version > self.target_schema_version {
            return Err(
                MigrationError::FutureSchemaVersion { found: version, supported: self.target_schema_version },
            );
        }
        Ok(version)
    }

    /// The name of the step that upgrades a document at `version`, which is
    /// below the target.
    pub fn step_from(&self, version: u32) -> (r: Result<String, MigrationError>)
        requires
            version < self.spec_target(),
        ensures
            !self.spec_steps().contains_key(version) ==> r == Err::<String, MigrationError>(
                MigrationError::MissingStep { from: version, to: (version + 1) as u32 },
            ),
            self.spec_steps().contains_key(version) ==> (r matches Ok(name) && name@ == self.spec_steps()[version]@),
    {
        broadcast use vstd::std_specs::btree::group_btree_axioms;
        proof {
            lemma_u32_keys_ordered();
        }
        match self.steps.get(&version) {
            Some(name) => Ok(name.clone()),
            None => Err(MigrationError::MissingStep { from: version, to: version + 1 }),
        }
    }
}

/// Checks the version a step produced from `version`: it must be the next
/// one. Gives the record of the applied step.
pub fn finish_step(name: String, version: u32, produced: Option<u64>) -> (r: Result<
    AppliedProfileMigration,
    MigrationError,
>)
    requires
        version < u32::MAX,
    ensures
        produced is None || produced->0 > u32::MAX ==> r == Err::<AppliedProfileMigration, MigrationError>(
            MigrationError::InvalidSchemaVersion,
        ),
        produced matches Some(p) && p <= u32::MAX && p != version + 1 ==> r == Err::<
            AppliedProfileMigration,
            MigrationError,
        >(MigrationError::StepProducedWrongVersion { name, expected: (version + 1) as u32 }),
        produced matches Some(p) && p == version + 1 ==> r == Ok::<AppliedProfileMigration, MigrationError>(
            AppliedProfileMigration { name, from_schema_version: version, to_schema_version: (version + 1) as u32 },
        ),
{
    let produced = match produced {
        Some(v) => {
            if v > u32::MAX as u64 {
                return Err(MigrationError::InvalidSchemaVersion);
            }
            v as u32
        },
        None => return Err(MigrationError::InvalidSchemaVersion),
    };
    let next = version + 1;
    if produced != next {
        return Err(MigrationError::StepProducedWrongVersion { name, expected: next });
    }
    Ok(AppliedProfileMigration { name, from_schema_version: version, to_schema_version: next })
}

} // verus!
