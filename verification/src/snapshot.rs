//! The profile catalog, and the resolution of the profiles a pipeline needs:
//! every profile its enabled nodes name and, transitively, every profile
//! those reference, each checked against the kinds its requesters expect.
use vstd::prelude::*;
use crate::media_index::{text_before, text_lt};
use crate::pipeline::{DevelopmentOutline, MediumOutline, NodeOutline, OperationOutline, PipelineOutline, PrintProcess};
use crate::profile_fields::{ProfileError, ProfileReference};
use crate::profiles::{ProfileKind, ProfileSnapshotEntry};
use crate::text::{blank, decimal, is_blank, owned, push_decimal, push_str, str_eq};

verus! {

/// A profile the snapshot needs: its id, the kind its requester expects,
/// and the JSON path of the request.
#[derive(Debug, Clone, PartialEq, Eq)]
pub struct ProfileRequest {
    pub id: String,
    pub expected_kind: Option<ProfileKind>,
    pub path: String,
}

/// A request as plain values.
pub struct RequestView {
    pub id: Seq<char>,
    pub expected_kind: Option<ProfileKind>,
    pub path: Seq<char>,
}

impl View for ProfileRequest {
    type V = RequestView;

    open spec fn view(&self) -> RequestView {
        RequestView { id: self.id@, expected_kind: self.expected_kind, path: self.path@ }
    }
}

/// A validated profile as the catalog keeps it: what a snapshot records of
/// it and what it references. `content_sha256` is the digest of the
/// profile's canonical serialization.
#[derive(Debug, Clone, PartialEq, Eq)]
pub struct CatalogProfile {
    pub id: String,
    pub kind: ProfileKind,
    pub profile_version: String,
    pub references: Vec<ProfileReference>,
    pub content_sha256: String,
}

#[derive(Debug, Clone, PartialEq, Eq)]
pub enum SnapshotError {
    InvalidPipeline { reason: String },
    MissingProfile { path: String, profile_id: String },
    KindMismatch { path: String, profile_id: String, expected: ProfileKind, actual: ProfileKind },
    ConflictingKindRequirement { profile_id: String, first: ProfileKind, second: ProfileKind },
    InvalidProfile { profile_id: String, path: String, reason: String },
    Serialization { reason: String },
}

/// A resolution failure as plain values.
pub enum SnapshotFault {
    MissingProfile { path: Seq<char>, profile_id: Seq<char> },
    KindMismatch { path: Seq<char>, profile_id: Seq<char>, expected: ProfileKind, actual: ProfileKind },
    ConflictingKindRequirement { profile_id: Seq<char>, first: ProfileKind, second: ProfileKind },
    Other,
}

impl View for SnapshotError {
    type V = SnapshotFault;

    open spec fn view(&self) -> SnapshotFault {
        match self {
            SnapshotError::MissingProfile { path, profile_id } => SnapshotFault::MissingProfile {
                path: path@,
                profile_id: profile_id@,
            },
            SnapshotError::KindMismatch { path, profile_id, expected, actual } => SnapshotFault::KindMismatch {
                path: path@,
                profile_id: profile_id@,
                expected: *expected,
                actual: *actual,
            },
            SnapshotError::ConflictingKindRequirement { profile_id, first, second } =>
                SnapshotFault::ConflictingKindRequirement { profile_id: profile_id@, first: *first, second: *second },
            _ => SnapshotFault::Other,
        }
    }
}

// ---------------------------------------------------------------------------
// Requests from a pipeline.

/// The profile an operation names, the kind it must be, and the field that
/// names it.
pub open spec fn operation_profile(op: OperationOutline) -> Option<(Seq<char>, Option<ProfileKind>, Seq<char>)> {
    match op {
        OperationOutline::Source(s) => match s.profile_id {
            Some(id) => Some((id@, None, "profile_id"@)),
            None => None,
        },
        OperationOutline::Camera { profile_id } => Some((profile_id@, Some(ProfileKind::Camera), "profile_id"@)),
        OperationOutline::Lens { profile_id } => Some((profile_id@, Some(ProfileKind::Lens), "profile_id"@)),
        OperationOutline::CaptureMedium(m) => match m {
            MediumOutline::Film { profile_id } => Some((profile_id@, Some(ProfileKind::Film), "medium.profile_id"@)),
            MediumOutline::DigitalSensor { profile_id } => Some(
                (profile_id@, Some(ProfileKind::DigitalSensor), "medium.profile_id"@),
            ),
        },
        OperationOutline::Development(d) => match d {
            DevelopmentOutline::Chemical { process_id } => Some(
                (process_id@, Some(ProfileKind::Development), "process.process_id"@),
            ),
            DevelopmentOutline::DigitalRaw { profile_id } => Some(
                (profile_id@, Some(ProfileKind::Development), "process.profile_id"@),
            ),
        },
        OperationOutline::Print(p) => match p.process {
            PrintProcess::Photochemical { profile_id } => Some(
                (profile_id@, Some(ProfileKind::Print), "process.profile_id"@),
            ),
            PrintProcess::DigitalIntermediate { profile_id } => Some(
                (profile_id@, Some(ProfileKind::Print), "process.profile_id"@),
            ),
        },
        OperationOutline::OutputTransform(t) => Some(
            (t.transform_id@, Some(ProfileKind::OutputTransform), "transform_id"@),
        ),
        OperationOutline::Display { profile_id } => Some((profile_id@, Some(ProfileKind::Display), "profile_id"@)),
    }
}

pub open spec fn node_path(index: nat, field: Seq<char>) -> Seq<char> {
    "$.nodes["@ + decimal(index) + "].operation.config."@ + field
}

/// The requests of the enabled nodes among the first `n`, in node order; a
/// blank profile id requests nothing.
pub open spec fn node_requests_spec(nodes: Seq<NodeOutline>, n: int) -> Seq<RequestView>
    decreases n,
{
    if n <= 0 {
        Seq::empty()
    } else {
        let before = node_requests_spec(nodes, n - 1);
        let node = nodes[n - 1];
        match operation_profile(node.operation) {
            Some((id, kind, field)) => if node.enabled && !blank(id) {
                before.push(RequestView { id, expected_kind: kind, path: node_path((n - 1) as nat, field) })
            } else {
                before
            },
            None => before,
        }
    }
}

fn operation_profile_of(op: &OperationOutline) -> (r: Option<(&str, Option<ProfileKind>, &'static str)>)
    ensures
        match operation_profile(*op) {
            None => r is None,
            Some((id, kind, field)) => r matches Some((i, k, f)) && i@ == id && k == kind && f@ == field,
        },
{
    match op {
        OperationOutline::Source(s) => match &s.profile_id {
            Some(id) => Some((id.as_str(), None, "profile_id")),
            None => None,
        },
        OperationOutline::Camera { profile_id } => Some((profile_id.as_str(), Some(ProfileKind::Camera), "profile_id")),
        OperationOutline::Lens { profile_id } => Some((profile_id.as_str(), Some(ProfileKind::Lens), "profile_id")),
        OperationOutline::CaptureMedium(m) => match m {
            MediumOutline::Film { profile_id } => Some(
                (profile_id.as_str(), Some(ProfileKind::Film), "medium.profile_id"),
            ),
            MediumOutline::DigitalSensor { profile_id } => Some(
                (profile_id.as_str(), Some(ProfileKind::DigitalSensor), "medium.profile_id"),
            ),
        },
        OperationOutline::Development(d) => match d {
            DevelopmentOutline::Chemical { process_id } => Some(
                (process_id.as_str(), Some(ProfileKind::Development), "process.process_id"),
            ),
            DevelopmentOutline::DigitalRaw { profile_id } => Some(
                (profile_id.as_str(), Some(ProfileKind::Development), "process.profile_id"),
            ),
        },
        OperationOutline::Print(p) => match &p.process {
            PrintProcess::Photochemical { profile_id } => Some(
                (profile_id.as_str(), Some(ProfileKind::Print), "process.profile_id"),
            ),
            PrintProcess::DigitalIntermediate { profile_id } => Some(
                (profile_id.as_str(), Some(ProfileKind::Print), "process.profile_id"),
            ),
        },
        OperationOutline::OutputTransform(t) => Some(
            (t.transform_id.as_str(), Some(ProfileKind::OutputTransform), "transform_id"),
        ),
        OperationOutline::Display { profile_id } => Some(
            (profile_id.as_str(), Some(ProfileKind::Display), "profile_id"),
        ),
    }
}

/// The profiles the enabled nodes of a pipeline name, in node order, each
/// with the kind its node requires and the JSON path that names it.
pub fn node_requests(pipeline: &PipelineOutline) -> (r: Vec<ProfileRequest>)
    ensures
        r@.map_values(|q: ProfileRequest| q@) =~= node_requests_spec(pipeline.nodes@, pipeline.nodes@.len() as int),
{
    let nodes = &pipeline.nodes;
    let mut out: Vec<ProfileRequest> = Vec::new();
    let mut i: usize = 0;
    while i < nodes.len()
        invariant
            i <= nodes@.len(),
            out@.map_values(|q: ProfileRequest| q@) =~= node_requests_spec(nodes@, i as int),
        decreases nodes.len() - i,
    {
        let node = &nodes[i];
        if node.enabled {
            match operation_profile_of(&node.operation) {
                Some((id, kind, field)) => {
                    if !is_blank(id) {
                        let mut path = owned("$.nodes[");
                        push_decimal(&mut path, i as u64);
                        push_str(&mut path, "].operation.config.");
                        push_str(&mut path, field);
                        out.push(ProfileRequest { id: owned(id), expected_kind: kind, path });
                    }
                },
                None => {},
            }
        }
        i = i + 1;
    }
    out
}

// ---------------------------------------------------------------------------
// Resolution.

/// The number of profiles not yet selected.
pub open spec fn count_unselected(flags: Seq<bool>) -> nat
    decreases flags.len(),
{
    if flags.len() == 0 {
        0
    } else {
        count_unselected(flags.drop_last()) + if flags.last() {
            0nat
        } else {
            1nat
        }
    }
}

pub proof fn lemma_select_decreases(flags: Seq<bool>, i: int)
    requires
        0 <= i < flags.len(),
        !flags[i],
    ensures
        count_unselected(flags.update(i, true)) + 1 == count_unselected(flags),
    decreases flags.len(),
{
    let updated = flags.update(i, true);
    if i == flags.len() - 1 {
        assert(updated.drop_last() =~= flags.drop_last());
    } else {
        assert(updated.drop_last() =~= flags.drop_last().update(i, true));
        lemma_select_decreases(flags.drop_last(), i);
    }
}

/// The position of the first catalog profile at or after `i` with this id,
/// or the catalog's length.
pub open spec fn profile_index(catalog: Seq<CatalogProfile>, id: Seq<char>, i: int) -> int
    decreases catalog.len() - i,
{
    if i >= catalog.len() {
        catalog.len() as int
    } else if catalog[i].id@ == id {
        i
    } else {
        profile_index(catalog, id, i + 1)
    }
}

pub proof fn lemma_profile_index_bounds(catalog: Seq<CatalogProfile>, id: Seq<char>, i: int)
    requires
        0 <= i <= catalog.len(),
    ensures
        i <= profile_index(catalog, id, i) <= catalog.len(),
        profile_index(catalog, id, i) < catalog.len() ==> catalog[profile_index(catalog, id, i)].id@ == id,
    decreases catalog.len() - i,
{
    if i < catalog.len() && catalog[i].id@ != id {
        lemma_profile_index_bounds(catalog, id, i + 1);
    }
}

/// The kind requirement recorded for an id (the most recent stated one).
pub open spec fn requirement(reqs: Seq<(Seq<char>, Option<ProfileKind>)>, id: Seq<char>, i: int) -> Option<ProfileKind>
    decreases reqs.len() - i,
{
    if i >= reqs.len() || i < 0 {
        None
    } else if reqs[i].0 == id {
        reqs[i].1
    } else {
        requirement(reqs, id, i + 1)
    }
}

/// The position of an id's requirement, or the length.
pub open spec fn requirement_index(reqs: Seq<(Seq<char>, Option<ProfileKind>)>, id: Seq<char>, i: int) -> int
    decreases reqs.len() - i,
{
    if i >= reqs.len() || i < 0 {
        reqs.len() as int
    } else if reqs[i].0 == id {
        i
    } else {
        requirement_index(reqs, id, i + 1)
    }
}

/// The requirements with `id`'s replaced by `kind`, or added.
pub open spec fn record_requirement(reqs: Seq<(Seq<char>, Option<ProfileKind>)>, id: Seq<char>, kind: Option<
    ProfileKind,
>) -> Seq<(Seq<char>, Option<ProfileKind>)> {
    let k = requirement_index(reqs, id, 0);
    if k < reqs.len() {
        reqs.update(k, (id, kind))
    } else {
        reqs.push((id, kind))
    }
}

pub open spec fn reference_request_path(owner: Seq<char>, index: nat) -> Seq<char> {
    "profiles["@ + owner + "].references["@ + decimal(index) + "].profile_id"@
}

/// The requests a profile's first `n` references make.
pub open spec fn reference_requests(p: CatalogProfile, n: int) -> Seq<RequestView>
    decreases n,
{
    if n <= 0 {
        Seq::empty()
    } else {
        reference_requests(p, n - 1).push(
            RequestView {
                id: p.references@[n - 1].profile_id@,
                expected_kind: p.references@[n - 1].expected_kind,
                path: reference_request_path(p.id@, (n - 1) as nat),
            },
        )
    }
}

/// Works through the pending requests in order: a request's stated kind
/// must agree with the id's recorded requirement; an already selected
/// profile must have the required kind; otherwise the profile must exist and
/// have it, is selected, and its references join the end of the queue. The
/// result marks the selected profiles.
pub open spec fn resolve(
    catalog: Seq<CatalogProfile>,
    queue: Seq<RequestView>,
    reqs: Seq<(Seq<char>, Option<ProfileKind>)>,
    flags: Seq<bool>,
) -> Result<Seq<bool>, SnapshotFault>
    decreases count_unselected(flags), queue.len(),
{
    if queue.len() == 0 || flags.len() != catalog.len() {
        Ok(flags)
    } else {
        let r = queue[0];
        let rest = queue.drop_first();
        let existing = requirement(reqs, r.id, 0);
        if existing is Some && r.expected_kind is Some && existing->0 != r.expected_kind->0 {
            Err(
                SnapshotFault::ConflictingKindRequirement {
                    profile_id: r.id,
                    first: existing->0,
                    second: r.expected_kind->0,
                },
            )
        } else {
            let merged = if r.expected_kind is Some {
                r.expected_kind
            } else {
                existing
            };
            let reqs2 = record_requirement(reqs, r.id, merged);
            let i = profile_index(catalog, r.id, 0);
            if i >= catalog.len() {
                Err(SnapshotFault::MissingProfile { path: r.path, profile_id: r.id })
            } else if merged is Some && catalog[i].kind != merged->0 {
                Err(
                    SnapshotFault::KindMismatch {
                        path: r.path,
                        profile_id: r.id,
                        expected: merged->0,
                        actual: catalog[i].kind,
                    },
                )
            } else if flags[i] {
                resolve(catalog, rest, reqs2, flags)
            } else {
                proof {
                    lemma_profile_index_bounds(catalog, r.id, 0);
                    lemma_select_decreases(flags, i);
                }
                resolve(
                    catalog,
                    rest + reference_requests(catalog[i], catalog[i].references@.len() as int),
                    reqs2,
                    flags.update(i, true),
                )
            }
        }
    }
}

/// The snapshot entry of a catalog profile.
pub open spec fn entry_of(p: CatalogProfile) -> (Seq<char>, ProfileKind, Seq<char>, Seq<char>) {
    (p.id@, p.kind, p.profile_version@, p.content_sha256@)
}

pub open spec fn entry_view(e: ProfileSnapshotEntry) -> (Seq<char>, ProfileKind, Seq<char>, Seq<char>) {
    (e.id@, e.kind, e.profile_version@, e.content_sha256@)
}

/// The entries of the selected profiles among the first `n`, in catalog order.
pub open spec fn selected_entries(catalog: Seq<CatalogProfile>, flags: Seq<bool>, n: int) -> Seq<
    (Seq<char>, ProfileKind, Seq<char>, Seq<char>),
>
    decreases n,
{
    if n <= 0 {
        Seq::empty()
    } else if flags[n - 1] {
        selected_entries(catalog, flags, n - 1).push(entry_of(catalog[n - 1]))
    } else {
        selected_entries(catalog, flags, n - 1)
    }
}

pub open spec fn catalog_sorted(catalog: Seq<CatalogProfile>) -> bool {
    forall|i: int, j: int| 0 <= i < j < catalog.len() ==> text_lt(catalog[i].id@, catalog[j].id@)
}

/// A catalog of validated profiles, kept in ascending id order with each id
/// once.
pub struct ProfileCatalog {
    profiles: Vec<CatalogProfile>,
}

impl ProfileCatalog {
    pub closed spec fn spec_profiles(&self) -> Seq<CatalogProfile> {
        self.profiles@
    }

    pub closed spec fn wf(&self) -> bool {
        catalog_sorted(self.profiles@)
    }

    pub fn new() -> (r: Self)
        ensures
            r.wf(),
            r.spec_profiles().len() == 0,
    {
        ProfileCatalog { profiles: Vec::new() }
    }

    pub fn len(&self) -> (r: usize)
        ensures
            r == self.spec_profiles().len(),
    {
        self.profiles.len()
    }

    pub fn is_empty(&self) -> (r: bool)
        ensures
            r == (self.spec_profiles().len() == 0),
    {
        self.profiles.len() == 0
    }

    fn find(&self, id: &str) -> (r: usize)
        ensures
            r == profile_index(self.spec_profiles(), id@, 0),
            r <= self.spec_profiles().len(),
    {
        let mut i: usize = 0;
        while i < self.profiles.len() && !str_eq(self.profiles[i].id.as_str(), id)
            invariant
                i <= self.profiles@.len(),
                profile_index(self.profiles@, id@, 0) == profile_index(self.profiles@, id@, i as int),
            decreases self.profiles.len() - i,
        {
            i = i + 1;
        }
        i
    }

    /// The profile with this id.
    pub fn get(&self, id: &str) -> (r: Option<&CatalogProfile>)
        ensures
            profile_index(self.spec_profiles(), id@, 0) < self.spec_profiles().len() ==> r == Some(
                &self.spec_profiles()[profile_index(self.spec_profiles(), id@, 0)],
            ),
            profile_index(self.spec_profiles(), id@, 0) >= self.spec_profiles().len() ==> r is None,
    {
        let i = self.find(id);
        if i < self.profiles.len() {
            Some(&self.profiles[i])
        } else {
            None
        }
    }
}

pub open spec fn requirements_view(v: Seq<(String, Option<ProfileKind>)>) -> Seq<(Seq<char>, Option<ProfileKind>)> {
    v.map_values(|p: (String, Option<ProfileKind>)| (p.0@, p.1))
}

pub open spec fn requests_view(v: Seq<ProfileRequest>) -> Seq<RequestView> {
    v.map_values(|q: ProfileRequest| q@)
}

fn find_requirement(reqs: &Vec<(String, Option<ProfileKind>)>, id: &str) -> (r: usize)
    ensures
        r == requirement_index(requirements_view(reqs@), id@, 0),
        r <= reqs@.len(),
        r < reqs@.len() ==> requirement(requirements_view(reqs@), id@, 0) == reqs@[r as int].1,
        r == reqs@.len() ==> requirement(requirements_view(reqs@), id@, 0) is None,
{
    let ghost rv = requirements_view(reqs@);
    let mut i: usize = 0;
    while i < reqs.len() && !str_eq(reqs[i].0.as_str(), id)
        invariant
            i <= reqs@.len(),
            rv == requirements_view(reqs@),
            requirement_index(rv, id@, 0) == requirement_index(rv, id@, i as int),
            requirement(rv, id@, 0) == requirement(rv, id@, i as int),
        decreases reqs.len() - i,
    {
        i = i + 1;
    }
    i
}

fn reference_path_text(owner: &str, index: usize) -> (r: String)
    ensures
        r@ == reference_request_path(owner@, index as nat),
{
    let mut s = owned("profiles[");
    push_str(&mut s, owner);
    push_str(&mut s, "].references[");
    push_decimal(&mut s, index as u64);
    push_str(&mut s, "].profile_id");
    s
}

fn push_reference_requests(queue: &mut Vec<ProfileRequest>, p: &CatalogProfile)
    ensures
        requests_view(final(queue)@) =~= requests_view(old(queue)@) + reference_requests(*p, p.references@.len() as int),
{
    let ghost start = requests_view(queue@);
    let mut j: usize = 0;
    while j < p.references.len()
        invariant
            j <= p.references@.len(),
            requests_view(queue@) =~= start + reference_requests(*p, j as int),
        decreases p.references.len() - j,
    {
        let reference = &p.references[j];
        let request = ProfileRequest {
            id: reference.profile_id.clone(),
            expected_kind: reference.expected_kind,
            path: reference_path_text(p.id.as_str(), j),
        };
        let ghost before = queue@;
        queue.push(request);
        assert(requests_view(queue@) =~= requests_view(before).push(queue@[before.len() as int]@));
        j = j + 1;
    }
}

impl ProfileCatalog {
    /// The entries of every profile the requests need, directly or through
    /// references, in ascending id order; or the first conflict met while
    /// working through the requests (see `resolve`).
    #[verifier::loop_isolation(false)]
    pub fn resolve_profiles(&self, requests: Vec<ProfileRequest>) -> (r: Result<Vec<ProfileSnapshotEntry>, SnapshotError>)
        ensures
            match resolve(
                self.spec_profiles(),
                requests_view(requests@),
                Seq::empty(),
                Seq::new(self.spec_profiles().len(), |i: int| false),
            ) {
                Ok(flags) => r matches Ok(v) && v@.map_values(|e: ProfileSnapshotEntry| entry_view(e)) =~= selected_entries(
                    self.spec_profiles(),
                    flags,
                    self.spec_profiles().len() as int,
                ),
                Err(f) => r matches Err(e) && e@ == f,
            },
    {
        let catalog = &self.profiles;
        let n = catalog.len();
        let mut flags: Vec<bool> = Vec::new();
        let mut k: usize = 0;
        while k < n
            invariant
                k <= n,
                n == catalog@.len(),
                flags@ =~= Seq::new(k as nat, |i: int| false),
            decreases n - k,
        {
            flags.push(false);
            k = k + 1;
        }
        let ghost goal = resolve(
            catalog@,
            requests_view(requests@),
            Seq::empty(),
            Seq::new(catalog@.len(), |i: int| false),
        );
        let mut queue = requests;
        let mut reqs: Vec<(String, Option<ProfileKind>)> = Vec::new();
        let mut head: usize = 0;
        assert(requests_view(queue@).subrange(0, queue@.len() as int) =~= requests_view(queue@));
        assert(requirements_view(reqs@) =~= Seq::<(Seq<char>, Option<ProfileKind>)>::empty());
        while head < queue.len()
            invariant
                n == catalog@.len(),
                catalog@ == self.spec_profiles(),
                flags@.len() == n,
                head <= queue@.len(),
                goal == resolve(
                    catalog@,
                    requests_view(queue@).subrange(head as int, queue@.len() as int),
                    requirements_view(reqs@),
                    flags@,
                ),
            decreases count_unselected(flags@), queue@.len() - head,
        {
            let ghost qv = requests_view(queue@).subrange(head as int, queue@.len() as int);
            let ghost rv = requirements_view(reqs@);
            let id = queue[head].id.clone();
            let expected = queue[head].expected_kind;
            let path = queue[head].path.clone();
            assert(qv[0] == queue@[head as int]@);
            head = head + 1;
            assert(qv.drop_first() =~= requests_view(queue@).subrange(head as int, queue@.len() as int));
            let at = find_requirement(&reqs, id.as_str());
            let existing = if at < reqs.len() {
                reqs[at].1
            } else {
                None
            };
            match (existing, expected) {
                (Some(first), Some(second)) => {
                    if first != second {
                        return Err(SnapshotError::ConflictingKindRequirement { profile_id: id, first, second });
                    }
                },
                _ => {},
            }
            let merged = match expected {
                Some(k) => Some(k),
                None => existing,
            };
            if at < reqs.len() {
                reqs.set(at, (id.clone(), merged));
            } else {
                reqs.push((id.clone(), merged));
            }
            assert(requirements_view(reqs@) =~= record_requirement(rv, id@, merged));
            let i = self.find(id.as_str());
            if i >= n {
                return Err(SnapshotError::MissingProfile { path, profile_id: id });
            }
            let actual = catalog[i].kind;
            match merged {
                Some(k) => {
                    if actual != k {
                        return Err(SnapshotError::KindMismatch { path, profile_id: id, expected: k, actual });
                    }
                },
                None => {},
            }
            if !flags[i] {
                proof {
                    lemma_select_decreases(flags@, i as int);
                }
                flags.set(i, true);
                let ghost before = requests_view(queue@);
                push_reference_requests(&mut queue, &catalog[i]);
                assert(requests_view(queue@).subrange(head as int, queue@.len() as int) =~= before.subrange(
                    head as int,
                    before.len() as int,
                ) + reference_requests(catalog@[i as int], catalog@[i as int].references@.len() as int));
            }
        }
        assert(requests_view(queue@).subrange(head as int, queue@.len() as int).len() == 0);
        let mut out: Vec<ProfileSnapshotEntry> = Vec::new();
        let mut j: usize = 0;
        while j < n
            invariant
                j <= n,
                n == catalog@.len(),
                flags@.len() == n,
                out@.map_values(|e: ProfileSnapshotEntry| entry_view(e)) =~= selected_entries(catalog@, flags@, j as int),
            decreases n - j,
        {
            if flags[j] {
                let p = &catalog[j];
                out.push(
                    ProfileSnapshotEntry {
                        id: p.id.clone(),
                        kind: p.kind,
                        profile_version: p.profile_version.clone(),
                        content_sha256: p.content_sha256.clone(),
                    },
                );
            }
            j = j + 1;
        }
        Ok(out)
    }
}

// ---------------------------------------------------------------------------
// Catalog maintenance and reference checks.

pub open spec fn has_profile(catalog: Seq<CatalogProfile>, id: Seq<char>) -> bool {
    exists|k: int| 0 <= k < catalog.len() && (#[trigger] catalog[k]).id@ == id
}

/// The `Debug` name of a profile kind.
pub open spec fn kind_name(k: ProfileKind) -> Seq<char> {
    match k {
        ProfileKind::Camera => "Camera"@,
        ProfileKind::Lens => "Lens"@,
        ProfileKind::DigitalSensor => "DigitalSensor"@,
        ProfileKind::Film => "Film"@,
        ProfileKind::Development => "Development"@,
        ProfileKind::Print => "Print"@,
        ProfileKind::Display => "Display"@,
        ProfileKind::OutputTransform => "OutputTransform"@,
        ProfileKind::Synthetic => "Synthetic"@,
    }
}

fn kind_label(k: ProfileKind) -> (r: &'static str)
    ensures
        r@ == kind_name(k),
{
    match k {
        ProfileKind::Camera => "Camera",
        ProfileKind::Lens => "Lens",
        ProfileKind::DigitalSensor => "DigitalSensor",
        ProfileKind::Film => "Film",
        ProfileKind::Development => "Development",
        ProfileKind::Print => "Print",
        ProfileKind::Display => "Display",
        ProfileKind::OutputTransform => "OutputTransform",
        ProfileKind::Synthetic => "Synthetic",
    }
}

pub open spec fn reference_field_path(owner: Seq<char>, index: nat, field: Seq<char>) -> Seq<char> {
    "profiles["@ + owner + "].references["@ + decimal(index) + field
}

/// The first unresolvable reference of profile `p`, from its `j`-th on.
pub open spec fn profile_reference_fault(catalog: Seq<CatalogProfile>, p: CatalogProfile, j: int) -> Option<(Seq<char>, Seq<char>)>
    decreases p.references@.len() - j,
{
    if j < 0 || j >= p.references@.len() {
        None
    } else {
        let reference = p.references@[j];
        let t = profile_index(catalog, reference.profile_id@, 0);
        if t >= catalog.len() {
            Some(
                (
                    reference_field_path(p.id@, j as nat, "].profile_id"@),
                    "referenced profile not found: "@ + reference.profile_id@,
                ),
            )
        } else if reference.expected_kind is Some && catalog[t].kind != reference.expected_kind->0 {
            Some(
                (
                    reference_field_path(p.id@, j as nat, "].expected_kind"@),
                    "expected "@ + kind_name(reference.expected_kind->0) + ", found "@ + kind_name(catalog[t].kind)
                        + " for "@ + reference.profile_id@,
                ),
            )
        } else {
            profile_reference_fault(catalog, p, j + 1)
        }
    }
}

/// The first unresolvable reference of the catalog's profiles from the
/// `i`-th on, in id order.
pub open spec fn catalog_reference_fault(catalog: Seq<CatalogProfile>, i: int) -> Option<(Seq<char>, Seq<char>)>
    decreases catalog.len() - i,
{
    if i < 0 || i >= catalog.len() {
        None
    } else if profile_reference_fault(catalog, catalog[i], 0) is Some {
        profile_reference_fault(catalog, catalog[i], 0)
    } else {
        catalog_reference_fault(catalog, i + 1)
    }
}

impl ProfileCatalog {
    /// Adds a profile whose validation outcome is `validation`: its error is
    /// passed on, a second profile with the same id is refused, and
    /// otherwise the profile takes its place in id order.
    pub fn insert(&mut self, profile: CatalogProfile, validation: Result<(), ProfileError>) -> (r: Result<
        (),
        ProfileError,
    >)
        requires
            old(self).wf(),
        ensures
            final(self).wf(),
            validation is Err ==> r == validation && final(self).spec_profiles() == old(self).spec_profiles(),
            validation is Ok && has_profile(old(self).spec_profiles(), profile.id@) ==> (r matches Err(e) && e.path@
                == "$.id"@ && e.reason@ == "duplicate profile id: "@ + profile.id@) && final(self).spec_profiles()
                == old(self).spec_profiles(),
            validation is Ok && !has_profile(old(self).spec_profiles(), profile.id@) ==> r is Ok && exists|p: int|
                0 <= p <= old(self).spec_profiles().len() && final(self).spec_profiles() == old(
                    self,
                ).spec_profiles().insert(p, profile),
    {
        validation?;
        let v = &mut self.profiles;
        let mut p: usize = 0;
        while p < v.len() && text_before(v[p].id.as_str(), profile.id.as_str())
            invariant
                p <= v@.len(),
                catalog_sorted(v@),
                v@ == old(self).profiles@,
                forall|k: int| 0 <= k < p ==> text_lt((#[trigger] v@[k]).id@, profile.id@),
            decreases v.len() - p,
        {
            p = p + 1;
        }
        if p < v.len() && str_eq(v[p].id.as_str(), profile.id.as_str()) {
            assert(has_profile(v@, profile.id@)) by {
                assert(v@[p as int].id@ == profile.id@);
            }
            let mut reason = owned("duplicate profile id: ");
            push_str(&mut reason, profile.id.as_str());
            return Err(ProfileError { path: owned("$.id"), reason });
        }
        proof {
            if p < v@.len() {
                crate::media_index::lemma_text_lt_total(v@[p as int].id@, profile.id@);
            }
            assert forall|k: int| p <= k < v@.len() implies text_lt(profile.id@, (#[trigger] v@[k]).id@) by {
                if k > p {
                    crate::media_index::lemma_text_lt_transitive(profile.id@, v@[p as int].id@, v@[k].id@);
                }
            }
            assert(!has_profile(v@, profile.id@)) by {
                if has_profile(v@, profile.id@) {
                    let k = choose|k: int| 0 <= k < v@.len() && (#[trigger] v@[k]).id@ == profile.id@;
                    crate::media_index::lemma_text_lt_irreflexive(profile.id@);
                    if k < p {
                        assert(text_lt(v@[k].id@, profile.id@));
                    } else {
                        assert(text_lt(profile.id@, v@[k].id@));
                    }
                }
            }
        }
        let ghost before = v@;
        let ghost e = profile;
        v.insert(p, profile);
        proof {
            let w = v@;
            assert(w == before.insert(p as int, e));
            assert forall|i: int, j: int| 0 <= i < j < w.len() implies text_lt(
                (#[trigger] w[i]).id@,
                (#[trigger] w[j]).id@,
            ) by {
                if j < p {
                    assert(w[i] == before[i] && w[j] == before[j]);
                } else if j == p {
                    assert(w[i] == before[i]);
                } else if i < p {
                    assert(w[i] == before[i] && w[j] == before[j - 1]);
                    crate::media_index::lemma_text_lt_transitive(before[i].id@, e.id@, before[j - 1].id@);
                } else if i == p {
                    assert(w[j] == before[j - 1]);
                } else {
                    assert(w[i] == before[i - 1] && w[j] == before[j - 1]);
                }
            }
        }
        Ok(())
    }

    /// Every reference names a profile of the catalog, of the expected kind
    /// when one is stated.
    pub fn validate_references(&self) -> (r: Result<(), ProfileError>)
        ensures
            match catalog_reference_fault(self.spec_profiles(), 0) {
                None => r is Ok,
                Some((path, reason)) => r matches Err(e) && e.path@ == path && e.reason@ == reason,
            },
    {
        let catalog = &self.profiles;
        let mut i: usize = 0;
        while i < catalog.len()
            invariant
                i <= catalog@.len(),
                catalog@ == self.spec_profiles(),
                catalog_reference_fault(catalog@, 0) == catalog_reference_fault(catalog@, i as int),
            decreases catalog.len() - i,
        {
            let p = &catalog[i];
            let mut j: usize = 0;
            while j < p.references.len()
                invariant
                    j <= p.references@.len(),
                    catalog@ == self.spec_profiles(),
                    *p == catalog@[i as int],
                    i < catalog@.len(),
                    catalog_reference_fault(catalog@, 0) == catalog_reference_fault(catalog@, i as int),
                    profile_reference_fault(catalog@, *p, 0) == profile_reference_fault(catalog@, *p, j as int),
                decreases p.references.len() - j,
            {
                let reference = &p.references[j];
                let t = self.find(reference.profile_id.as_str());
                if t >= catalog.len() {
                    let mut path = owned("profiles[");
                    push_str(&mut path, p.id.as_str());
                    push_str(&mut path, "].references[");
                    push_decimal(&mut path, j as u64);
                    push_str(&mut path, "].profile_id");
                    let mut reason = owned("referenced profile not found: ");
                    push_str(&mut reason, reference.profile_id.as_str());
                    return Err(ProfileError { path, reason });
                }
                match reference.expected_kind {
                    Some(expected) => {
                        let actual = catalog[t].kind;
                        if actual != expected {
                            let mut path = owned("profiles[");
                            push_str(&mut path, p.id.as_str());
                            push_str(&mut path, "].references[");
                            push_decimal(&mut path, j as u64);
                            push_str(&mut path, "].expected_kind");
                            let mut reason = owned("expected ");
                            push_str(&mut reason, kind_label(expected));
                            push_str(&mut reason, ", found ");
                            push_str(&mut reason, kind_label(actual));
                            push_str(&mut reason, " for ");
                            push_str(&mut reason, reference.profile_id.as_str());
                            return Err(ProfileError { path, reason });
                        }
                    },
                    None => {},
                }
                j = j + 1;
            }
            i = i + 1;
        }
        Ok(())
    }
}

// ---------------------------------------------------------------------------
// Laws.

proof fn lemma_selected_from(catalog: Seq<CatalogProfile>, flags: Seq<bool>, n: int, x: int)
    requires
        0 <= n <= catalog.len(),
        n <= flags.len(),
        0 <= x < selected_entries(catalog, flags, n).len(),
    ensures
        exists|k: int| 0 <= k < n && selected_entries(catalog, flags, n)[x] == entry_of(#[trigger] catalog[k]),
    decreases n,
{
    if n > 0 {
        let before = selected_entries(catalog, flags, n - 1);
        if flags[n - 1] && x == before.len() {
            assert(selected_entries(catalog, flags, n)[x] == entry_of(catalog[n - 1]));
        } else {
            lemma_selected_from(catalog, flags, n - 1, x);
            let k = choose|k: int| 0 <= k < n - 1 && before[x] == entry_of(#[trigger] catalog[k]);
            assert(selected_entries(catalog, flags, n)[x] == entry_of(catalog[k]));
        }
    }
}

/// A snapshot lists its profiles in strictly ascending id order, so each
/// profile appears once: the entries of any selection from a catalog kept in
/// id order are in id order.
pub proof fn law_snapshot_entries_ascend(catalog: Seq<CatalogProfile>, flags: Seq<bool>, n: int)
    requires
        catalog_sorted(catalog),
        0 <= n <= catalog.len(),
        n <= flags.len(),
    ensures
        forall|a: int, b: int|
            0 <= a < b < selected_entries(catalog, flags, n).len() ==> text_lt(
                (#[trigger] selected_entries(catalog, flags, n)[a]).0,
                (#[trigger] selected_entries(catalog, flags, n)[b]).0,
            ),
    decreases n,
{
    if n > 0 {
        law_snapshot_entries_ascend(catalog, flags, n - 1);
        let before = selected_entries(catalog, flags, n - 1);
        let now = selected_entries(catalog, flags, n);
        assert forall|a: int, b: int| 0 <= a < b < now.len() implies text_lt((#[trigger] now[a]).0, (#[trigger] now[b]).0) by {
            if flags[n - 1] && b == before.len() {
                lemma_selected_from(catalog, flags, n - 1, a);
                let k = choose|k: int| 0 <= k < n - 1 && before[a] == entry_of(#[trigger] catalog[k]);
                assert(now[a] == before[a]);
                assert(now[b] == entry_of(catalog[n - 1]));
            } else {
                assert(now[a] == before[a] && now[b] == before[b]);
            }
        }
    }
}

proof fn lemma_resolve_keeps_selection(
    catalog: Seq<CatalogProfile>,
    queue: Seq<RequestView>,
    reqs: Seq<(Seq<char>, Option<ProfileKind>)>,
    flags: Seq<bool>,
)
    requires
        flags.len() == catalog.len(),
        resolve(catalog, queue, reqs, flags) is Ok,
    ensures
        resolve(catalog, queue, reqs, flags)->Ok_0.len() == flags.len(),
        forall|i: int| 0 <= i < flags.len() && flags[i] ==> #[trigger] resolve(catalog, queue, reqs, flags)->Ok_0[i],
    decreases count_unselected(flags), queue.len(),
{
    if queue.len() > 0 {
        let r = queue[0];
        let rest = queue.drop_first();
        let existing = requirement(reqs, r.id, 0);
        let merged = if r.expected_kind is Some {
            r.expected_kind
        } else {
            existing
        };
        let reqs2 = record_requirement(reqs, r.id, merged);
        let i = profile_index(catalog, r.id, 0);
        lemma_profile_index_bounds(catalog, r.id, 0);
        if flags[i] {
            lemma_resolve_keeps_selection(catalog, rest, reqs2, flags);
        } else {
            lemma_select_decreases(flags, i);
            let next = rest + reference_requests(catalog[i], catalog[i].references@.len() as int);
            lemma_resolve_keeps_selection(catalog, next, reqs2, flags.update(i, true));
            assert forall|k: int| 0 <= k < flags.len() && flags[k] implies #[trigger] resolve(
                catalog,
                queue,
                reqs,
                flags,
            )->Ok_0[k] by {
                assert(flags.update(i, true)[k]);
            }
        }
    }
}

/// A snapshot that resolves is complete for what was asked: every request
/// names a catalog profile of the kind it states, and that profile is
/// selected.
pub proof fn law_requests_are_satisfied(
    catalog: Seq<CatalogProfile>,
    queue: Seq<RequestView>,
    reqs: Seq<(Seq<char>, Option<ProfileKind>)>,
    flags: Seq<bool>,
)
    requires
        flags.len() == catalog.len(),
        resolve(catalog, queue, reqs, flags) is Ok,
    ensures
        forall|q: int|
            0 <= q < queue.len() ==> {
                let i = profile_index(catalog, (#[trigger] queue[q]).id, 0);
                &&& i < catalog.len()
                &&& resolve(catalog, queue, reqs, flags)->Ok_0[i]
                &&& queue[q].expected_kind matches Some(k) ==> catalog[i].kind == k
            },
    decreases count_unselected(flags), queue.len(),
{
    if queue.len() > 0 {
        let r = queue[0];
        let rest = queue.drop_first();
        let existing = requirement(reqs, r.id, 0);
        let merged = if r.expected_kind is Some {
            r.expected_kind
        } else {
            existing
        };
        let reqs2 = record_requirement(reqs, r.id, merged);
        let i = profile_index(catalog, r.id, 0);
        lemma_profile_index_bounds(catalog, r.id, 0);
        let next_queue = if flags[i] {
            rest
        } else {
            rest + reference_requests(catalog[i], catalog[i].references@.len() as int)
        };
        let next_flags = if flags[i] {
            flags
        } else {
            flags.update(i, true)
        };
        if !flags[i] {
            lemma_select_decreases(flags, i);
        }
        assert(resolve(catalog, queue, reqs, flags) == resolve(catalog, next_queue, reqs2, next_flags));
        law_requests_are_satisfied(catalog, next_queue, reqs2, next_flags);
        lemma_resolve_keeps_selection(catalog, next_queue, reqs2, next_flags);
        assert forall|q: int| 0 <= q < queue.len() implies {
            let j = profile_index(catalog, (#[trigger] queue[q]).id, 0);
            &&& j < catalog.len()
            &&& resolve(catalog, queue, reqs, flags)->Ok_0[j]
            &&& queue[q].expected_kind matches Some(k) ==> catalog[j].kind == k
        } by {
            if q == 0 {
                assert(next_flags[i]);
            } else {
                assert(queue[q] == next_queue[q - 1]);
            }
        }
    }
}

} // verus!
