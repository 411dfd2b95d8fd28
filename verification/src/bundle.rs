//! Multi-resource transfers: an asset's original and its derivatives, and the
//! dependency-safe order in which a receiver finalizes them.
use vstd::prelude::*;
use vstd::string::*;
use crate::asset::{CaptureMetadata, CapturedAsset, DerivativeProvenance, DerivativePurpose, AssetState};
use crate::camera::CapturedMediaType;
use crate::text::{owned, push_decimal, push_str, decimal, str_eq};
use crate::media_index::{lemma_text_lt_irreflexive, lemma_text_lt_total, lemma_text_lt_transitive, text_before, text_lt};
use crate::transfer::{
    Invitation, SharedMediaType, TransferError, TransferManifest, TransferSession, PROTOCOL_VERSION, manifest_error,
    safe_media_token, safe_media_token_text, session_error,
};

verus! {

#[derive(Debug, Clone, PartialEq, Eq)]
pub enum AssetSelection {
    Original,
    Derivatives { resource_ids: Vec<String> },
    OriginalAndDerivatives { resource_ids: Vec<String> },
}

#[derive(Debug, Clone, Copy, PartialEq, Eq, Structural)]
pub enum TransferResourceRole {
    Original,
    Derivative { purpose: DerivativePurpose },
}

#[derive(Debug, Clone, PartialEq, Eq)]
pub struct TransferResource {
    pub resource_id: String,
    pub role: TransferResourceRole,
    pub derivative_provenance: Option<DerivativeProvenance>,
    pub manifest: TransferManifest,
}

#[derive(Debug, Clone, PartialEq, Eq)]
pub struct AssetTransferManifest {
    pub schema_version: u16,
    pub source_asset_id: String,
    pub media_type: CapturedMediaType,
    pub capture: CaptureMetadata,
    pub selection: AssetSelection,
    pub resources: Vec<TransferResource>,
}

/// Coordinates dependency-safe receipt of an Original + Derivative bundle.
pub struct BundleReceiveCoordinator {
    bundle: AssetTransferManifest,
    local_asset_id: String,
    source_to_local: Vec<(String, String)>,
    completed_resources: Vec<String>,
}

// ---------------------------------------------------------------------------
// Bundle validation.

pub open spec fn shared_as_captured(t: SharedMediaType) -> CapturedMediaType {
    match t {
        SharedMediaType::Photo => CapturedMediaType::Photo,
        SharedMediaType::Video => CapturedMediaType::Video,
    }
}

pub open spec fn id_of(r: TransferResource) -> Seq<char> {
    r.resource_id@
}

pub open spec fn parent_of(r: TransferResource) -> Seq<char> {
    r.derivative_provenance->0.parent_resource_id@
}

/// What is wrong with resource `i`, given that the ones before it passed.
pub open spec fn resource_error(rs: Seq<TransferResource>, media: CapturedMediaType, i: int) -> Option<TransferError> {
    let r = rs[i];
    if manifest_error(r.manifest) is Some {
        manifest_error(r.manifest)
    } else if shared_as_captured(r.manifest.media_type) != media {
        Some(TransferError::InvalidBundle)
    } else if exists|j: int| 0 <= j < i && (id_of(#[trigger] rs[j]) == id_of(r) || rs[j].manifest.transfer_id@ == r.manifest.transfer_id@) {
        Some(TransferError::InvalidBundle)
    } else {
        match r.role {
            TransferResourceRole::Original => if r.derivative_provenance is Some {
                Some(TransferError::InvalidBundle)
            } else {
                None
            },
            TransferResourceRole::Derivative { .. } => if r.derivative_provenance is None {
                Some(TransferError::MissingDerivativeProvenance)
            } else {
                None
            },
        }
    }
}

/// The first error among the first `k` resources.
pub open spec fn resources_error(rs: Seq<TransferResource>, media: CapturedMediaType, k: int) -> Option<TransferError>
    decreases k,
{
    if k <= 0 {
        None
    } else {
        match resources_error(rs, media, k - 1) {
            Some(e) => Some(e),
            None => resource_error(rs, media, k - 1),
        }
    }
}

pub open spec fn count_role(rs: Seq<TransferResource>, original: bool) -> nat
    decreases rs.len(),
{
    if rs.len() == 0 {
        0
    } else {
        count_role(rs.drop_last(), original) + if (rs.last().role is Original) == original {
            1nat
        } else {
            0nat
        }
    }
}

/// The derivatives the selection declares are exactly the derivative resources.
pub open spec fn is_derivative_id(rs: Seq<TransferResource>, id: Seq<char>) -> bool {
    exists|i: int| 0 <= i < rs.len() && rs[i].role is Derivative && id_of(#[trigger] rs[i]) == id
}

pub open spec fn is_declared(declared: Seq<String>, id: Seq<char>) -> bool {
    exists|k: int| 0 <= k < declared.len() && (#[trigger] declared[k])@ == id
}

pub open spec fn declared_match(declared: Seq<String>, rs: Seq<TransferResource>) -> bool {
    &&& forall|k: int| 0 <= k < declared.len() ==> is_derivative_id(rs, (#[trigger] declared[k])@)
    &&& forall|i: int| 0 <= i < rs.len() && (#[trigger] rs[i]).role is Derivative ==> is_declared(declared, id_of(rs[i]))
}

pub open spec fn has_id(rs: Seq<TransferResource>, id: Seq<char>) -> bool {
    exists|j: int| 0 <= j < rs.len() && id_of(#[trigger] rs[j]) == id
}

pub open spec fn parents_present(rs: Seq<TransferResource>) -> bool {
    forall|i: int| 0 <= i < rs.len() && (#[trigger] rs[i]).role is Derivative ==> has_id(rs, parent_of(rs[i]))
}

/// The index of the resource with the given identifier.
pub open spec fn index_of_id(rs: Seq<TransferResource>, id: Seq<char>) -> int {
    choose|j: int| 0 <= j < rs.len() && id_of(rs[j]) == id
}

/// Following parents from resource `i` reaches the original within `fuel` steps.
pub open spec fn grounded(rs: Seq<TransferResource>, i: int, fuel: nat) -> bool
    decreases fuel,
{
    if rs[i].role is Original {
        true
    } else if fuel == 0 {
        false
    } else {
        grounded(rs, index_of_id(rs, parent_of(rs[i])), (fuel - 1) as nat)
    }
}

pub open spec fn all_grounded(rs: Seq<TransferResource>) -> bool {
    forall|i: int| 0 <= i < rs.len() ==> #[trigger] grounded(rs, i, rs.len())
}

pub open spec fn selection_ids(s: AssetSelection) -> Seq<String> {
    match s {
        AssetSelection::Original => Seq::empty(),
        AssetSelection::Derivatives { resource_ids } => resource_ids@,
        AssetSelection::OriginalAndDerivatives { resource_ids } => resource_ids@,
    }
}

/// Why a bundle cannot be received, in the order the checks are made.
pub open spec fn bundle_error(b: AssetTransferManifest, local_asset_id: Seq<char>) -> Option<TransferError> {
    let rs = b.resources@;
    if b.schema_version != PROTOCOL_VERSION || !safe_media_token_text(local_asset_id)
        || !(b.selection is OriginalAndDerivatives) {
        Some(TransferError::InvalidBundle)
    } else if resources_error(rs, b.media_type, rs.len() as int) is Some {
        resources_error(rs, b.media_type, rs.len() as int)
    } else if count_role(rs, true) != 1 || count_role(rs, false) == 0 {
        Some(TransferError::InvalidBundle)
    } else if !declared_match(selection_ids(b.selection), rs) {
        Some(TransferError::InvalidBundle)
    } else if !parents_present(rs) {
        Some(TransferError::InvalidBundle)
    } else if !all_grounded(rs) {
        Some(TransferError::InvalidBundle)
    } else {
        None
    }
}

fn find_id(rs: &Vec<TransferResource>, id: &str) -> (r: Option<usize>)
    ensures
        r matches Some(j) ==> j < rs@.len() && id_of(rs@[j as int]) == id@ && forall|k: int| 0 <= k < j ==> id_of(#[trigger] rs@[k]) != id@,
        r is None ==> !has_id(rs@, id@),
{
    let mut j: usize = 0;
    while j < rs.len()
        invariant
            j <= rs@.len(),
            forall|k: int| 0 <= k < j ==> id_of(#[trigger] rs@[k]) != id@,
        decreases rs.len() - j,
    {
        if str_eq(rs[j].resource_id.as_str(), id) {
            return Some(j);
        }
        j = j + 1;
    }
    None
}

fn string_in(v: &Vec<String>, id: &str) -> (r: bool)
    ensures
        r == exists|k: int| 0 <= k < v@.len() && (#[trigger] v@[k])@ == id@,
{
    let mut j: usize = 0;
    while j < v.len()
        invariant
            j <= v@.len(),
            forall|k: int| 0 <= k < j ==> (#[trigger] v@[k])@ != id@,
        decreases v.len() - j,
    {
        if str_eq(v[j].as_str(), id) {
            return true;
        }
        j = j + 1;
    }
    false
}

fn check_resource(rs: &Vec<TransferResource>, media: CapturedMediaType, i: usize) -> (r: Result<(), TransferError>)
    requires
        i < rs@.len(),
    ensures
        match resource_error(rs@, media, i as int) {
            Some(e) => r == Err::<(), TransferError>(e),
            None => r is Ok,
        },
{
    let r = &rs[i];
    r.manifest.validate()?;
    let resource_media = match r.manifest.media_type {
        SharedMediaType::Photo => CapturedMediaType::Photo,
        SharedMediaType::Video => CapturedMediaType::Video,
    };
    if resource_media != media {
        return Err(TransferError::InvalidBundle);
    }
    let mut j: usize = 0;
    while j < i
        invariant
            i < rs@.len(),
            j <= i,
            r == rs@[i as int],
            manifest_error(r.manifest) is None,
            shared_as_captured(r.manifest.media_type) == media,
            forall|k: int| 0 <= k < j ==> !(id_of(#[trigger] rs@[k]) == id_of(*r) || rs@[k].manifest.transfer_id@ == r.manifest.transfer_id@),
        decreases i - j,
    {
        if rs[j].resource_id == r.resource_id || rs[j].manifest.transfer_id == r.manifest.transfer_id {
            assert(id_of(rs@[j as int]) == id_of(*r) || rs@[j as int].manifest.transfer_id@ == r.manifest.transfer_id@);
            return Err(TransferError::InvalidBundle);
        }
        j = j + 1;
    }
    match r.role {
        TransferResourceRole::Original => if r.derivative_provenance.is_some() {
            Err(TransferError::InvalidBundle)
        } else {
            Ok(())
        },
        TransferResourceRole::Derivative { .. } => if r.derivative_provenance.is_none() {
            Err(TransferError::MissingDerivativeProvenance)
        } else {
            Ok(())
        },
    }
}

proof fn lemma_count_role_bound(rs: Seq<TransferResource>, original: bool)
    ensures
        count_role(rs, original) <= rs.len(),
    decreases rs.len(),
{
    if rs.len() > 0 {
        lemma_count_role_bound(rs.drop_last(), original);
    }
}

proof fn lemma_count_role_step(rs: Seq<TransferResource>, i: int, original: bool)
    requires
        0 <= i < rs.len(),
    ensures
        count_role(rs.subrange(0, i + 1), original) == count_role(rs.subrange(0, i), original) + if (rs[i].role is Original)
            == original {
            1nat
        } else {
            0nat
        },
{
    assert(rs.subrange(0, i + 1).drop_last() =~= rs.subrange(0, i));
}

proof fn lemma_resources_error_prefix(rs: Seq<TransferResource>, media: CapturedMediaType, k: int)
    requires
        resources_error(rs, media, k) is None,
    ensures
        forall|i: int| 0 <= i < k ==> #[trigger] resource_error(rs, media, i) is None,
    decreases k,
{
    if k > 0 {
        lemma_resources_error_prefix(rs, media, k - 1);
    }
}

pub open spec fn unique_ids(rs: Seq<TransferResource>) -> bool {
    forall|i: int, j: int| 0 <= i < rs.len() && 0 <= j < rs.len() && i != j ==> id_of(#[trigger] rs[i]) != id_of(#[trigger] rs[j])
}

proof fn lemma_unique_ids(rs: Seq<TransferResource>, media: CapturedMediaType)
    requires
        resources_error(rs, media, rs.len() as int) is None,
    ensures
        unique_ids(rs),
{
    lemma_resources_error_prefix(rs, media, rs.len() as int);
    assert forall|i: int, j: int| 0 <= i < rs.len() && 0 <= j < rs.len() && i != j implies id_of(#[trigger] rs[i]) != id_of(
        #[trigger] rs[j],
    ) by {
        if i < j {
            assert(resource_error(rs, media, j) is None);
            assert(!(id_of(rs[i]) == id_of(rs[j]) || rs[i].manifest.transfer_id@ == rs[j].manifest.transfer_id@));
        } else {
            assert(resource_error(rs, media, i) is None);
            assert(!(id_of(rs[j]) == id_of(rs[i]) || rs[j].manifest.transfer_id@ == rs[i].manifest.transfer_id@));
        }
    }
}

proof fn lemma_index_of_id(rs: Seq<TransferResource>, j: int)
    requires
        unique_ids(rs),
        0 <= j < rs.len(),
    ensures
        index_of_id(rs, id_of(rs[j])) == j,
{
    let k = index_of_id(rs, id_of(rs[j]));
    assert(0 <= k < rs.len() && id_of(rs[k]) == id_of(rs[j]));
}

/// Whether following parents from resource `i` reaches the original.
fn walk_to_original(rs: &Vec<TransferResource>, i: usize) -> (r: bool)
    requires
        i < rs@.len(),
        unique_ids(rs@),
        parents_present(rs@),
        forall|k: int| 0 <= k < rs@.len() && (#[trigger] rs@[k]).role is Derivative ==> rs@[k].derivative_provenance is Some,
    ensures
        r == grounded(rs@, i as int, rs@.len()),
{
    let mut cur = i;
    let mut fuel: usize = rs.len();
    while !matches!(rs[cur].role, TransferResourceRole::Original)
        invariant
            cur < rs@.len(),
            fuel <= rs@.len(),
            unique_ids(rs@),
            parents_present(rs@),
            forall|k: int| 0 <= k < rs@.len() && (#[trigger] rs@[k]).role is Derivative ==> rs@[k].derivative_provenance is Some,
            grounded(rs@, i as int, rs@.len()) == grounded(rs@, cur as int, fuel as nat),
        decreases fuel,
    {
        if fuel == 0 {
            return false;
        }
        let parent = match &rs[cur].derivative_provenance {
            Some(p) => p.parent_resource_id.as_str(),
            None => return false,
        };
        assert(has_id(rs@, parent_of(rs@[cur as int])));
        let next = match find_id(rs, parent) {
            Some(j) => j,
            None => return false,
        };
        proof {
            lemma_index_of_id(rs@, next as int);
        }
        cur = next;
        fuel = fuel - 1;
    }
    true
}

proof fn lemma_resources_error_sticks(rs: Seq<TransferResource>, media: CapturedMediaType, i: int, k: int)
    requires
        0 <= i < k,
        resources_error(rs, media, i + 1) is Some,
    ensures
        resources_error(rs, media, k) == resources_error(rs, media, i + 1),
    decreases k - i,
{
    if k > i + 1 {
        lemma_resources_error_sticks(rs, media, i, k - 1);
    }
}

/// Checks every resource in order; on success, the numbers of originals and derivatives.
fn scan_resources(rs: &Vec<TransferResource>, media: CapturedMediaType) -> (r: Result<(usize, usize), TransferError>)
    ensures
        match resources_error(rs@, media, rs@.len() as int) {
            Some(e) => r matches Err(x) && x == e,
            None => r == Ok::<(usize, usize), TransferError>((count_role(rs@, true) as usize, count_role(rs@, false) as usize)),
        },
{
    let ghost g = rs@;
    let mut originals: usize = 0;
    let mut derivatives: usize = 0;
    let mut i: usize = 0;
    while i < rs.len()
        invariant
            g == rs@,
            i <= g.len(),
            resources_error(g, media, i as int) is None,
            originals == count_role(g.subrange(0, i as int), true),
            derivatives == count_role(g.subrange(0, i as int), false),
            originals <= i,
            derivatives <= i,
        decreases rs.len() - i,
    {
        match check_resource(rs, media, i) {
            Ok(()) => {},
            Err(e) => {
                proof {
                    lemma_resources_error_sticks(g, media, i as int, g.len() as int);
                }
                return Err(e);
            },
        }
        proof {
            lemma_count_role_step(g, i as int, true);
            lemma_count_role_step(g, i as int, false);
        }
        if matches!(rs[i].role, TransferResourceRole::Original) {
            originals = originals + 1;
        } else {
            derivatives = derivatives + 1;
        }
        i = i + 1;
    }
    assert(g.subrange(0, g.len() as int) =~= g);
    proof {
        lemma_count_role_bound(g, true);
        lemma_count_role_bound(g, false);
    }
    Ok((originals, derivatives))
}

fn declared_ok(declared: &Vec<String>, rs: &Vec<TransferResource>) -> (r: bool)
    requires
        unique_ids(rs@),
    ensures
        r == declared_match(declared@, rs@),
{
    let ghost g = rs@;
    let ghost d = declared@;
    let mut k: usize = 0;
    while k < declared.len()
        invariant
            g == rs@,
            d == declared@,
            unique_ids(g),
            k <= d.len(),
            forall|q: int| 0 <= q < k ==> is_derivative_id(g, (#[trigger] d[q])@),
        decreases declared.len() - k,
    {
        match find_id(rs, declared[k].as_str()) {
            Some(j) => {
                if matches!(rs[j].role, TransferResourceRole::Original) {
                    assert(!is_derivative_id(g, d[k as int]@)) by {
                        if is_derivative_id(g, d[k as int]@) {
                            let i = choose|i: int| 0 <= i < g.len() && g[i].role is Derivative && id_of(#[trigger] g[i]) == d[k as int]@;
                            assert(i != j);
                        }
                    }
                    return false;
                }
                assert(id_of(g[j as int]) == d[k as int]@);
                assert(is_derivative_id(g, d[k as int]@));
            },
            None => {
                assert(!is_derivative_id(g, d[k as int]@)) by {
                    if is_derivative_id(g, d[k as int]@) {
                        let i = choose|i: int| 0 <= i < g.len() && g[i].role is Derivative && id_of(#[trigger] g[i]) == d[k as int]@;
                        assert(has_id(g, d[k as int]@));
                    }
                }
                return false;
            },
        }
        k = k + 1;
    }
    let mut i: usize = 0;
    while i < rs.len()
        invariant
            g == rs@,
            d == declared@,
            i <= g.len(),
            forall|q: int| 0 <= q < d.len() ==> is_derivative_id(g, (#[trigger] d[q])@),
            forall|q: int| 0 <= q < i && (#[trigger] g[q]).role is Derivative ==> is_declared(d, id_of(g[q])),
        decreases rs.len() - i,
    {
        if matches!(rs[i].role, TransferResourceRole::Derivative { .. }) {
            if !string_in(declared, rs[i].resource_id.as_str()) {
                return false;
            }
        }
        i = i + 1;
    }
    true
}

fn parents_ok(rs: &Vec<TransferResource>) -> (r: bool)
    requires
        forall|k: int| 0 <= k < rs@.len() && (#[trigger] rs@[k]).role is Derivative ==> rs@[k].derivative_provenance is Some,
    ensures
        r == parents_present(rs@),
{
    let ghost g = rs@;
    let mut i: usize = 0;
    while i < rs.len()
        invariant
            g == rs@,
            i <= g.len(),
            forall|k: int| 0 <= k < g.len() && (#[trigger] g[k]).role is Derivative ==> g[k].derivative_provenance is Some,
            forall|q: int| 0 <= q < i && (#[trigger] g[q]).role is Derivative ==> has_id(g, parent_of(g[q])),
        decreases rs.len() - i,
    {
        if let Some(p) = &rs[i].derivative_provenance {
            if matches!(rs[i].role, TransferResourceRole::Derivative { .. }) {
                if find_id(rs, p.parent_resource_id.as_str()).is_none() {
                    return false;
                }
            }
        }
        i = i + 1;
    }
    true
}

fn grounded_ok(rs: &Vec<TransferResource>) -> (r: bool)
    requires
        unique_ids(rs@),
        parents_present(rs@),
        forall|k: int| 0 <= k < rs@.len() && (#[trigger] rs@[k]).role is Derivative ==> rs@[k].derivative_provenance is Some,
    ensures
        r == all_grounded(rs@),
{
    let ghost g = rs@;
    let mut i: usize = 0;
    while i < rs.len()
        invariant
            g == rs@,
            i <= g.len(),
            unique_ids(g),
            parents_present(g),
            forall|k: int| 0 <= k < g.len() && (#[trigger] g[k]).role is Derivative ==> g[k].derivative_provenance is Some,
            forall|q: int| 0 <= q < i ==> #[trigger] grounded(g, q, g.len()),
        decreases rs.len() - i,
    {
        if !walk_to_original(rs, i) {
            return false;
        }
        i = i + 1;
    }
    true
}

impl BundleReceiveCoordinator {
    pub closed spec fn spec_bundle(&self) -> AssetTransferManifest {
        self.bundle
    }

    pub closed spec fn spec_local_asset_id(&self) -> Seq<char> {
        self.local_asset_id@
    }

    /// Source resource identifiers mapped to the local identifiers they were stored under.
    pub closed spec fn spec_mapping(&self) -> Map<Seq<char>, Seq<char>> {
        pairs_map(self.source_to_local@)
    }

    /// Source resources already finalized locally.
    pub closed spec fn spec_completed(&self) -> Set<Seq<char>> {
        id_set(self.completed_resources@)
    }

    pub closed spec fn wf(&self) -> bool {
        &&& unique_keys(self.source_to_local@)
        &&& keys_ascending(self.source_to_local@)
    }

    /// Accepts a bundle whose resources are valid, consistent with the
    /// selection, and whose derivatives all descend from its one original.
    pub fn new(bundle: AssetTransferManifest, local_asset_id: String) -> (r: Result<Self, TransferError>)
        ensures
            match bundle_error(bundle, local_asset_id@) {
                Some(e) => r matches Err(x) && x == e,
                None => r matches Ok(c) && c.wf() && c.spec_bundle() == bundle && c.spec_local_asset_id() == local_asset_id@
                    && c.spec_mapping() == Map::<Seq<char>, Seq<char>>::empty() && c.spec_completed() == Set::<
                    Seq<char>,
                >::empty(),
            },
    {
        let declared: &Vec<String> = match &bundle.selection {
            AssetSelection::OriginalAndDerivatives { resource_ids } => resource_ids,
            _ => return Err(TransferError::InvalidBundle),
        };
        if bundle.schema_version != PROTOCOL_VERSION || !safe_media_token(local_asset_id.as_str()) {
            return Err(TransferError::InvalidBundle);
        }
        let rs = &bundle.resources;
        let (originals, derivatives) = scan_resources(rs, bundle.media_type)?;
        let _n: usize = rs.len();
        proof {
            lemma_count_role_bound(rs@, true);
            lemma_count_role_bound(rs@, false);
        }
        assert(originals == count_role(rs@, true));
        assert(derivatives == count_role(rs@, false));
        assert(resources_error(bundle.resources@, bundle.media_type, bundle.resources@.len() as int) is None);
        if originals != 1 || derivatives == 0 {
            return Err(TransferError::InvalidBundle);
        }
        assert(declared@ == selection_ids(bundle.selection));
        proof {
            lemma_unique_ids(rs@, bundle.media_type);
            lemma_resources_error_prefix(rs@, bundle.media_type, rs@.len() as int);
            assert forall|k: int| 0 <= k < rs@.len() && (#[trigger] rs@[k]).role is Derivative implies rs@[k].derivative_provenance is Some by {
                assert(resource_error(rs@, bundle.media_type, k) is None);
            }
        }
        if !declared_ok(declared, rs) {
            return Err(TransferError::InvalidBundle);
        }
        if !parents_ok(rs) {
            return Err(TransferError::InvalidBundle);
        }
        if !grounded_ok(rs) {
            return Err(TransferError::InvalidBundle);
        }
        let c = BundleReceiveCoordinator {
            bundle,
            local_asset_id,
            source_to_local: Vec::new(),
            completed_resources: Vec::new(),
        };
        assert(c.spec_mapping() == Map::<Seq<char>, Seq<char>>::empty());
        assert(c.spec_completed() =~= Set::<Seq<char>>::empty()) by {
            assert(c.completed_resources@.len() == 0);
        }
        Ok(c)
    }
}

/// The identifiers held in a list of strings.
pub open spec fn id_set(v: Seq<String>) -> Set<Seq<char>> {
    Set::new(|id: Seq<char>| exists|i: int| 0 <= i < v.len() && (#[trigger] v[i])@ == id)
}

proof fn lemma_id_set_push(v: Seq<String>, s: String)
    ensures
        id_set(v.push(s)) == id_set(v).insert(s@),
{
    let w = v.push(s);
    assert forall|id: Seq<char>| id_set(w).contains(id) == id_set(v).insert(s@).contains(id) by {
        if id == s@ {
            assert(w[v.len() as int]@ == id);
        }
        if id_set(v).contains(id) {
            let i = choose|i: int| 0 <= i < v.len() && (#[trigger] v[i])@ == id;
            assert(w[i]@ == id);
        }
        if id_set(w).contains(id) {
            let i = choose|i: int| 0 <= i < w.len() && (#[trigger] w[i])@ == id;
            if i < v.len() {
                assert(v[i]@ == id);
            }
        }
    }
    assert(id_set(w) =~= id_set(v).insert(s@));
}

/// Pairs read as a map, later pairs overriding earlier ones.
pub open spec fn pairs_map(v: Seq<(String, String)>) -> Map<Seq<char>, Seq<char>>
    decreases v.len(),
{
    if v.len() == 0 {
        Map::empty()
    } else {
        pairs_map(v.drop_last()).insert(v.last().0@, v.last().1@)
    }
}

pub open spec fn unique_keys(v: Seq<(String, String)>) -> bool {
    forall|i: int, j: int| 0 <= i < v.len() && 0 <= j < v.len() && i != j ==> (#[trigger] v[i]).0@ != (#[trigger] v[j]).0@
}

proof fn lemma_pairs_map_update(v: Seq<(String, String)>, i: int, p: (String, String))
    requires
        unique_keys(v),
        0 <= i < v.len(),
        v[i].0@ == p.0@,
    ensures
        pairs_map(v.update(i, p)) == pairs_map(v).insert(p.0@, p.1@),
        unique_keys(v.update(i, p)),
    decreases v.len(),
{
    let w = v.update(i, p);
    assert forall|a: int, b: int| 0 <= a < w.len() && 0 <= b < w.len() && a != b implies (#[trigger] w[a]).0@ != (#[trigger] w[b]).0@ by {
        assert(v[a].0@ != v[b].0@);
    }
    if i == v.len() - 1 {
        assert(w.drop_last() =~= v.drop_last());
        assert(pairs_map(w) =~= pairs_map(v).insert(p.0@, p.1@));
    } else {
        assert(w.drop_last() =~= v.drop_last().update(i, p));
        assert(unique_keys(v.drop_last()));
        lemma_pairs_map_update(v.drop_last(), i, p);
        assert(v.last().0@ != p.0@) by {
            assert(v[v.len() - 1].0@ != v[i].0@);
        }
        assert(pairs_map(w) =~= pairs_map(v).insert(p.0@, p.1@));
    }
}

/// The pairs are in strictly ascending order of their keys.
pub open spec fn keys_ascending(v: Seq<(String, String)>) -> bool {
    forall|i: int, j: int| 0 <= i < j < v.len() ==> text_lt((#[trigger] v[i]).0@, (#[trigger] v[j]).0@)
}

proof fn lemma_pairs_map_insert(v: Seq<(String, String)>, p: int, pair: (String, String))
    requires
        unique_keys(v),
        0 <= p <= v.len(),
        forall|i: int| 0 <= i < v.len() ==> (#[trigger] v[i]).0@ != pair.0@,
    ensures
        unique_keys(v.insert(p, pair)),
        pairs_map(v.insert(p, pair)) == pairs_map(v).insert(pair.0@, pair.1@),
{
    let w = v.insert(p, pair);
    assert forall|a: int, b: int| 0 <= a < w.len() && 0 <= b < w.len() && a != b implies (#[trigger] w[a]).0@
        != (#[trigger] w[b]).0@ by {
        let va = if a < p { a } else { a - 1 };
        let vb = if b < p { b } else { b - 1 };
        if a != p && b != p {
            assert(w[a] == v[va] && w[b] == v[vb]);
            assert(v[va].0@ != v[vb].0@);
        } else if a == p {
            assert(w[b] == v[vb]);
        } else {
            assert(w[a] == v[va]);
        }
    }
    let m = pairs_map(v).insert(pair.0@, pair.1@);
    assert forall|x: Seq<char>| #[trigger] pairs_map(w).contains_key(x) <==> m.contains_key(x) by {
        lemma_pairs_map_lookup(w, x);
        lemma_pairs_map_lookup(v, x);
        if exists|i: int| 0 <= i < w.len() && (#[trigger] w[i]).0@ == x {
            let i = choose|i: int| 0 <= i < w.len() && (#[trigger] w[i]).0@ == x;
            if i < p {
                assert(v[i] == w[i]);
            } else if i > p {
                assert(v[i - 1] == w[i]);
            }
        }
        if exists|i: int| 0 <= i < v.len() && (#[trigger] v[i]).0@ == x {
            let i = choose|i: int| 0 <= i < v.len() && (#[trigger] v[i]).0@ == x;
            if i < p {
                assert(w[i] == v[i]);
            } else {
                assert(w[i + 1] == v[i]);
            }
        }
        if x == pair.0@ {
            assert(w[p] == pair);
        }
    }
    assert forall|x: Seq<char>| #[trigger] pairs_map(w).contains_key(x) implies pairs_map(w)[x] == m[x] by {
        lemma_pairs_map_lookup(w, x);
        lemma_pairs_map_lookup(v, x);
        if x == pair.0@ {
            assert(w[p] == pair);
        } else {
            let i = choose|i: int| 0 <= i < w.len() && (#[trigger] w[i]).0@ == x;
            if i < p {
                assert(v[i] == w[i]);
            } else {
                assert(i != p);
                assert(v[i - 1] == w[i]);
            }
        }
    }
    assert(pairs_map(w) =~= m);
}

/// Maps `key` to `value`, replacing an earlier mapping of the same key and
/// keeping the pairs in ascending key order.
fn insert_pair(v: &mut Vec<(String, String)>, key: String, value: String)
    requires
        unique_keys(old(v)@),
        keys_ascending(old(v)@),
    ensures
        unique_keys(final(v)@),
        keys_ascending(final(v)@),
        pairs_map(final(v)@) == pairs_map(old(v)@).insert(key@, value@),
{
    let mut p: usize = 0;
    while p < v.len() && text_before(v[p].0.as_str(), key.as_str())
        invariant
            p <= v@.len(),
            v@ == old(v)@,
            unique_keys(v@),
            keys_ascending(v@),
            forall|k: int| 0 <= k < p ==> text_lt((#[trigger] v@[k]).0@, key@),
        decreases v.len() - p,
    {
        p = p + 1;
    }
    if p < v.len() && str_eq(v[p].0.as_str(), key.as_str()) {
        let ghost before = v@;
        proof {
            lemma_pairs_map_update(before, p as int, (key, value));
        }
        v.set(p, (key, value));
        assert forall|i: int, j: int| 0 <= i < j < v@.len() implies text_lt((#[trigger] v@[i]).0@, (#[trigger] v@[j]).0@) by {
            assert(before[i].0@ == v@[i].0@ && before[j].0@ == v@[j].0@);
        }
        return;
    }
    proof {
        if p < v@.len() {
            lemma_text_lt_total(v@[p as int].0@, key@);
        }
        assert forall|k: int| p <= k < v@.len() implies text_lt(key@, (#[trigger] v@[k]).0@) by {
            if k > p {
                lemma_text_lt_transitive(key@, v@[p as int].0@, v@[k].0@);
            }
        }
        assert forall|k: int| 0 <= k < v@.len() implies (#[trigger] v@[k]).0@ != key@ by {
            lemma_text_lt_irreflexive(key@);
            if k < p {
                assert(text_lt(v@[k].0@, key@));
            } else {
                assert(text_lt(key@, v@[k].0@));
            }
        }
    }
    let ghost before = v@;
    proof {
        lemma_pairs_map_insert(before, p as int, (key, value));
    }
    v.insert(p, (key, value));
    proof {
        let w = v@;
        assert forall|i: int, j: int| 0 <= i < j < w.len() implies text_lt((#[trigger] w[i]).0@, (#[trigger] w[j]).0@) by {
            if j < p {
                assert(w[i] == before[i] && w[j] == before[j]);
            } else if j == p {
                assert(w[i] == before[i]);
            } else if i < p {
                assert(w[i] == before[i] && w[j] == before[j - 1]);
                lemma_text_lt_transitive(before[i].0@, key@, before[j - 1].0@);
            } else if i == p {
                assert(w[j] == before[j - 1]);
            } else {
                assert(w[i] == before[i - 1] && w[j] == before[j - 1]);
            }
        }
    }
}

/// The index of the first original resource.
pub open spec fn first_original_from(rs: Seq<TransferResource>, i: int) -> Option<int>
    decreases rs.len() - i,
{
    if i < 0 || i >= rs.len() {
        None
    } else if rs[i].role is Original {
        Some(i)
    } else {
        first_original_from(rs, i + 1)
    }
}

fn find_original(rs: &Vec<TransferResource>) -> (r: Option<usize>)
    ensures
        r matches Some(i) ==> first_original_from(rs@, 0) == Some(i as int) && i < rs@.len(),
        r is None ==> first_original_from(rs@, 0) is None,
{
    let mut i: usize = 0;
    while i < rs.len()
        invariant
            i <= rs@.len(),
            first_original_from(rs@, 0) == first_original_from(rs@, i as int),
        decreases rs.len() - i,
    {
        if matches!(rs[i].role, TransferResourceRole::Original) {
            return Some(i);
        }
        i = i + 1;
    }
    None
}

/// The local identifier a received derivative is stored under.
pub open spec fn peer_resource_id(local_asset_id: Seq<char>, index: nat) -> Seq<char> {
    local_asset_id + ":peer-"@ + decimal(index)
}

pub open spec fn has_derivative_id(asset: CapturedAsset, id: Seq<char>) -> bool {
    exists|i: int| 0 <= i < asset.derivatives@.len() && (#[trigger] asset.derivatives@[i]).resource_id@ == id
}

fn asset_has_derivative(asset: &CapturedAsset, id: &str) -> (r: bool)
    ensures
        r == has_derivative_id(*asset, id@),
{
    let mut i: usize = 0;
    while i < asset.derivatives.len()
        invariant
            i <= asset.derivatives@.len(),
            forall|k: int| 0 <= k < i ==> (#[trigger] asset.derivatives@[k]).resource_id@ != id@,
        decreases asset.derivatives.len() - i,
    {
        if str_eq(asset.derivatives[i].resource_id.as_str(), id) {
            return true;
        }
        i = i + 1;
    }
    false
}

pub open spec fn finalization_matches(c: BundleReceiveCoordinator, asset: CapturedAsset) -> bool {
    asset.id@ == c.spec_local_asset_id() && asset.state == AssetState::Finalized
}

/// Where a derivative of the bundle stands: its index, if the identifier names
/// a derivative resource.
pub open spec fn derivative_index(rs: Seq<TransferResource>, source_resource_id: Seq<char>) -> Option<int> {
    if has_id(rs, source_resource_id) {
        let i = choose|i: int| 0 <= i < rs.len() && id_of(rs[i]) == source_resource_id && forall|k: int|
            0 <= k < i ==> id_of(#[trigger] rs[k]) != source_resource_id;
        if rs[i].role is Derivative {
            Some(i)
        } else {
            None
        }
    } else {
        None
    }
}

proof fn lemma_first_id(rs: Seq<TransferResource>, id: Seq<char>, j: int)
    requires
        0 <= j < rs.len(),
        id_of(rs[j]) == id,
        forall|k: int| 0 <= k < j ==> id_of(#[trigger] rs[k]) != id,
    ensures
        has_id(rs, id),
        (choose|i: int| 0 <= i < rs.len() && id_of(rs[i]) == id && forall|k: int|
            0 <= k < i ==> id_of(#[trigger] rs[k]) != id) == j,
{
    let i = choose|i: int| 0 <= i < rs.len() && id_of(rs[i]) == id && forall|k: int|
        0 <= k < i ==> id_of(#[trigger] rs[k]) != id;
    assert(id_of(rs[j]) == id);
    if i < j {
        assert(id_of(rs[i]) != id);
    }
    if i > j {
        assert(id_of(rs[j]) != id);
    }
}

fn locate_derivative(rs: &Vec<TransferResource>, source_resource_id: &str) -> (r: Option<usize>)
    ensures
        r matches Some(i) ==> derivative_index(rs@, source_resource_id@) == Some(i as int) && i < rs@.len(),
        r is None ==> derivative_index(rs@, source_resource_id@) is None,
{
    match find_id(rs, source_resource_id) {
        None => None,
        Some(j) => {
            proof {
                lemma_first_id(rs@, source_resource_id@, j as int);
            }
            if matches!(rs[j].role, TransferResourceRole::Original) {
                None
            } else {
                Some(j)
            }
        },
    }
}

fn peer_id(local_asset_id: &String, index: usize) -> (r: String)
    ensures
        r@ == peer_resource_id(local_asset_id@, index as nat),
{
    let mut s = local_asset_id.clone();
    push_str(&mut s, ":peer-");
    push_decimal(&mut s, index as u64);
    proof {
        reveal_strlit(":peer-");
    }
    s
}

impl BundleReceiveCoordinator {
    /// Source resource identifiers mapped to the local identifiers finalized for them.
    /// The bundle being received.
    pub fn bundle(&self) -> (r: &AssetTransferManifest)
        ensures
            *r == self.spec_bundle(),
    {
        &self.bundle
    }

    pub fn source_to_local_resource_ids(&self) -> (r: &Vec<(String, String)>)
        requires
            self.wf(),
        ensures
            pairs_map(r@) == self.spec_mapping(),
            unique_keys(r@),
            keys_ascending(r@),
    {
        &self.source_to_local
    }

    /// Records that the bundle's original was finalized as `asset`.
    pub fn mark_original_finalized(&mut self, asset: &CapturedAsset) -> (r: Result<(), TransferError>)
        requires
            old(self).wf(),
        ensures
            final(self).wf(),
            final(self).spec_bundle() == old(self).spec_bundle(),
            final(self).spec_local_asset_id() == old(self).spec_local_asset_id(),
            !finalization_matches(*old(self), *asset) ==> r == Err::<(), TransferError>(
                TransferError::BundleFinalizationMismatch,
            ) && final(self).spec_mapping() == old(self).spec_mapping() && final(self).spec_completed() == old(
                self,
            ).spec_completed(),
            finalization_matches(*old(self), *asset) ==> match first_original_from(old(self).spec_bundle().resources@, 0) {
                None => r == Err::<(), TransferError>(TransferError::InvalidBundle) && final(self).spec_mapping()
                    == old(self).spec_mapping() && final(self).spec_completed() == old(self).spec_completed(),
                Some(i) => r is Ok && final(self).spec_mapping() == old(self).spec_mapping().insert(
                    id_of(old(self).spec_bundle().resources@[i]),
                    asset.original_resource_id@,
                ) && final(self).spec_completed() == old(self).spec_completed().insert(
                    id_of(old(self).spec_bundle().resources@[i]),
                ),
            },
    {
        if asset.id != self.local_asset_id || asset.state != AssetState::Finalized {
            return Err(TransferError::BundleFinalizationMismatch);
        }
        let i = match find_original(&self.bundle.resources) {
            Some(i) => i,
            None => return Err(TransferError::InvalidBundle),
        };
        let source_id = self.bundle.resources[i].resource_id.clone();
        insert_pair(&mut self.source_to_local, source_id.clone(), asset.original_resource_id.clone());
        proof {
            lemma_id_set_push(self.completed_resources@, source_id);
        }
        self.completed_resources.push(source_id);
        Ok(())
    }

    /// Records that the derivative `source_resource_id` of the bundle was
    /// finalized on `asset` under its local identifier.
    pub fn mark_derivative_finalized(&mut self, source_resource_id: &str, asset: &CapturedAsset) -> (r: Result<
        (),
        TransferError,
    >)
        requires
            old(self).wf(),
        ensures
            final(self).wf(),
            final(self).spec_bundle() == old(self).spec_bundle(),
            final(self).spec_local_asset_id() == old(self).spec_local_asset_id(),
            r is Err ==> final(self).spec_mapping() == old(self).spec_mapping() && final(self).spec_completed() == old(
                self,
            ).spec_completed(),
            !finalization_matches(*old(self), *asset) ==> r == Err::<(), TransferError>(
                TransferError::BundleFinalizationMismatch,
            ),
            finalization_matches(*old(self), *asset) ==> match derivative_index(
                old(self).spec_bundle().resources@,
                source_resource_id@,
            ) {
                None => r == Err::<(), TransferError>(TransferError::InvalidSelection),
                Some(i) => if has_derivative_id(*asset, peer_resource_id(old(self).spec_local_asset_id(), i as nat)) {
                    r is Ok && final(self).spec_mapping() == old(self).spec_mapping().insert(
                        source_resource_id@,
                        peer_resource_id(old(self).spec_local_asset_id(), i as nat),
                    ) && final(self).spec_completed() == old(self).spec_completed().insert(source_resource_id@)
                } else {
                    r == Err::<(), TransferError>(TransferError::BundleFinalizationMismatch)
                },
            },
    {
        if asset.id != self.local_asset_id || asset.state != AssetState::Finalized {
            return Err(TransferError::BundleFinalizationMismatch);
        }
        let index = match locate_derivative(&self.bundle.resources, source_resource_id) {
            Some(i) => i,
            None => return Err(TransferError::InvalidSelection),
        };
        let local_id = peer_id(&self.local_asset_id, index);
        if !asset_has_derivative(asset, local_id.as_str()) {
            return Err(TransferError::BundleFinalizationMismatch);
        }
        insert_pair(&mut self.source_to_local, owned(source_resource_id), local_id);
        let source = owned(source_resource_id);
        proof {
            lemma_id_set_push(self.completed_resources@, source);
        }
        self.completed_resources.push(source);
        Ok(())
    }
}

proof fn lemma_pairs_map_lookup(v: Seq<(String, String)>, k: Seq<char>)
    requires
        unique_keys(v),
    ensures
        pairs_map(v).contains_key(k) <==> exists|i: int| 0 <= i < v.len() && (#[trigger] v[i]).0@ == k,
        forall|i: int| 0 <= i < v.len() && (#[trigger] v[i]).0@ == k ==> pairs_map(v)[k] == v[i].1@,
    decreases v.len(),
{
    if v.len() > 0 {
        let u = v.drop_last();
        assert(unique_keys(u));
        lemma_pairs_map_lookup(u, k);
        assert forall|i: int| 0 <= i < v.len() && (#[trigger] v[i]).0@ == k implies pairs_map(v)[k] == v[i].1@ by {
            if i < v.len() - 1 {
                assert(u[i] == v[i]);
                assert(v[v.len() - 1].0@ != v[i].0@);
            }
        }
        if exists|i: int| 0 <= i < u.len() && (#[trigger] u[i]).0@ == k {
            let i = choose|i: int| 0 <= i < u.len() && (#[trigger] u[i]).0@ == k;
            assert(v[i].0@ == k);
        }
        if exists|i: int| 0 <= i < v.len() && (#[trigger] v[i]).0@ == k {
            let i = choose|i: int| 0 <= i < v.len() && (#[trigger] v[i]).0@ == k;
            if i < v.len() - 1 {
                assert(u[i].0@ == k);
            }
        }
    }
}

fn lookup_pair(v: &Vec<(String, String)>, key: &str) -> (r: Option<String>)
    requires
        unique_keys(v@),
    ensures
        r matches Some(s) ==> pairs_map(v@).contains_key(key@) && pairs_map(v@)[key@] == s@,
        r is None ==> !pairs_map(v@).contains_key(key@),
{
    proof {
        lemma_pairs_map_lookup(v@, key@);
    }
    let mut i: usize = 0;
    while i < v.len()
        invariant
            i <= v@.len(),
            unique_keys(v@),
            forall|k: int| 0 <= k < i ==> (#[trigger] v@[k]).0@ != key@,
        decreases v.len() - i,
    {
        if str_eq(v[i].0.as_str(), key) {
            proof {
                lemma_pairs_map_lookup(v@, key@);
                assert(v@[i as int].0@ == key@);
            }
            return Some(v[i].1.clone());
        }
        i = i + 1;
    }
    None
}

/// How a derivative of the bundle is stored locally: its position in the
/// bundle, its local identifier, and its parent's local identifier.
pub struct DerivativeReceivePlan {
    pub index: usize,
    pub resource_id: String,
    pub parent_resource_id: String,
}

impl BundleReceiveCoordinator {
    /// A session for the bundle's original and its position in the bundle.
    pub fn prepare_original_receive(&self, invitation: Invitation) -> (r: Result<(TransferSession, usize), TransferError>)
        ensures
            match first_original_from(self.spec_bundle().resources@, 0) {
                None => r == Err::<(TransferSession, usize), TransferError>(TransferError::InvalidBundle),
                Some(i) => if self.spec_completed().contains(id_of(self.spec_bundle().resources@[i])) {
                    r == Err::<(TransferSession, usize), TransferError>(TransferError::BundleResourceAlreadyFinalized)
                } else {
                    match session_error(invitation, self.spec_bundle().resources@[i].manifest) {
                        Some(e) => r == Err::<(TransferSession, usize), TransferError>(e),
                        None => r matches Ok((s, j)) && j == i && s.invitation == invitation && s.manifest
                            == self.spec_bundle().resources@[i].manifest && s.state is AwaitingApproval,
                    }
                },
            },
    {
        let i = match find_original(&self.bundle.resources) {
            Some(i) => i,
            None => return Err(TransferError::InvalidBundle),
        };
        if string_in(&self.completed_resources, self.bundle.resources[i].resource_id.as_str()) {
            return Err(TransferError::BundleResourceAlreadyFinalized);
        }
        let session = TransferSession::new(invitation, self.bundle.resources[i].manifest.duplicate())?;
        Ok((session, i))
    }

    /// A session for one derivative of the bundle, once its parent is finalized,
    /// and the identifiers it is stored under.
    pub fn prepare_derivative_receive(&self, source_resource_id: &str, invitation: Invitation) -> (r: Result<
        (TransferSession, DerivativeReceivePlan),
        TransferError,
    >)
        requires
            self.wf(),
        ensures
            self.spec_completed().contains(source_resource_id@) ==> (r matches Err(e) && e
                == TransferError::BundleResourceAlreadyFinalized),
            !self.spec_completed().contains(source_resource_id@) ==> match derivative_index(
                self.spec_bundle().resources@,
                source_resource_id@,
            ) {
                None => r matches Err(e) && e == TransferError::InvalidSelection,
                Some(i) => {
                    let res = self.spec_bundle().resources@[i];
                    if res.derivative_provenance is None {
                        r matches Err(e) && e == TransferError::MissingDerivativeProvenance
                    } else if !self.spec_mapping().contains_key(parent_of(res)) {
                        r matches Err(e) && e == TransferError::BundleDependencyNotFinalized
                    } else {
                        match session_error(invitation, res.manifest) {
                            Some(e) => r matches Err(x) && x == e,
                            None => r matches Ok((s, p)) && p.index == i && p.resource_id@ == peer_resource_id(
                                self.spec_local_asset_id(),
                                i as nat,
                            ) && p.parent_resource_id@ == self.spec_mapping()[parent_of(res)] && s.invitation
                                == invitation && s.manifest == res.manifest && s.state is AwaitingApproval,
                        }
                    }
                },
            },
    {
        if string_in(&self.completed_resources, source_resource_id) {
            return Err(TransferError::BundleResourceAlreadyFinalized);
        }
        let index = match locate_derivative(&self.bundle.resources, source_resource_id) {
            Some(i) => i,
            None => return Err(TransferError::InvalidSelection),
        };
        let source = &self.bundle.resources[index];
        let parent = match &source.derivative_provenance {
            Some(p) => p.parent_resource_id.as_str(),
            None => return Err(TransferError::MissingDerivativeProvenance),
        };
        let local_parent = match lookup_pair(&self.source_to_local, parent) {
            Some(p) => p,
            None => return Err(TransferError::BundleDependencyNotFinalized),
        };
        let resource_id = peer_id(&self.local_asset_id, index);
        let session = TransferSession::new(invitation, source.manifest.duplicate())?;
        Ok((session, DerivativeReceivePlan { index, resource_id, parent_resource_id: local_parent }))
    }
}

// ---------------------------------------------------------------------------
// Receiving one resource into the media index.

/// An original received into the index must be an original without
/// provenance, stored under a safe asset id; gives the captured media type.
pub fn check_original_resource(resource: &TransferResource, asset_id: &str) -> (r: Result<
    CapturedMediaType,
    TransferError,
>)
    ensures
        resource.role != TransferResourceRole::Original ==> r == Err::<CapturedMediaType, TransferError>(
            TransferError::InvalidSelection,
        ),
        resource.role == TransferResourceRole::Original && (resource.derivative_provenance is Some
            || !safe_media_token_text(asset_id@)) ==> r == Err::<CapturedMediaType, TransferError>(
            TransferError::InvalidSourceAsset,
        ),
        resource.role == TransferResourceRole::Original && resource.derivative_provenance is None
            && safe_media_token_text(asset_id@) ==> r == Ok::<CapturedMediaType, TransferError>(
            shared_as_captured(resource.manifest.media_type),
        ),
{
    if resource.role != TransferResourceRole::Original {
        return Err(TransferError::InvalidSelection);
    }
    if resource.derivative_provenance.is_some() || !safe_media_token(asset_id) {
        return Err(TransferError::InvalidSourceAsset);
    }
    Ok(
        match resource.manifest.media_type {
            SharedMediaType::Photo => CapturedMediaType::Photo,
            SharedMediaType::Video => CapturedMediaType::Video,
        },
    )
}

/// Why a derivative cannot be received onto `parent`.
pub open spec fn derivative_resource_error(resource: TransferResource, parent: CapturedAsset) -> Option<TransferError> {
    if !(resource.role is Derivative) {
        Some(TransferError::InvalidSelection)
    } else if resource.derivative_provenance is None {
        Some(TransferError::MissingDerivativeProvenance)
    } else if parent.state != AssetState::Finalized || !parent.has_resource(
        resource.derivative_provenance->0.parent_resource_id@,
    ) {
        Some(TransferError::DerivativeParentMismatch)
    } else if shared_as_captured(resource.manifest.media_type) != parent.media_type {
        Some(TransferError::DerivativeParentMismatch)
    } else {
        None
    }
}

/// A derivative received into the index must carry provenance naming a
/// resource of a finalized parent of the same media type; gives its purpose.
pub fn check_derivative_resource(resource: &TransferResource, parent: &CapturedAsset) -> (r: Result<
    DerivativePurpose,
    TransferError,
>)
    ensures
        match derivative_resource_error(*resource, *parent) {
            Some(e) => r == Err::<DerivativePurpose, TransferError>(e),
            None => r == Ok::<DerivativePurpose, TransferError>(resource.role->purpose),
        },
{
    let purpose = match resource.role {
        TransferResourceRole::Derivative { purpose } => purpose,
        TransferResourceRole::Original => return Err(TransferError::InvalidSelection),
    };
    let provenance = match &resource.derivative_provenance {
        Some(p) => p,
        None => return Err(TransferError::MissingDerivativeProvenance),
    };
    if parent.state != AssetState::Finalized || !parent.contains_resource(provenance.parent_resource_id.as_str()) {
        return Err(TransferError::DerivativeParentMismatch);
    }
    let media_type = match resource.manifest.media_type {
        SharedMediaType::Photo => CapturedMediaType::Photo,
        SharedMediaType::Video => CapturedMediaType::Video,
    };
    if media_type != parent.media_type {
        return Err(TransferError::DerivativeParentMismatch);
    }
    Ok(purpose)
}

} // verus!
