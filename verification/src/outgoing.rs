//! Building the manifests of outgoing transfers from captured assets.
use vstd::prelude::*;
use vstd::string::*;
use crate::asset::{AssetState, CapturedAsset, MediaResource, DerivativeProvenance, provenance_view};
use crate::bundle::{AssetSelection, AssetTransferManifest, TransferResource, TransferResourceRole, selection_ids};
use crate::camera::{CameraError, CapturedMediaType};
use crate::crypto::{hex_text, sha256_hex, sha256_of};
use crate::sanitize::{sanitized_jpeg, sanitized_jpeg_bytes};
use crate::text::{decimal, owned, push_decimal, push_str, str_eq};
use crate::transfer::{
    MetadataPolicy, SharedMediaType, TransferError, TransferManifest, PROTOCOL_VERSION, manifest_fields_error,
    safe_media_token, safe_media_token_text,
};

verus! {

/// What examining a source file found: its name, size and content digest.
pub struct SourceFile {
    pub file_name: String,
    pub byte_length: u64,
    pub sha256_hex: String,
}

/// One resource an outgoing transfer sends, before its file is examined.
pub struct ResourcePlan {
    pub resource_id: String,
    pub role: TransferResourceRole,
    pub path: String,
    pub transfer_id: String,
    /// The derivative of the asset this resource is, if it is one.
    pub derivative: Option<usize>,
}

pub struct PlanView {
    pub resource_id: Seq<char>,
    pub role: TransferResourceRole,
    pub path: Seq<char>,
    pub transfer_id: Seq<char>,
    pub derivative: Option<int>,
}

impl View for ResourcePlan {
    type V = PlanView;

    open spec fn view(&self) -> PlanView {
        PlanView {
            resource_id: self.resource_id@,
            role: self.role,
            path: self.path@,
            transfer_id: self.transfer_id@,
            derivative: match self.derivative {
                Some(d) => Some(d as int),
                None => None,
            },
        }
    }
}

/// Protocol media kind of a captured media kind.
pub open spec fn shared_media(m: CapturedMediaType) -> SharedMediaType {
    match m {
        CapturedMediaType::Photo => SharedMediaType::Photo,
        CapturedMediaType::Video => SharedMediaType::Video,
    }
}

/// The first derivative of the asset, at or after `i`, with the given identifier.
pub open spec fn derivative_named_from(asset: CapturedAsset, id: Seq<char>, i: int) -> Option<int>
    decreases asset.derivatives@.len() - i,
{
    if i < 0 || i >= asset.derivatives@.len() {
        None
    } else if asset.derivatives@[i].resource_id@ == id {
        Some(i)
    } else {
        derivative_named_from(asset, id, i + 1)
    }
}

/// The first derivative of the asset with the given identifier.
pub open spec fn derivative_named(asset: CapturedAsset, id: Seq<char>) -> Option<int> {
    derivative_named_from(asset, id, 0)
}

/// The derivative identifiers the selection names, each once, each of a
/// derivative the asset holds.
pub open spec fn derivatives_resolve(asset: CapturedAsset, ids: Seq<String>) -> bool {
    &&& ids.len() > 0
    &&& forall|a: int, b: int| 0 <= a < b < ids.len() ==> (#[trigger] ids[a])@ != (#[trigger] ids[b])@
    &&& forall|k: int| 0 <= k < ids.len() ==> derivative_named(asset, (#[trigger] ids[k])@) is Some
}

/// Why an asset cannot be offered with this selection and policy.
pub open spec fn selection_error(
    asset: CapturedAsset,
    selection: AssetSelection,
    prefix: Seq<char>,
    policy: MetadataPolicy,
) -> Option<TransferError> {
    if asset.state != AssetState::Finalized || !safe_media_token_text(prefix) {
        Some(TransferError::InvalidSourceAsset)
    } else if policy != MetadataPolicy::Preserve {
        Some(TransferError::MetadataSanitizationRequired)
    } else if !(selection is Original) && !derivatives_resolve(asset, selection_ids(selection)) {
        Some(TransferError::InvalidSelection)
    } else {
        None
    }
}

pub open spec fn includes_original(selection: AssetSelection) -> bool {
    selection is Original || selection is OriginalAndDerivatives
}

pub open spec fn original_plan(asset: CapturedAsset, prefix: Seq<char>) -> PlanView {
    PlanView {
        resource_id: asset.original_resource_id@,
        role: TransferResourceRole::Original,
        path: asset.original.path@,
        transfer_id: prefix + "-original"@,
        derivative: None,
    }
}

pub open spec fn derivative_plan(asset: CapturedAsset, prefix: Seq<char>, d: int, k: int) -> PlanView {
    let x = asset.derivatives@[d];
    PlanView {
        resource_id: x.resource_id@,
        role: TransferResourceRole::Derivative { purpose: x.purpose },
        path: x.resource.path@,
        transfer_id: prefix + "-derivative-"@ + decimal(k as nat),
        derivative: Some(d),
    }
}

/// The resources a selection sends, in order: the original first when it is
/// selected, then the derivatives in the order they are named.
pub open spec fn plan_spec(asset: CapturedAsset, selection: AssetSelection, prefix: Seq<char>) -> Seq<PlanView> {
    let ids = selection_ids(selection);
    let derivatives = Seq::new(
        ids.len(),
        |k: int| derivative_plan(asset, prefix, derivative_named(asset, ids[k]@)->0, k),
    );
    if includes_original(selection) {
        seq![original_plan(asset, prefix)] + derivatives
    } else {
        derivatives
    }
}

proof fn lemma_named_from_range(asset: CapturedAsset, id: Seq<char>, i: int)
    requires
        0 <= i,
    ensures
        derivative_named_from(asset, id, i) matches Some(d) ==> i <= d < asset.derivatives@.len(),
    decreases asset.derivatives@.len() - i,
{
    if i < asset.derivatives@.len() {
        lemma_named_from_range(asset, id, i + 1);
    }
}

fn find_derivative(asset: &CapturedAsset, id: &str) -> (r: Option<usize>)
    ensures
        r matches Some(j) ==> derivative_named(*asset, id@) == Some(j as int) && j < asset.derivatives@.len(),
        r is None ==> derivative_named(*asset, id@) is None,
{
    let mut j: usize = 0;
    while j < asset.derivatives.len()
        invariant
            j <= asset.derivatives@.len(),
            derivative_named(*asset, id@) == derivative_named_from(*asset, id@, j as int),
        decreases asset.derivatives.len() - j,
    {
        if str_eq(asset.derivatives[j].resource_id.as_str(), id) {
            return Some(j);
        }
        j = j + 1;
    }
    None
}

fn suffixed(prefix: &str, suffix: &str) -> (r: String)
    ensures
        r@ == prefix@ + suffix@,
{
    let mut s = owned(prefix);
    push_str(&mut s, suffix);
    s
}

fn repeats_earlier(ids: &Vec<String>, k: usize) -> (r: bool)
    requires
        k < ids@.len(),
    ensures
        r == exists|a: int| 0 <= a < k && (#[trigger] ids@[a])@ == ids@[k as int]@,
{
    let mut a: usize = 0;
    while a < k
        invariant
            k < ids@.len(),
            a <= k,
            forall|b: int| 0 <= b < a ==> (#[trigger] ids@[b])@ != ids@[k as int]@,
        decreases k - a,
    {
        if ids[a] == ids[k] {
            assert(ids@[a as int]@ == ids@[k as int]@);
            return true;
        }
        a = a + 1;
    }
    false
}

/// The asset's derivatives the identifiers name, if they resolve.
fn resolve_derivatives(asset: &CapturedAsset, ids: &Vec<String>) -> (r: Option<Vec<usize>>)
    ensures
        r is Some <==> derivatives_resolve(*asset, ids@),
        r matches Some(v) ==> v@.len() == ids@.len() && forall|k: int|
            0 <= k < ids@.len() ==> derivative_named(*asset, (#[trigger] ids@[k])@) == Some(v@[k] as int)
                && v@[k] < asset.derivatives@.len(),
{
    if ids.len() == 0 {
        return None;
    }
    let mut found: Vec<usize> = Vec::new();
    let mut k: usize = 0;
    while k < ids.len()
        invariant
            0 < ids@.len(),
            k <= ids@.len(),
            found@.len() == k,
            forall|a: int, b: int| 0 <= a < b < k ==> (#[trigger] ids@[a])@ != (#[trigger] ids@[b])@,
            forall|q: int| 0 <= q < k ==> derivative_named(*asset, (#[trigger] ids@[q])@) == Some(found@[q] as int)
                && found@[q] < asset.derivatives@.len(),
        decreases ids.len() - k,
    {
        if repeats_earlier(ids, k) {
            assert(!derivatives_resolve(*asset, ids@)) by {
                let a = choose|a: int| 0 <= a < k && (#[trigger] ids@[a])@ == ids@[k as int]@;
                assert(ids@[a]@ == ids@[k as int]@);
            }
            return None;
        }
        let d = match find_derivative(asset, ids[k].as_str()) {
            Some(d) => d,
            None => return None,
        };
        found.push(d);
        k = k + 1;
    }
    Some(found)
}

/// Checks an outgoing selection and lists the resources it sends.
pub fn transfer_plan(
    asset: &CapturedAsset,
    selection: &AssetSelection,
    transfer_prefix: &str,
    metadata_policy: MetadataPolicy,
) -> (r: Result<Vec<ResourcePlan>, TransferError>)
    ensures
        match selection_error(*asset, *selection, transfer_prefix@, metadata_policy) {
            Some(e) => r matches Err(x) && x == e,
            None => r matches Ok(v) && v@.map_values(|p: ResourcePlan| p@) == plan_spec(*asset, *selection, transfer_prefix@),
        },
{
    if asset.state != AssetState::Finalized || !safe_media_token(transfer_prefix) {
        return Err(TransferError::InvalidSourceAsset);
    }
    if metadata_policy != MetadataPolicy::Preserve {
        return Err(TransferError::MetadataSanitizationRequired);
    }
    let empty: Vec<String> = Vec::new();
    let ids: &Vec<String> = match selection {
        AssetSelection::Original => &empty,
        AssetSelection::Derivatives { resource_ids } => resource_ids,
        AssetSelection::OriginalAndDerivatives { resource_ids } => resource_ids,
    };
    let ghost g = ids@;
    assert(g == selection_ids(*selection));
    let chosen: Vec<usize> = if matches!(selection, AssetSelection::Original) {
        Vec::new()
    } else {
        match resolve_derivatives(asset, ids) {
            Some(v) => v,
            None => return Err(TransferError::InvalidSelection),
        }
    };
    assert(chosen@.len() == g.len());
    let original = matches!(selection, AssetSelection::Original) || matches!(
        selection,
        AssetSelection::OriginalAndDerivatives { .. }
    );
    let mut plans: Vec<ResourcePlan> = Vec::new();
    let ghost pre: Seq<PlanView> = if original { seq![original_plan(*asset, transfer_prefix@)] } else { Seq::empty() };
    if original {
        proof {
            reveal_strlit("-original");
        }
        plans.push(
            ResourcePlan {
                resource_id: asset.original_resource_id.clone(),
                role: TransferResourceRole::Original,
                path: asset.original.path.clone(),
                transfer_id: suffixed(transfer_prefix, "-original"),
                derivative: None,
            },
        );
    }
    assert(plans@.map_values(|p: ResourcePlan| p@) =~= pre);
    let mut k: usize = 0;
    while k < chosen.len()
        invariant
            g == ids@,
            chosen@.len() == g.len(),
            k <= g.len(),
            forall|q: int| 0 <= q < g.len() ==> derivative_named(*asset, (#[trigger] g[q])@) == Some(chosen@[q] as int)
                && chosen@[q] < asset.derivatives@.len(),
            plans@.map_values(|p: ResourcePlan| p@) == pre + Seq::new(
                k as nat,
                |q: int| derivative_plan(*asset, transfer_prefix@, derivative_named(*asset, g[q]@)->0, q),
            ),
        decreases chosen.len() - k,
    {
        let d = chosen[k];
        assert(derivative_named(*asset, g[k as int]@) == Some(d as int));
        let derivative = &asset.derivatives[d];
        let mut transfer_id = suffixed(transfer_prefix, "-derivative-");
        push_decimal(&mut transfer_id, k as u64);
        proof {
            reveal_strlit("-derivative-");
        }
        let ghost before = plans@.map_values(|p: ResourcePlan| p@);
        let plan = ResourcePlan {
            resource_id: derivative.resource_id.clone(),
            role: TransferResourceRole::Derivative { purpose: derivative.purpose },
            path: derivative.resource.path.clone(),
            transfer_id,
            derivative: Some(d),
        };
        assert(plan@ == derivative_plan(*asset, transfer_prefix@, d as int, k as int));
        plans.push(plan);
        k = k + 1;
        assert(plans@.map_values(|p: ResourcePlan| p@) =~= pre + Seq::new(
            k as nat,
            |q: int| derivative_plan(*asset, transfer_prefix@, derivative_named(*asset, g[q]@)->0, q),
        )) by {
            assert(plans@.map_values(|p: ResourcePlan| p@) =~= before.push(plan@));
        }
    }
    assert(plans@.map_values(|p: ResourcePlan| p@) =~= plan_spec(*asset, *selection, transfer_prefix@));
    Ok(plans)
}

/// What is wrong with a resource built from a source file under `transfer_id`.
pub open spec fn source_error(source: Result<SourceFile, TransferError>, transfer_id: Seq<char>, chunk_size: u32) -> Option<
    TransferError,
> {
    match source {
        Err(e) => Some(e),
        Ok(f) => manifest_fields_error(
            PROTOCOL_VERSION,
            transfer_id,
            f.file_name@,
            f.byte_length,
            chunk_size,
            f.sha256_hex@,
        ),
    }
}

/// A resource carries what its plan and its source file say.
pub open spec fn resource_matches(
    r: TransferResource,
    p: PlanView,
    f: SourceFile,
    asset: CapturedAsset,
    chunk_size: u32,
    policy: MetadataPolicy,
) -> bool {
    &&& r.resource_id@ == p.resource_id
    &&& r.role == p.role
    &&& r.manifest.schema_version == PROTOCOL_VERSION
    &&& r.manifest.transfer_id@ == p.transfer_id
    &&& r.manifest.media_type == shared_media(asset.media_type)
    &&& r.manifest.file_name@ == f.file_name@
    &&& r.manifest.byte_length == f.byte_length
    &&& r.manifest.chunk_size == chunk_size
    &&& r.manifest.sha256_hex@ == f.sha256_hex@
    &&& r.manifest.metadata_policy == policy
    &&& match p.derivative {
        None => r.derivative_provenance is None,
        Some(d) => r.derivative_provenance matches Some(x) && provenance_view(x) == provenance_view(
            asset.derivatives@[d].provenance,
        ),
    }
}

/// Builds the transferable resource for one planned resource from what its
/// source file held (or the error examining it gave).
pub fn resource_transfer(
    plan: &ResourcePlan,
    asset: &CapturedAsset,
    source: Result<SourceFile, TransferError>,
    chunk_size: u32,
    metadata_policy: MetadataPolicy,
) -> (r: Result<TransferResource, TransferError>)
    requires
        plan.derivative matches Some(d) ==> d < asset.derivatives@.len(),
    ensures
        match source_error(source, plan@.transfer_id, chunk_size) {
            Some(e) => r matches Err(x) && x == e,
            None => r matches Ok(x) && resource_matches(x, plan@, source->Ok_0, *asset, chunk_size, metadata_policy),
        },
{
    let facts = source?;
    let manifest = TransferManifest {
        schema_version: PROTOCOL_VERSION,
        transfer_id: plan.transfer_id.clone(),
        media_type: match asset.media_type {
            CapturedMediaType::Photo => SharedMediaType::Photo,
            CapturedMediaType::Video => SharedMediaType::Video,
        },
        file_name: facts.file_name,
        byte_length: facts.byte_length,
        chunk_size,
        sha256_hex: facts.sha256_hex,
        metadata_policy,
    };
    manifest.validate()?;
    let derivative_provenance = match plan.derivative {
        Some(d) => Some(asset.derivatives[d].provenance.duplicate()),
        None => None,
    };
    Ok(TransferResource { resource_id: plan.resource_id.clone(), role: plan.role, derivative_provenance, manifest })
}

/// The first resource error, from resource `k` on.
pub open spec fn first_source_error(
    plans: Seq<PlanView>,
    sources: Seq<Result<SourceFile, TransferError>>,
    chunk_size: u32,
    k: int,
) -> Option<TransferError>
    decreases plans.len() - k,
{
    if k < 0 || k >= plans.len() {
        None
    } else {
        match source_error(sources[k], plans[k].transfer_id, chunk_size) {
            Some(e) => Some(e),
            None => first_source_error(plans, sources, chunk_size, k + 1),
        }
    }
}

proof fn lemma_named_in_range(asset: CapturedAsset, id: Seq<char>)
    requires
        derivative_named(asset, id) is Some,
    ensures
        0 <= derivative_named(asset, id)->0 < asset.derivatives@.len(),
{
    lemma_named_from_range(asset, id, 0);
}

proof fn lemma_plan_derivatives_in_range(asset: CapturedAsset, selection: AssetSelection, prefix: Seq<char>, policy: MetadataPolicy)
    requires
        selection_error(asset, selection, prefix, policy) is None,
    ensures
        forall|k: int| 0 <= k < plan_spec(asset, selection, prefix).len() ==> ((#[trigger] plan_spec(asset, selection, prefix)[k]).derivative matches Some(d) ==> 0 <= d < asset.derivatives@.len()),
{
    let plans = plan_spec(asset, selection, prefix);
    let ids = selection_ids(selection);
    let derivs = Seq::new(
        ids.len(),
        |k: int| derivative_plan(asset, prefix, derivative_named(asset, ids[k]@)->0, k),
    );
    assert forall|k: int| 0 <= k < plans.len() implies ((#[trigger] plans[k]).derivative matches Some(d) ==> 0 <= d < asset.derivatives@.len()) by {
        let off: int = if includes_original(selection) { 1 } else { 0 };
        if k >= off {
            let q = k - off;
            assert(plans[k] == derivs[q]);
            assert(derivative_named(asset, ids[q]@) is Some);
            lemma_named_in_range(asset, ids[q]@);
        }
    }
}

impl AssetTransferManifest {
    /// The manifest of an outgoing transfer of a finalized asset: its plan
    /// (see `transfer_plan`), each planned resource built from what examining
    /// its file gave, in plan order.
    pub fn from_captured_asset(
        asset: &CapturedAsset,
        selection: AssetSelection,
        transfer_prefix: &str,
        chunk_size: u32,
        metadata_policy: MetadataPolicy,
        sources: Vec<Result<SourceFile, TransferError>>,
    ) -> (r: Result<Self, TransferError>)
        requires
            selection_error(*asset, selection, transfer_prefix@, metadata_policy) is None ==> sources@.len()
                == plan_spec(*asset, selection, transfer_prefix@).len(),
        ensures
            match selection_error(*asset, selection, transfer_prefix@, metadata_policy) {
                Some(e) => r matches Err(x) && x == e,
                None => {
                    let plans = plan_spec(*asset, selection, transfer_prefix@);
                    match first_source_error(plans, sources@, chunk_size, 0) {
                        Some(e) => r matches Err(x) && x == e,
                        None => r matches Ok(m) && m.schema_version == PROTOCOL_VERSION && m.source_asset_id@
                            == asset.id@ && m.media_type == asset.media_type && m.capture == asset.capture
                            && m.selection == selection && m.resources@.len() == plans.len() && forall|k: int|
                            0 <= k < plans.len() ==> resource_matches(
                                #[trigger] m.resources@[k],
                                plans[k],
                                sources@[k]->Ok_0,
                                *asset,
                                chunk_size,
                                metadata_policy,
                            ),
                    }
                },
            },
    {
        let plans = transfer_plan(asset, &selection, transfer_prefix, metadata_policy)?;
        let ghost pv = plans@.map_values(|p: ResourcePlan| p@);
        let ghost all = sources@;
        proof {
            lemma_plan_derivatives_in_range(*asset, selection, transfer_prefix@, metadata_policy);
        }
        let mut remaining = sources;
        let mut resources: Vec<TransferResource> = Vec::new();
        let mut k: usize = 0;
        while k < plans.len()
            invariant
                pv == plans@.map_values(|p: ResourcePlan| p@),
                all.len() == pv.len(),
                k <= pv.len(),
                all == sources@,
                remaining@ == all.subrange(k as int, all.len() as int),
                forall|q: int| 0 <= q < pv.len() ==> ((#[trigger] pv[q]).derivative matches Some(d) ==> 0 <= d < asset.derivatives@.len()),
                pv == plan_spec(*asset, selection, transfer_prefix@),
                selection_error(*asset, selection, transfer_prefix@, metadata_policy) is None,
                first_source_error(pv, all, chunk_size, 0) == first_source_error(pv, all, chunk_size, k as int),
                resources@.len() == k,
                forall|q: int| 0 <= q < k ==> resource_matches(
                    #[trigger] resources@[q],
                    pv[q],
                    all[q]->Ok_0,
                    *asset,
                    chunk_size,
                    metadata_policy,
                ),
            decreases plans.len() - k,
        {
            assert(pv[k as int] == plans@[k as int]@);
            let source = remaining.remove(0);
            assert(source == all[k as int]);
            let resource = match resource_transfer(&plans[k], asset, source, chunk_size, metadata_policy) {
                Ok(x) => x,
                Err(e) => {
                    assert(first_source_error(pv, all, chunk_size, k as int) == Some(e));
                    assert(pv == plan_spec(*asset, selection, transfer_prefix@));
                    return Err(e);
                },
            };
            resources.push(resource);
            k = k + 1;
            assert(remaining@ =~= all.subrange(k as int, all.len() as int));
        }
        Ok(AssetTransferManifest {
            schema_version: PROTOCOL_VERSION,
            source_asset_id: asset.id.clone(),
            media_type: asset.media_type,
            capture: asset.capture.duplicate(),
            selection,
            resources,
        })
    }
}

// ---------------------------------------------------------------------------
// Privacy-sanitized originals.

#[derive(Debug, Clone, PartialEq, Eq)]
pub struct MetadataSanitizationReport {
    pub removed_segments: u32,
    pub output_bytes: u64,
    pub sha256_hex: String,
}

/// Evidence that a JPEG was rewritten by the privacy sanitizer.
///
/// The path is private so that callers cannot label an arbitrary source file
/// with a stripping policy through the manifest builder.
#[derive(Debug, Clone, PartialEq, Eq)]
pub struct SanitizedJpeg {
    path: String,
    pub report: MetadataSanitizationReport,
}

impl SanitizedJpeg {
    pub closed spec fn spec_path(&self) -> Seq<char> {
        self.path@
    }

    pub closed spec fn spec_report(&self) -> MetadataSanitizationReport {
        self.report
    }

    pub fn path(&self) -> (r: &str)
        ensures
            r@ == self.spec_path(),
    {
        self.path.as_str()
    }
}

/// Only location-and-device stripping is implemented by the sanitizer.
pub fn check_sanitize_policy(policy: MetadataPolicy) -> (r: Result<(), TransferError>)
    ensures
        r == (if policy == MetadataPolicy::StripDeviceAndLocation {
            Ok::<(), TransferError>(())
        } else {
            Err(TransferError::UnsupportedMetadataPolicy)
        }),
{
    if policy != MetadataPolicy::StripDeviceAndLocation {
        return Err(TransferError::UnsupportedMetadataPolicy);
    }
    Ok(())
}

/// Sanitizes JPEG bytes destined for `destination`: the bytes to write there
/// and the evidence (with its report) that they are the sanitizer's output.
pub fn sanitize_jpeg_for_transfer(policy: MetadataPolicy, destination: &str, input: &[u8]) -> (r: Result<
    (Vec<u8>, SanitizedJpeg),
    TransferError,
>)
    ensures
        policy != MetadataPolicy::StripDeviceAndLocation ==> (r matches Err(e) && e == TransferError::UnsupportedMetadataPolicy),
        policy == MetadataPolicy::StripDeviceAndLocation ==> match sanitized_jpeg(input@) {
            Err(e) => r matches Err(x) && x == e,
            Ok((out, removed)) => r matches Ok((bytes, s)) && bytes@ == out && s.spec_path() == destination@
                && s.spec_report().removed_segments == removed % 0x1_0000_0000 && s.spec_report().output_bytes
                == out.len() && s.spec_report().sha256_hex@ == hex_text(sha256_of(out)),
        },
{
    check_sanitize_policy(policy)?;
    let (output, removed_segments) = sanitized_jpeg_bytes(input)?;
    let sha = sha256_hex(output.as_slice());
    let report = MetadataSanitizationReport { removed_segments, output_bytes: output.len() as u64, sha256_hex: sha };
    Ok((output, SanitizedJpeg { path: owned(destination), report }))
}

/// Why a sanitized original cannot be offered.
pub open spec fn sanitized_original_error(
    asset: CapturedAsset,
    sanitized: SanitizedJpeg,
    prefix: Seq<char>,
    chunk_size: u32,
    probed: Result<MediaResource, CameraError>,
    source: Result<SourceFile, TransferError>,
) -> Option<TransferError> {
    if asset.state != AssetState::Finalized || asset.media_type != CapturedMediaType::Photo || !safe_media_token_text(
        prefix,
    ) {
        Some(TransferError::InvalidSourceAsset)
    } else if probed is Err || probed->Ok_0.pixel_width != asset.original.pixel_width || probed->Ok_0.pixel_height
        != asset.original.pixel_height {
        Some(TransferError::SanitizedSourceMismatch)
    } else if source_error(source, prefix + "-original"@, chunk_size) is Some {
        source_error(source, prefix + "-original"@, chunk_size)
    } else if source->Ok_0.byte_length != sanitized.spec_report().output_bytes || source->Ok_0.sha256_hex@
        != sanitized.spec_report().sha256_hex@ {
        Some(TransferError::SanitizedSourceMismatch)
    } else {
        None
    }
}

impl AssetTransferManifest {
    /// An original-only transfer of sanitizer-proven JPEG bytes. `probed` is
    /// the structural probe of the sanitized file and `source` what examining
    /// it gave.
    pub fn from_sanitized_jpeg_original(
        asset: &CapturedAsset,
        sanitized: &SanitizedJpeg,
        transfer_prefix: &str,
        chunk_size: u32,
        probed: Result<MediaResource, CameraError>,
        source: Result<SourceFile, TransferError>,
    ) -> (r: Result<Self, TransferError>)
        ensures
            match sanitized_original_error(*asset, *sanitized, transfer_prefix@, chunk_size, probed, source) {
                Some(e) => r matches Err(x) && x == e,
                None => r matches Ok(m) && m.schema_version == PROTOCOL_VERSION && m.source_asset_id@ == asset.id@
                    && m.media_type == asset.media_type && m.capture == asset.capture && m.selection
                    is Original && m.resources@.len() == 1 && resource_matches(
                    m.resources@[0],
                    original_plan(*asset, transfer_prefix@),
                    source->Ok_0,
                    *asset,
                    chunk_size,
                    MetadataPolicy::StripDeviceAndLocation,
                ),
            },
    {
        if asset.state != AssetState::Finalized || asset.media_type != CapturedMediaType::Photo || !safe_media_token(
            transfer_prefix,
        ) {
            return Err(TransferError::InvalidSourceAsset);
        }
        match &probed {
            Err(_) => return Err(TransferError::SanitizedSourceMismatch),
            Ok(p) => {
                if p.pixel_width != asset.original.pixel_width || p.pixel_height != asset.original.pixel_height {
                    return Err(TransferError::SanitizedSourceMismatch);
                }
            },
        }
        proof {
            reveal_strlit("-original");
        }
        let plan = ResourcePlan {
            resource_id: asset.original_resource_id.clone(),
            role: TransferResourceRole::Original,
            path: owned(sanitized.path()),
            transfer_id: suffixed(transfer_prefix, "-original"),
            derivative: None,
        };
        let ghost facts = source->Ok_0;
        let resource = resource_transfer(&plan, asset, source, chunk_size, MetadataPolicy::StripDeviceAndLocation)?;
        if resource.manifest.byte_length != sanitized.report.output_bytes || resource.manifest.sha256_hex
            != sanitized.report.sha256_hex {
            return Err(TransferError::SanitizedSourceMismatch);
        }
        let mut resources: Vec<TransferResource> = Vec::new();
        resources.push(resource);
        Ok(AssetTransferManifest {
            schema_version: PROTOCOL_VERSION,
            source_asset_id: asset.id.clone(),
            media_type: asset.media_type,
            capture: asset.capture.duplicate(),
            selection: AssetSelection::Original,
            resources,
        })
    }
}

} // verus!
