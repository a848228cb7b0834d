//! Requests for package metadata and artifacts.
use crate::proxy::MetadataRewrite;
use crate::weburl::{Url, UrlView};
use vstd::prelude::*;
use vstd::string::*;

verus! {

/// A request for metadata: where it comes from, what it is counted under, and how it is
/// served.
#[derive(Debug)]
pub struct MetadataRequest {
    pub upstream: Url,
    pub label: &'static str,
    pub rewrite: MetadataRewrite,
}

/// A request for an artifact: where it comes from and what it is counted under.
#[derive(Debug)]
pub struct ArtifactRequest {
    pub upstream: Url,
    pub label: &'static str,
}

/// `r` asks for what `upstream` names and is counted under `label`.
pub open spec fn is_artifact_request(
    r: Option<ArtifactRequest>,
    upstream: Option<UrlView>,
    label: Seq<char>,
) -> bool {
    match upstream {
        Some(u) => r matches Some(q) && q.upstream@ == u && q.label@ == label,
        None => r is None,
    }
}

/// `r` asks for what `upstream` names, is counted under `label` and served in the
/// representation with the given identity.
pub open spec fn is_metadata_request(
    r: Option<MetadataRequest>,
    upstream: Option<UrlView>,
    label: Seq<char>,
    identity: Seq<char>,
) -> bool {
    match upstream {
        Some(u) => r matches Some(q) && q.upstream@ == u && q.label@ == label
            && q.rewrite.identity() == identity,
        None => r is None,
    }
}

/// A request is made exactly where there is a URL for it, and then asks for that URL, under its
/// label and in its representation.
pub proof fn requests_ask_for_their_url(
    artifact: ArtifactRequest,
    metadata: MetadataRequest,
    u: UrlView,
    label: Seq<char>,
    identity: Seq<char>,
)
    ensures
        is_artifact_request(Some(artifact), Some(u), label) <==> artifact.upstream@ == u
            && artifact.label@ == label,
        !is_artifact_request(None, Some(u), label) && !is_artifact_request(
            Some(artifact),
            None,
            label,
        ) && is_artifact_request(None, None, label),
        is_metadata_request(Some(metadata), Some(u), label, identity) <==> metadata.upstream@ == u
            && metadata.label@ == label && metadata.rewrite.identity() == identity,
        !is_metadata_request(None, Some(u), label, identity) && !is_metadata_request(
            Some(metadata),
            None,
            label,
            identity,
        ) && is_metadata_request(None, None, label, identity),
{
}

} // verus!
