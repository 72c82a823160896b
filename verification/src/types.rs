//! Request shapes of the memory-service tools the embedding binary exposes.

use vstd::prelude::*;

verus! {

pub struct AddMemoryRequest {
    pub name: String,
    pub episode_body: String,
    pub source_description: Option<String>,
}

pub struct GetEpisodesRequest {
    pub last_n: Option<usize>,
}

pub struct DeleteEpisodeRequest {
    pub uuid: String,
}

pub struct SearchContextRequest {
    pub query: String,
    pub max_results: Option<usize>,
}

pub struct SyncDocumentsRequest {
}

pub struct GetChunksRequest {
    pub keyword_query: String,
    pub max_results: Option<usize>,
    pub rerank_query: Option<String>,
}

} // verus!
