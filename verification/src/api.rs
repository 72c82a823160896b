//! Data model of the HTTP control surface: request and response bodies
//! exchanged with external plugins and importers. The embedding binary
//! carries them over the wire; their shapes and defaults are fixed here.

use vstd::prelude::*;

verus! {

/// Generic API response.
pub struct ApiResponse {
    pub success: bool,
    pub message: String,
    pub graph_id: Option<String>,
}

/// Graph selection carried in request headers.
pub struct GraphContext {
    pub graph_id: Option<String>,
    pub graph_name: Option<String>,
    pub graph_path: Option<String>,
}

/// Incoming data envelope from an external source.
pub struct PKMData {
    pub source: String,
    pub type_: Option<String>,
    pub payload: String,
}

/// Identifier inventory sent for verification.
pub struct PkmIdVerification {
    pub pages: Vec<String>,
    pub blocks: Vec<String>,
}

/// Plugin request confirming its configuration state.
pub struct ConfigValidationRequest {
    pub graph_id: String,
    pub has_hidden_property: bool,
    pub has_graph_id: bool,
}

/// Request to record a finished sync.
pub struct UpdateSyncRequest {
    pub sync_type: String,
}

/// Import request for an external graph directory.
pub struct LogseqImportRequest {
    pub path: String,
    pub graph_name: Option<String>,
}

/// Outcome of an import.
pub struct LogseqImportResponse {
    pub success: bool,
    pub message: String,
    pub graph_id: String,
    pub graph_name: String,
    pub pages_imported: usize,
    pub blocks_imported: usize,
    pub errors: Vec<String>,
}

/// The default sync kind recorded when a request does not name one.
pub fn default_sync_type() -> (r: String)
    ensures
        r@ == "incremental"@,
{
    "incremental".to_owned()
}

/// Acknowledge a data envelope that carries no specific type.
pub fn handle_default_data(source: &str) -> (r: Result<String, String>)
    ensures
        r matches Ok(m) && m@ == "Data received"@,
{
    let _ = source;
    Ok("Data received".to_owned())
}

} // verus!
