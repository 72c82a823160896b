//! Configuration model. The embedding binary reads the YAML file and fills
//! these structures; missing sections fall back to the defaults below.

use vstd::prelude::*;

verus! {

/// Settings of the wire-protocol server.
pub struct BackendConfig {
    /// Preferred listening port.
    pub port: u16,
    /// How many ports above `port` may be tried when it is taken.
    pub max_port_attempts: u16,
    /// Name of the process-discovery file written at startup.
    pub server_info_file: String,
}

/// Development conveniences.
pub struct DevelopmentConfig {
    /// When set, an indefinite run ends after this many seconds.
    pub default_duration: Option<u64>,
}

/// Root configuration.
pub struct Config {
    pub backend: BackendConfig,
    pub development: DevelopmentConfig,
    /// Data directory; relative values are resolved against the working
    /// directory by the embedding binary.
    pub data_dir: String,
}

impl Default for BackendConfig {
    fn default() -> (r: Self)
        ensures
            r.port == 8888,
            r.max_port_attempts == 10,
            r.server_info_file@ == "cymbiont_server.json"@,
    {
        BackendConfig {
            port: 8888,
            max_port_attempts: 10,
            server_info_file: "cymbiont_server.json".to_owned(),
        }
    }
}

impl Default for DevelopmentConfig {
    fn default() -> (r: Self)
        ensures
            r.default_duration is None,
    {
        DevelopmentConfig { default_duration: None }
    }
}

impl Default for Config {
    fn default() -> (r: Self)
        ensures
            r.backend.port == 8888,
            r.backend.max_port_attempts == 10,
            r.backend.server_info_file@ == "cymbiont_server.json"@,
            r.development.default_duration is None,
            r.data_dir@ == "data"@,
    {
        Config {
            backend: Default::default(),
            development: Default::default(),
            data_dir: "data".to_owned(),
        }
    }
}

/// Connection settings of the memory-service backend.
pub struct GraphitiConfig {
    pub base_url: String,
    pub timeout_secs: u64,
    pub default_group_id: String,
    pub server_path: String,
}

/// Log output configuration.
pub struct LoggingConfig {
    pub level: String,
    pub output: String,
    pub log_directory: String,
    pub max_files: usize,
    pub max_size_mb: usize,
    pub console_output: bool,
}

/// Verbosity monitoring thresholds.
pub struct VerbosityConfig {
    pub info_threshold: usize,
    pub debug_threshold: usize,
    pub trace_threshold: usize,
}

/// What a configuration check found.
pub struct ConfigValidation {
    pub has_hidden_property: bool,
    pub has_graph_id: bool,
    pub graph_id: Option<String>,
}

/// Configuration loading errors.
pub enum ConfigError {
    Io(String),
    Parse(String),
}

/// The bundled fallback location of the memory-service backend.
pub fn default_server_path() -> (r: String)
    ensures
        r@ == "../../graphiti-cymbiont/server"@,
{
    "../../graphiti-cymbiont/server".to_owned()
}

} // verus!
