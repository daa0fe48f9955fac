//! Configuration: the settings of a GraphMind process, the parsing of their textual
//! values and the fail-fast validation of a configuration.

use vstd::prelude::*;
use crate::graph::node::opt_view;
use crate::text::{same_text, text_is_one_of};

verus! {

/// Mode of the MCP server.
#[derive(Debug, Clone, Copy, PartialEq, Eq, Structural)]
pub enum McpMode {
    Dev,
    Production,
    Test,
}

impl Default for McpMode {
    fn default() -> (r: Self)
        ensures
            r == McpMode::Dev,
    {
        McpMode::Dev
    }
}

/// Persistence backend.
#[derive(Debug, Clone, Copy, PartialEq, Eq, Structural)]
pub enum BackendKind {
    RocksDb,
    File,
    InMemory,
}

impl Default for BackendKind {
    fn default() -> (r: Self)
        ensures
            r == BackendKind::RocksDb,
    {
        BackendKind::RocksDb
    }
}

/// LLM provider.
#[derive(Debug, Clone, Copy, PartialEq, Eq, Structural)]
pub enum LlmProvider {
    OpenAI,
    OpenAICompatible,
    Anthropic,
    OpenRouter,
    Mock,
    Disabled,
}

impl Default for LlmProvider {
    fn default() -> (r: Self)
        ensures
            r == LlmProvider::Disabled,
    {
        LlmProvider::Disabled
    }
}

/// LLM settings.
#[derive(Debug, Clone)]
pub struct LlmConfig {
    pub provider: LlmProvider,
    pub api_key: Option<String>,
    pub model: String,
    pub base_url: Option<String>,
    pub budget_per_hour: u32,
    pub timeout_secs: u64,
}

impl Default for LlmConfig {
    fn default() -> (r: Self)
        ensures
            r.provider == LlmProvider::Disabled,
            r.api_key is None,
            r.model@ == Seq::<char>::empty(),
            r.base_url is None,
            r.budget_per_hour == 1000,
            r.timeout_secs == 30,
    {
        LlmConfig {
            provider: LlmProvider::Disabled,
            api_key: None,
            model: String::new(),
            base_url: None,
            budget_per_hour: 1000,
            timeout_secs: 30,
        }
    }
}

/// Embedding provider.
#[derive(Debug, Clone, Copy, PartialEq, Eq, Structural)]
pub enum EmbeddingProviderKind {
    Local,
    OpenAI,
    Disabled,
}

impl Default for EmbeddingProviderKind {
    fn default() -> (r: Self)
        ensures
            r == EmbeddingProviderKind::Disabled,
    {
        EmbeddingProviderKind::Disabled
    }
}

/// Embedding settings. `base_url` and `api_key`, when present, are used in place of the
/// LLM's.
#[derive(Debug, Clone)]
pub struct EmbeddingConfig {
    pub provider: EmbeddingProviderKind,
    pub model: String,
    pub dim: usize,
    pub batch_size: usize,
    pub cache_enabled: bool,
    pub cache_max_entries: usize,
    pub local_model_path: Option<String>,
    pub offline: bool,
    pub base_url: Option<String>,
    pub api_key: Option<String>,
}

impl Default for EmbeddingConfig {
    fn default() -> (r: Self)
        ensures
            r.provider == EmbeddingProviderKind::Disabled,
            r.model@ == Seq::<char>::empty(),
            r.dim == 0,
            r.batch_size == 0,
            !r.cache_enabled,
            r.cache_max_entries == 0,
            r.local_model_path is None,
            !r.offline,
            r.base_url is None,
            r.api_key is None,
    {
        EmbeddingConfig {
            provider: EmbeddingProviderKind::Disabled,
            model: String::new(),
            dim: 0,
            batch_size: 0,
            cache_enabled: false,
            cache_max_entries: 0,
            local_model_path: None,
            offline: false,
            base_url: None,
            api_key: None,
        }
    }
}

/// RocksDB settings.
#[derive(Debug, Clone)]
pub struct RocksDbConfig {
    pub data_dir: String,
    pub compression: bool,
    pub parallelism: i32,
    pub memtable_size_mb: u32,
    pub use_fsync: bool,
}

impl Default for RocksDbConfig {
    fn default() -> (r: Self)
        ensures
            r.data_dir@ == ".kodik/memory/workspace-default"@,
            r.compression,
            r.parallelism == 0,
            r.memtable_size_mb == 128,
            !r.use_fsync,
    {
        RocksDbConfig {
            data_dir: ".kodik/memory/workspace-default".to_owned(),
            compression: true,
            parallelism: 0,
            memtable_size_mb: 128,
            use_fsync: false,
        }
    }
}

/// Queue settings.
#[derive(Debug, Clone)]
pub struct QueueConfig {
    pub interval_secs: u64,
    pub file_path: String,
}

impl Default for QueueConfig {
    fn default() -> (r: Self)
        ensures
            r.interval_secs == 30,
            r.file_path@ == "pending_actions.json"@,
    {
        QueueConfig { interval_secs: 30, file_path: "pending_actions.json".to_owned() }
    }
}

/// The whole configuration. Paths and the gRPC address are held as text.
#[derive(Debug, Clone)]
pub struct Config {
    pub mcp_mode: McpMode,
    pub mcp_http: bool,
    pub mcp_http_addr: String,
    pub backend: BackendKind,
    pub data_dir: String,
    pub workspace_root: String,
    pub grpc_addr: Option<String>,
    pub mcp_log_level: String,
    pub mcp_log_file: Option<String>,
    pub llm: LlmConfig,
    pub embedding: EmbeddingConfig,
    pub rocksdb: RocksDbConfig,
    pub queue: QueueConfig,
}

impl Default for Config {
    fn default() -> (r: Self)
        ensures
            r.mcp_mode == McpMode::Dev,
            !r.mcp_http,
            r.backend == BackendKind::RocksDb,
            r.data_dir@ == Seq::<char>::empty(),
            r.llm.provider == LlmProvider::Disabled,
            r.embedding.provider == EmbeddingProviderKind::Disabled,
            !r.rocksdb.use_fsync,
    {
        Config {
            mcp_mode: McpMode::default(),
            mcp_http: false,
            mcp_http_addr: String::new(),
            backend: BackendKind::default(),
            data_dir: String::new(),
            workspace_root: String::new(),
            grpc_addr: None,
            mcp_log_level: String::new(),
            mcp_log_file: None,
            llm: LlmConfig::default(),
            embedding: EmbeddingConfig::default(),
            rocksdb: RocksDbConfig::default(),
            queue: QueueConfig::default(),
        }
    }
}

/// Why a configuration is refused.
#[derive(Debug, Clone, Copy, PartialEq, Eq, Structural)]
pub enum ConfigError {
    /// Production mode without an LLM provider.
    ProviderRequired,
    /// Production mode with the mock LLM.
    MockInProduction,
    /// A hosted provider without an API key.
    ApiKeyRequired(LlmProvider),
    /// An OpenAI-compatible provider without a base URL, outside production mode.
    BaseUrlRequired,
    /// An OpenAI-compatible provider without a base URL in production mode (its message
    /// names example endpoints).
    BaseUrlRequiredInProduction,
    /// An OpenAI-compatible provider without a model.
    ModelRequired,
    /// Production mode with RocksDB but without fsync.
    FsyncRequired,
    /// Production mode with RocksDB in a build without RocksDB support.
    RocksDbUnavailable,
    /// An unknown LLM provider name.
    UnknownProvider,
}

/// The name of a provider, as its debug form spells it.
pub open spec fn provider_name(p: LlmProvider) -> Seq<char> {
    match p {
        LlmProvider::OpenAI => "OpenAI"@,
        LlmProvider::OpenAICompatible => "OpenAICompatible"@,
        LlmProvider::Anthropic => "Anthropic"@,
        LlmProvider::OpenRouter => "OpenRouter"@,
        LlmProvider::Mock => "Mock"@,
        LlmProvider::Disabled => "Disabled"@,
    }
}

/// The message of a configuration error.
pub open spec fn config_error_text(e: ConfigError) -> Seq<char> {
    match e {
        ConfigError::ProviderRequired => "GRAPHMIND_LLM_PROVIDER is required in production mode. See src/actors/config.rs"@,
        ConfigError::MockInProduction => "Mock LLM is not allowed in production mode"@,
        ConfigError::ApiKeyRequired(p) => "GRAPHMIND_LLM_API_KEY is required for "@ + provider_name(p),
        ConfigError::BaseUrlRequired => "GRAPHMIND_LLM_BASE_URL is required for openai-compatible provider"@,
        ConfigError::BaseUrlRequiredInProduction => "GRAPHMIND_LLM_BASE_URL is required for openai-compatible provider. Examples: http://localhost:1234/v1 (LM Studio), http://localhost:11434/v1 (Ollama), https://my-vllm.internal/v1"@,
        ConfigError::ModelRequired => "GRAPHMIND_LLM_MODEL is required for openai-compatible provider"@,
        ConfigError::FsyncRequired => "GRAPHMIND_ROCKSDB_USE_FSYNC must be true in production mode"@,
        ConfigError::RocksDbUnavailable => "GRAPHMIND_PERSISTENCE=rocksdb in production mode requires a binary built with `--features mcp-server,rocksdb`. Current binary was built without it and would silently fall back to FileBackend (deprecated, no durability). See bug_report/003_rocksdb_silent_fallback.md."@,
        ConfigError::UnknownProvider => "Unknown GRAPHMIND_LLM_PROVIDER"@,
    }
}

impl ConfigError {
    /// The error's message (see `config_error_text`).
    pub fn message(&self) -> (s: String)
        ensures
            s@ == config_error_text(*self),
    {
        match self {
            ConfigError::ProviderRequired => "GRAPHMIND_LLM_PROVIDER is required in production mode. See src/actors/config.rs".to_owned(),
            ConfigError::MockInProduction => "Mock LLM is not allowed in production mode".to_owned(),
            ConfigError::ApiKeyRequired(p) => {
                let mut s = "GRAPHMIND_LLM_API_KEY is required for ".to_owned();
                s.append(p.name());
                s
            },
            ConfigError::BaseUrlRequired => "GRAPHMIND_LLM_BASE_URL is required for openai-compatible provider".to_owned(),
            ConfigError::BaseUrlRequiredInProduction => "GRAPHMIND_LLM_BASE_URL is required for openai-compatible provider. Examples: http://localhost:1234/v1 (LM Studio), http://localhost:11434/v1 (Ollama), https://my-vllm.internal/v1".to_owned(),
            ConfigError::ModelRequired => "GRAPHMIND_LLM_MODEL is required for openai-compatible provider".to_owned(),
            ConfigError::FsyncRequired => "GRAPHMIND_ROCKSDB_USE_FSYNC must be true in production mode".to_owned(),
            ConfigError::RocksDbUnavailable => "GRAPHMIND_PERSISTENCE=rocksdb in production mode requires a binary built with `--features mcp-server,rocksdb`. Current binary was built without it and would silently fall back to FileBackend (deprecated, no durability). See bug_report/003_rocksdb_silent_fallback.md.".to_owned(),
            ConfigError::UnknownProvider => "Unknown GRAPHMIND_LLM_PROVIDER".to_owned(),
        }
    }
}

impl LlmProvider {
    /// The provider's name as its debug form spells it (see `provider_name`).
    pub fn name(&self) -> (s: &'static str)
        ensures
            s@ == provider_name(*self),
    {
        match self {
            LlmProvider::OpenAI => "OpenAI",
            LlmProvider::OpenAICompatible => "OpenAICompatible",
            LlmProvider::Anthropic => "Anthropic",
            LlmProvider::OpenRouter => "OpenRouter",
            LlmProvider::Mock => "Mock",
            LlmProvider::Disabled => "Disabled",
        }
    }

    /// The model used when none is configured.
    pub fn default_model(&self) -> (s: &'static str)
        ensures
            s@ == default_model_of(*self),
    {
        match self {
            LlmProvider::OpenAI => "gpt-4o",
            LlmProvider::OpenAICompatible => "",
            LlmProvider::Anthropic => "",
            LlmProvider::OpenRouter => "auto",
            LlmProvider::Mock | LlmProvider::Disabled => "mock",
        }
    }

    /// The base URL used when none is configured.
    pub fn default_base_url(&self) -> (r: Option<String>)
        ensures
            opt_view(r) == default_base_url_of(*self),
    {
        match self {
            LlmProvider::OpenAI => Some("https://api.openai.com/v1".to_owned()),
            LlmProvider::OpenAICompatible => None,
            LlmProvider::Anthropic => Some("https://api.anthropic.com/v1".to_owned()),
            LlmProvider::OpenRouter => Some("https://openrouter.ai/api/v1".to_owned()),
            LlmProvider::Mock | LlmProvider::Disabled => None,
        }
    }
}

/// The default model of each provider (none, the empty text, for an OpenAI-compatible
/// endpoint and for Anthropic: `GRAPHMIND_LLM_MODEL` names it).
pub open spec fn default_model_of(p: LlmProvider) -> Seq<char> {
    match p {
        LlmProvider::OpenAI => "gpt-4o"@,
        LlmProvider::OpenAICompatible => ""@,
        LlmProvider::Anthropic => ""@,
        LlmProvider::OpenRouter => "auto"@,
        LlmProvider::Mock | LlmProvider::Disabled => "mock"@,
    }
}

/// The default base URL of each provider.
pub open spec fn default_base_url_of(p: LlmProvider) -> Option<Seq<char>> {
    match p {
        LlmProvider::OpenAI => Some("https://api.openai.com/v1"@),
        LlmProvider::Anthropic => Some("https://api.anthropic.com/v1"@),
        LlmProvider::OpenRouter => Some("https://openrouter.ai/api/v1"@),
        _ => None,
    }
}

/// The value is present and equal to one of the texts.
pub open spec fn is_one_of(v: Option<Seq<char>>, options: Seq<Seq<char>>) -> bool {
    v matches Some(s) && options.contains(s)
}

/// The view of an optional text.
pub open spec fn opt_str_view(v: Option<&str>) -> Option<Seq<char>> {
    match v {
        Some(s) => Some(s@),
        None => None,
    }
}

/// The views of a list of texts.
pub open spec fn str_views(s: Seq<&str>) -> Seq<Seq<char>> {
    s.map_values(|x: &str| x@)
}

/// Whether `v` is one of `options`.
fn value_is(v: Option<&str>, options: &[&str]) -> (r: bool)
    ensures
        r == is_one_of(opt_str_view(v), str_views(options@)),
{
    let r = text_is_one_of(v, options);
    proof {
        let ov = str_views(options@);
        if r {
            let s = v.unwrap();
            let i = choose|i: int| 0 <= i < options@.len() && options@[i]@ == s@;
            assert(ov[i] == s@);
        } else if let Some(s) = v {
            assert forall|i: int| 0 <= i < ov.len() implies ov[i] != s@ by {
                assert(ov[i] == options@[i]@);
            }
        }
    }
    r
}

/// The MCP mode named by the value of `GRAPHMIND_MCP_MODE`: `production` or `prod` for
/// production, `test` for test, anything else (or no value) for dev.
pub fn parse_mcp_mode(v: Option<&str>) -> (m: McpMode)
    ensures
        m == mcp_mode_of(opt_str_view(v)),
{
    if { let o: [&str; 2] = ["production", "prod"]; proof { assert(str_views(o@) =~= seq!["production"@, "prod"@]); } value_is(v, o.as_slice()) } {
        McpMode::Production
    } else if { let o: [&str; 1] = ["test"]; proof { assert(str_views(o@) =~= seq!["test"@]); } value_is(v, o.as_slice()) } {
        McpMode::Test
    } else {
        McpMode::Dev
    }
}

/// The MCP mode a setting names.
pub open spec fn mcp_mode_of(v: Option<Seq<char>>) -> McpMode {
    if is_one_of(v, seq!["production"@, "prod"@]) {
        McpMode::Production
    } else if is_one_of(v, seq!["test"@]) {
        McpMode::Test
    } else {
        McpMode::Dev
    }
}

/// The backend named by the value of `GRAPHMIND_PERSISTENCE`: `file`/`json`,
/// `memory`/`inmemory`, anything else (or no value) RocksDB.
pub fn parse_backend(v: Option<&str>) -> (b: BackendKind)
    ensures
        b == backend_of(opt_str_view(v)),
{
    if { let o: [&str; 2] = ["file", "json"]; proof { assert(str_views(o@) =~= seq!["file"@, "json"@]); } value_is(v, o.as_slice()) } {
        BackendKind::File
    } else if { let o: [&str; 2] = ["memory", "inmemory"]; proof { assert(str_views(o@) =~= seq!["memory"@, "inmemory"@]); } value_is(v, o.as_slice()) } {
        BackendKind::InMemory
    } else {
        BackendKind::RocksDb
    }
}

/// The backend a setting names.
pub open spec fn backend_of(v: Option<Seq<char>>) -> BackendKind {
    if is_one_of(v, seq!["file"@, "json"@]) {
        BackendKind::File
    } else if is_one_of(v, seq!["memory"@, "inmemory"@]) {
        BackendKind::InMemory
    } else {
        BackendKind::RocksDb
    }
}

/// The LLM provider named by the value of `GRAPHMIND_LLM_PROVIDER`; no value, `""` and
/// `disabled` mean disabled; an unknown name is refused.
pub fn parse_llm_provider(v: Option<&str>) -> (r: Result<LlmProvider, ConfigError>)
    ensures
        r == llm_provider_of(opt_str_view(v)),
{
    if { let o: [&str; 1] = ["openai"]; proof { assert(str_views(o@) =~= seq!["openai"@]); } value_is(v, o.as_slice()) } {
        Ok(LlmProvider::OpenAI)
    } else if { let o: [&str; 3] = ["openai-compatible", "compatible", "oai-compatible"]; proof { assert(str_views(o@) =~= seq!["openai-compatible"@, "compatible"@, "oai-compatible"@]); } value_is(v, o.as_slice()) } {
        Ok(LlmProvider::OpenAICompatible)
    } else if { let o: [&str; 1] = ["anthropic"]; proof { assert(str_views(o@) =~= seq!["anthropic"@]); } value_is(v, o.as_slice()) } {
        Ok(LlmProvider::Anthropic)
    } else if { let o: [&str; 1] = ["openrouter"]; proof { assert(str_views(o@) =~= seq!["openrouter"@]); } value_is(v, o.as_slice()) } {
        Ok(LlmProvider::OpenRouter)
    } else if { let o: [&str; 1] = ["mock"]; proof { assert(str_views(o@) =~= seq!["mock"@]); } value_is(v, o.as_slice()) } {
        Ok(LlmProvider::Mock)
    } else if v.is_none() || { let o: [&str; 2] = ["disabled", ""]; proof { assert(str_views(o@) =~= seq!["disabled"@, ""@]); } value_is(v, o.as_slice()) } {
        Ok(LlmProvider::Disabled)
    } else {
        Err(ConfigError::UnknownProvider)
    }
}

/// The LLM provider a setting names.
pub open spec fn llm_provider_of(v: Option<Seq<char>>) -> Result<LlmProvider, ConfigError> {
    if is_one_of(v, seq!["openai"@]) {
        Ok(LlmProvider::OpenAI)
    } else if is_one_of(v, seq!["openai-compatible"@, "compatible"@, "oai-compatible"@]) {
        Ok(LlmProvider::OpenAICompatible)
    } else if is_one_of(v, seq!["anthropic"@]) {
        Ok(LlmProvider::Anthropic)
    } else if is_one_of(v, seq!["openrouter"@]) {
        Ok(LlmProvider::OpenRouter)
    } else if is_one_of(v, seq!["mock"@]) {
        Ok(LlmProvider::Mock)
    } else if v is None || is_one_of(v, seq!["disabled"@, ""@]) {
        Ok(LlmProvider::Disabled)
    } else {
        Err(ConfigError::UnknownProvider)
    }
}

/// The embedding provider named by the value of `GRAPHMIND_EMBEDDING_PROVIDER`: `local`,
/// `openai`, anything else (or no value) disabled.
pub fn parse_embedding_provider(v: Option<&str>) -> (k: EmbeddingProviderKind)
    ensures
        k == embedding_provider_of(opt_str_view(v)),
{
    if { let o: [&str; 1] = ["local"]; proof { assert(str_views(o@) =~= seq!["local"@]); } value_is(v, o.as_slice()) } {
        EmbeddingProviderKind::Local
    } else if { let o: [&str; 1] = ["openai"]; proof { assert(str_views(o@) =~= seq!["openai"@]); } value_is(v, o.as_slice()) } {
        EmbeddingProviderKind::OpenAI
    } else {
        EmbeddingProviderKind::Disabled
    }
}

/// The embedding provider a setting names.
pub open spec fn embedding_provider_of(v: Option<Seq<char>>) -> EmbeddingProviderKind {
    if is_one_of(v, seq!["local"@]) {
        EmbeddingProviderKind::Local
    } else if is_one_of(v, seq!["openai"@]) {
        EmbeddingProviderKind::OpenAI
    } else {
        EmbeddingProviderKind::Disabled
    }
}

/// A boolean setting: on exactly for `true`, `1` or `yes`.
pub fn env_bool(v: Option<&str>) -> (b: bool)
    ensures
        b == is_one_of(opt_str_view(v), seq!["true"@, "1"@, "yes"@]),
{
    { let o: [&str; 3] = ["true", "1", "yes"]; proof { assert(str_views(o@) =~= seq!["true"@, "1"@, "yes"@]); } value_is(v, o.as_slice()) }
}

/// The outcome of validating a configuration.
pub open spec fn validation(c: Config) -> Result<(), ConfigError> {
    let prod = c.mcp_mode == McpMode::Production;
    let p = c.llm.provider;
    if prod && p == LlmProvider::Disabled {
        Err(ConfigError::ProviderRequired)
    } else if prod && p == LlmProvider::Mock {
        Err(ConfigError::MockInProduction)
    } else if prod && (p == LlmProvider::OpenAI || p == LlmProvider::Anthropic || p == LlmProvider::OpenRouter)
        && c.llm.api_key is None {
        Err(ConfigError::ApiKeyRequired(p))
    } else if prod && p == LlmProvider::OpenAICompatible && c.llm.base_url is None {
        Err(ConfigError::BaseUrlRequiredInProduction)
    } else if p == LlmProvider::OpenAICompatible && c.llm.base_url is None {
        Err(ConfigError::BaseUrlRequired)
    } else if p == LlmProvider::OpenAICompatible && c.llm.model@.len() == 0 {
        Err(ConfigError::ModelRequired)
    } else if prod && c.backend == BackendKind::RocksDb && !c.rocksdb.use_fsync {
        Err(ConfigError::FsyncRequired)
    } else if prod && c.backend == BackendKind::RocksDb {
        Err(ConfigError::RocksDbUnavailable)
    } else {
        Ok(())
    }
}

impl Config {
    /// Fail-fast checks of a configuration: in production an LLM provider is required
    /// (not the mock; a hosted one with its key); an OpenAI-compatible provider needs a
    /// base URL and a model in any mode; production on RocksDB needs fsync, and a build
    /// with RocksDB support (this one has none).
    pub fn validate(&self) -> (r: Result<(), ConfigError>)
        ensures
            r == validation(*self),
    {
        let prod = self.mcp_mode == McpMode::Production;
        if prod {
            match self.llm.provider {
                LlmProvider::Disabled => {
                    return Err(ConfigError::ProviderRequired);
                },
                LlmProvider::Mock => {
                    return Err(ConfigError::MockInProduction);
                },
                LlmProvider::OpenAI | LlmProvider::Anthropic | LlmProvider::OpenRouter => {
                    if self.llm.api_key.is_none() {
                        return Err(ConfigError::ApiKeyRequired(self.llm.provider));
                    }
                },
                LlmProvider::OpenAICompatible => {
                    if self.llm.base_url.is_none() {
                        return Err(ConfigError::BaseUrlRequiredInProduction);
                    }
                },
            }
        }
        if self.llm.provider == LlmProvider::OpenAICompatible {
            if self.llm.base_url.is_none() {
                return Err(ConfigError::BaseUrlRequired);
            }
            if self.llm.model.as_str().is_empty() {
                return Err(ConfigError::ModelRequired);
            }
        }
        if prod && self.backend == BackendKind::RocksDb {
            if !self.rocksdb.use_fsync {
                return Err(ConfigError::FsyncRequired);
            }
            return Err(ConfigError::RocksDbUnavailable);
        }
        Ok(())
    }
}

/// The LLM settings from their values: the provider's default model and base URL stand
/// in for missing ones; a missing budget is 1000 an hour, a missing timeout 30 seconds.
pub fn llm_config_from(
    provider: LlmProvider,
    api_key: Option<String>,
    model: Option<String>,
    base_url: Option<String>,
    budget_per_hour: Option<u32>,
    timeout_secs: Option<u64>,
) -> (c: LlmConfig)
    ensures
        c.provider == provider,
        opt_view(c.api_key) == opt_view(api_key),
        c.model@ == (match model { Some(m) => m@, None => default_model_of(provider) }),
        opt_view(c.base_url) == (match base_url { Some(b) => Some(b@), None => default_base_url_of(provider) }),
        c.budget_per_hour == (match budget_per_hour { Some(b) => b, None => 1000 }),
        c.timeout_secs == (match timeout_secs { Some(t) => t, None => 30 }),
{
    LlmConfig {
        provider,
        api_key,
        model: match model {
            Some(m) => m,
            None => provider.default_model().to_owned(),
        },
        base_url: match base_url {
            Some(b) => Some(b),
            None => provider.default_base_url(),
        },
        budget_per_hour: match budget_per_hour {
            Some(b) => b,
            None => 1000,
        },
        timeout_secs: match timeout_secs {
            Some(t) => t,
            None => 30,
        },
    }
}

/// The default embedding model and dimension of each embedding provider.
pub open spec fn embedding_defaults_of(k: EmbeddingProviderKind) -> (Seq<char>, usize) {
    match k {
        EmbeddingProviderKind::Local => ("sentence-transformers/all-MiniLM-L6-v2"@, 384usize),
        EmbeddingProviderKind::OpenAI => ("text-embedding-3-small"@, 1536usize),
        EmbeddingProviderKind::Disabled => (""@, 0usize),
    }
}

/// A set, non-empty text; an empty one counts as unset.
pub open spec fn non_empty(v: Option<Seq<char>>) -> Option<Seq<char>> {
    match v {
        Some(s) => if s.len() > 0 { Some(s) } else { None },
        None => None,
    }
}

/// The embedding settings from their values: the provider's default model and dimension
/// stand in for missing ones; a missing batch size is 32, a missing cache bound 10000;
/// an empty endpoint or key counts as unset.
pub fn embedding_config_from(
    provider: EmbeddingProviderKind,
    model: Option<String>,
    dim: Option<usize>,
    batch_size: Option<usize>,
    cache_enabled: bool,
    cache_max_entries: Option<usize>,
    local_model_path: Option<String>,
    offline: bool,
    base_url: Option<String>,
    api_key: Option<String>,
) -> (c: EmbeddingConfig)
    ensures
        c.provider == provider,
        c.model@ == (match model { Some(m) => m@, None => embedding_defaults_of(provider).0 }),
        c.dim == (match dim { Some(d) => d, None => embedding_defaults_of(provider).1 }),
        c.batch_size == (match batch_size { Some(b) => b, None => 32 }),
        c.cache_enabled == cache_enabled,
        c.cache_max_entries == (match cache_max_entries { Some(m) => m, None => 10000 }),
        opt_view(c.local_model_path) == opt_view(local_model_path),
        c.offline == offline,
        opt_view(c.base_url) == non_empty(opt_view(base_url)),
        opt_view(c.api_key) == non_empty(opt_view(api_key)),
{
    let (default_model, default_dim): (&str, usize) = match provider {
        EmbeddingProviderKind::Local => ("sentence-transformers/all-MiniLM-L6-v2", 384),
        EmbeddingProviderKind::OpenAI => ("text-embedding-3-small", 1536),
        EmbeddingProviderKind::Disabled => ("", 0),
    };
    let base_url = match base_url {
        Some(b) => if b.as_str().is_empty() { None } else { Some(b) },
        None => None,
    };
    let api_key = match api_key {
        Some(k) => if k.as_str().is_empty() { None } else { Some(k) },
        None => None,
    };
    EmbeddingConfig {
        provider,
        model: match model {
            Some(m) => m,
            None => default_model.to_owned(),
        },
        dim: match dim {
            Some(d) => d,
            None => default_dim,
        },
        batch_size: match batch_size {
            Some(b) => b,
            None => 32,
        },
        cache_enabled,
        cache_max_entries: match cache_max_entries {
            Some(m) => m,
            None => 10000,
        },
        local_model_path,
        offline,
        base_url,
        api_key,
    }
}

} // verus!
