//! The configuration: its parts, their defaults, and what a usable one needs.
use crate::score::Score;
use vstd::prelude::*;

verus! {

/// The bit pattern of 0.35, the default confidence threshold.
pub const DEFAULT_THRESHOLD_BITS: u32 = 0x3eb3_3333;

/// The bit pattern of 0.92, the default similarity threshold of the cache.
pub const DEFAULT_CACHE_THRESHOLD_BITS: u32 = 0x3f6b_851f;

/// Where the server listens.
#[derive(Debug, Clone)]
pub struct ServerConfig {
    pub host: String,
    pub port: u16,
}

/// Which embedding model to load.
#[derive(Debug, Clone)]
pub struct EmbeddingConfig {
    pub model_id: String,
    pub revision: String,
}

/// The way in which embeddings become routing decisions.
#[derive(Debug, Clone, Copy, PartialEq, Eq, Structural)]
pub enum StrategyKind {
    Similarity,
    Classifier,
}

/// How queries are routed.
#[derive(Debug, Clone)]
pub struct RoutingConfig {
    pub confidence_threshold: Score,
    pub strategy: StrategyKind,
    /// Where the weights of the classifier lie.
    pub classifier_path: Option<String>,
}

/// How the semantic cache is set up.
#[derive(Debug, Clone)]
pub struct CacheConfig {
    pub enabled: bool,
    pub similarity_threshold: Score,
    pub ttl_seconds: u64,
    pub max_entries: usize,
}

/// The backend of a category.
#[derive(Debug, Clone)]
pub struct Backend {
    pub base_url: String,
    /// The environment variable that holds the key.
    pub api_key_env: Option<String>,
    pub model: String,
}

/// A category with its example utterances.
#[derive(Debug, Clone)]
pub struct Category {
    pub name: String,
    pub examples: Vec<String>,
    pub backend: Backend,
}

/// The backend for queries without a category.
#[derive(Debug, Clone)]
pub struct DefaultRoute {
    pub name: String,
    pub base_url: String,
    /// The environment variable that holds the key.
    pub api_key_env: Option<String>,
    pub model: String,
}

/// How prompts are guarded.
#[derive(Debug, Clone)]
pub struct PromptGuardConfig {
    pub enabled: bool,
    pub extra_patterns: Vec<String>,
}

/// What happens to a request that holds personal data.
#[derive(Debug, Clone, Copy, PartialEq, Eq, Structural)]
pub enum PiiAction {
    /// The request is refused.
    Block,
    /// The personal data is replaced by placeholders.
    Redact,
}

/// How personal data is treated.
#[derive(Debug, Clone, Copy)]
pub struct PiiConfig {
    pub enabled: bool,
    pub action: PiiAction,
}

/// How requests are screened.
#[derive(Debug, Clone)]
pub struct SecurityConfig {
    pub prompt_guard: PromptGuardConfig,
    pub pii: PiiConfig,
}

/// The whole configuration.
#[derive(Debug, Clone)]
pub struct Config {
    pub server: ServerConfig,
    pub embedding: EmbeddingConfig,
    pub routing: RoutingConfig,
    pub default: DefaultRoute,
    pub cache: CacheConfig,
    pub security: SecurityConfig,
    pub categories: Vec<Category>,
}

/// The default host: all interfaces.
pub fn default_host() -> (host: String)
    ensures
        host@ == "0.0.0.0"@,
{
    "0.0.0.0".to_string()
}

/// The default port.
pub fn default_port() -> (port: u16)
    ensures
        port == 8080,
{
    8080
}

/// The default revision of the embedding model.
pub fn default_revision() -> (revision: String)
    ensures
        revision@ == "main"@,
{
    "main".to_string()
}

/// The default confidence threshold, 0.35.
pub fn default_threshold() -> (threshold: Score)
    ensures
        threshold.bits == DEFAULT_THRESHOLD_BITS,
{
    Score::from_bits(DEFAULT_THRESHOLD_BITS)
}

/// Switches that are on by default.
pub fn default_true() -> (on: bool)
    ensures
        on,
{
    true
}

/// The default similarity threshold of the cache, 0.92.
pub fn default_cache_threshold() -> (threshold: Score)
    ensures
        threshold.bits == DEFAULT_CACHE_THRESHOLD_BITS,
{
    Score::from_bits(DEFAULT_CACHE_THRESHOLD_BITS)
}

/// The default time to live of a cached response, in seconds.
pub fn default_ttl() -> (seconds: u64)
    ensures
        seconds == 300,
{
    300
}

/// The default limit on cached responses.
pub fn default_max_entries() -> (limit: usize)
    ensures
        limit == 1000,
{
    1000
}

impl Default for ServerConfig {
    fn default() -> (config: ServerConfig)
        ensures
            config.host@ == "0.0.0.0"@,
            config.port == 8080,
    {
        ServerConfig { host: default_host(), port: default_port() }
    }
}

impl Default for RoutingConfig {
    fn default() -> (config: RoutingConfig)
        ensures
            config.confidence_threshold.bits == DEFAULT_THRESHOLD_BITS,
            config.strategy == StrategyKind::Similarity,
            config.classifier_path is None,
    {
        RoutingConfig {
            confidence_threshold: default_threshold(),
            strategy: StrategyKind::Similarity,
            classifier_path: None,
        }
    }
}

impl Default for CacheConfig {
    fn default() -> (config: CacheConfig)
        ensures
            config.enabled,
            config.similarity_threshold.bits == DEFAULT_CACHE_THRESHOLD_BITS,
            config.ttl_seconds == 300,
            config.max_entries == 1000,
    {
        CacheConfig {
            enabled: default_true(),
            similarity_threshold: default_cache_threshold(),
            ttl_seconds: default_ttl(),
            max_entries: default_max_entries(),
        }
    }
}

impl Default for PromptGuardConfig {
    fn default() -> (config: PromptGuardConfig)
        ensures
            !config.enabled,
            config.extra_patterns@.len() == 0,
    {
        PromptGuardConfig { enabled: false, extra_patterns: Vec::new() }
    }
}

impl Default for PiiConfig {
    fn default() -> (config: PiiConfig)
        ensures
            !config.enabled,
            config.action == PiiAction::Redact,
    {
        PiiConfig { enabled: false, action: PiiAction::Redact }
    }
}

impl Default for SecurityConfig {
    fn default() -> (config: SecurityConfig)
        ensures
            !config.prompt_guard.enabled,
            config.prompt_guard.extra_patterns@.len() == 0,
            !config.pii.enabled,
            config.pii.action == PiiAction::Redact,
    {
        SecurityConfig { prompt_guard: PromptGuardConfig::default(), pii: PiiConfig::default() }
    }
}

/// Why a configuration is of no use.
#[derive(Debug)]
pub enum ConfigError {
    /// There is no category.
    NoCategory,
    /// The category of that name has no example utterance.
    NoExample { category: String },
}

impl ConfigError {
    /// The error in words.
    pub open spec fn spec_message(self) -> Seq<char> {
        match self {
            ConfigError::NoCategory => "config must define at least one category"@,
            ConfigError::NoExample { category } => "category '"@ + category@
                + "' must have at least one example utterance"@,
        }
    }

    /// The error in words.
    pub fn message(&self) -> (text: String)
        ensures
            text@ == self.spec_message(),
    {
        match self {
            ConfigError::NoCategory => "config must define at least one category".to_string(),
            ConfigError::NoExample { category } => "category '".to_string().concat(
                category.as_str(),
            ).concat("' must have at least one example utterance"),
        }
    }
}

/// Whether the category of that number is the first without an example
/// utterance.
pub open spec fn first_without_example(categories: Seq<Category>, i: int) -> bool {
    &&& 0 <= i < categories.len()
    &&& categories[i].examples@.len() == 0
    &&& forall|j: int| 0 <= j < i ==> (#[trigger] categories[j]).examples@.len() > 0
}

impl Config {
    /// Whether the configuration can be used: there is a category, and every
    /// category has an example utterance.
    pub open spec fn is_usable(&self) -> bool {
        &&& self.categories@.len() > 0
        &&& forall|i: int|
            0 <= i < self.categories@.len() ==> (#[trigger] self.categories@[i]).examples@.len() > 0
    }

    /// Accepts a usable configuration; else says what is missing first.
    pub fn validate(&self) -> (verdict: Result<(), ConfigError>)
        ensures
            match verdict {
                Ok(()) => self.is_usable(),
                Err(ConfigError::NoCategory) => self.categories@.len() == 0,
                Err(ConfigError::NoExample { category }) => exists|i: int| #[trigger]
                    first_without_example(self.categories@, i) && category
                        == self.categories@[i].name,
            },
            verdict is Ok <==> self.is_usable(),
    {
        if self.categories.len() == 0 {
            return Err(ConfigError::NoCategory);
        }
        let mut i: usize = 0;
        while i < self.categories.len()
            invariant
                0 <= i <= self.categories.len(),
                self.categories@.len() > 0,
                forall|j: int| 0 <= j < i ==> (#[trigger] self.categories@[j]).examples@.len() > 0,
            decreases self.categories.len() - i,
        {
            if self.categories[i].examples.len() == 0 {
                assert(first_without_example(self.categories@, i as int));
                return Err(ConfigError::NoExample { category: self.categories[i].name.clone() });
            }
            i = i + 1;
        }
        Ok(())
    }
}

/// A configuration is of use exactly where there is a category and none is
/// without an example utterance; and the category that is named is the first
/// without one.
pub proof fn law_every_category_needs_an_example(config: Config)
    ensures
        config.is_usable() <==> config.categories@.len() > 0 && !exists|i: int|
            0 <= i < config.categories@.len() && (#[trigger] config.categories@[i]).examples@.len()
                == 0,
        forall|i: int| #[trigger]
            first_without_example(config.categories@, i) ==> {
                &&& 0 <= i < config.categories@.len()
                &&& config.categories@[i].examples@.len() == 0
                &&& forall|j: int|
                    0 <= j < i ==> (#[trigger] config.categories@[j]).examples@.len() != 0
            },
        forall|name: String|
            (#[trigger] (ConfigError::NoExample { category: name }).spec_message()) == "category '"@
                + name@ + "' must have at least one example utterance"@,
{
}

} // verus!
