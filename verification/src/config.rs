//! Application configuration records and their defaults.

use vstd::prelude::*;

verus! {

/// Settings of the built-in RSS / Atom feed engine.
#[derive(Debug, Clone)]
pub struct FeedCfg {
    /// Interval between full syncs, in seconds.
    pub poll_interval_secs: u64,
    /// Per-request timeout for feed fetches and extraction, in seconds.
    pub fetch_timeout_secs: u64,
    /// User-Agent header sent when fetching feeds.
    pub user_agent: String,
}

/// Default sync interval: fifteen minutes.
pub fn default_poll() -> (r: u64)
    ensures
        r == 900,
{
    900
}

/// Default fetch timeout: thirty seconds.
pub fn default_fetch_timeout() -> (r: u64)
    ensures
        r == 30,
{
    30
}

/// Default User-Agent.
pub fn default_ua() -> (r: String)
    ensures
        r@ == "miniflux-reader-rs/0.2.0"@,
{
    String::from_str("miniflux-reader-rs/0.2.0")
}

/// Default translation target language.
pub fn default_target_lang() -> (r: String)
    ensures
        r@ == "zh-CN"@,
{
    String::from_str("zh-CN")
}

impl Default for FeedCfg {
    fn default() -> (r: Self)
        ensures
            r.poll_interval_secs == 900,
            r.fetch_timeout_secs == 30,
            r.user_agent@ == "miniflux-reader-rs/0.2.0"@,
    {
        FeedCfg {
            poll_interval_secs: default_poll(),
            fetch_timeout_secs: default_fetch_timeout(),
            user_agent: default_ua(),
        }
    }
}

/// Filesystem paths.
#[derive(Debug, Clone)]
pub struct PathsCfg {
    /// SQLite database path.
    pub db: String,
    /// Directory for uploaded EPUB files.
    pub epub_dir: String,
    /// Directory for static inject assets.
    pub static_inject: String,
    /// Directory of the front-end bundle, when set.
    pub pkg_dir: Option<String>,
}

impl Default for PathsCfg {
    fn default() -> (r: Self)
        ensures
            r.db@.len() == 0,
            r.epub_dir@.len() == 0,
            r.static_inject@.len() == 0,
            r.pkg_dir is None,
    {
        PathsCfg { db: String::new(), epub_dir: String::new(), static_inject: String::new(), pkg_dir: None }
    }
}

/// Translation backend settings.
#[derive(Debug, Clone)]
pub struct TranslateCfg {
    /// Upstream translate API endpoint.
    pub endpoint: String,
    /// Request timeout in milliseconds.
    pub timeout_ms: u64,
    /// Maximum segments per batch.
    pub batch_size: usize,
    /// Maximum retry attempts on transient failure.
    pub max_retries: u32,
    /// Target language (`zh-CN` when a configuration file leaves it out).
    pub target_lang: String,
}

impl Default for TranslateCfg {
    fn default() -> (r: Self)
        ensures
            r.endpoint@.len() == 0,
            r.timeout_ms == 0,
            r.batch_size == 0,
            r.max_retries == 0,
            r.target_lang@.len() == 0,
    {
        TranslateCfg {
            endpoint: String::new(),
            timeout_ms: 0,
            batch_size: 0,
            max_retries: 0,
            target_lang: String::new(),
        }
    }
}

/// TTS backend settings.
#[derive(Debug, Clone)]
pub struct TtsCfg {
    /// Voice identifier.
    pub voice: String,
    /// Speech rate adjustment.
    pub rate: String,
    /// Request timeout in milliseconds.
    pub timeout_ms: u64,
}

impl Default for TtsCfg {
    fn default() -> (r: Self)
        ensures
            r.voice@.len() == 0,
            r.rate@.len() == 0,
            r.timeout_ms == 0,
    {
        TtsCfg { voice: String::new(), rate: String::new(), timeout_ms: 0 }
    }
}

/// Top-level application configuration.
#[derive(Debug, Clone)]
pub struct AppConfig {
    /// Socket address to listen on.
    pub listen_addr: String,
    /// Feed engine settings (their defaults when a file leaves them out).
    pub feed: FeedCfg,
    /// Filesystem paths.
    pub paths: PathsCfg,
    /// Translation backend settings.
    pub translate: TranslateCfg,
    /// TTS backend settings.
    pub tts: TtsCfg,
    /// tracing env-filter string.
    pub log_filter: String,
}

impl Default for AppConfig {
    fn default() -> (r: Self)
        ensures
            r.listen_addr@.len() == 0,
            r.feed.poll_interval_secs == 900,
            r.feed.fetch_timeout_secs == 30,
            r.feed.user_agent@ == "miniflux-reader-rs/0.2.0"@,
            r.paths.db@.len() == 0 && r.paths.epub_dir@.len() == 0,
            r.paths.static_inject@.len() == 0 && r.paths.pkg_dir is None,
            r.translate.endpoint@.len() == 0 && r.translate.timeout_ms == 0,
            r.translate.batch_size == 0 && r.translate.max_retries == 0,
            r.translate.target_lang@.len() == 0,
            r.tts.voice@.len() == 0 && r.tts.rate@.len() == 0 && r.tts.timeout_ms == 0,
            r.log_filter@.len() == 0,
    {
        AppConfig {
            listen_addr: String::new(),
            feed: FeedCfg::default(),
            paths: PathsCfg::default(),
            translate: TranslateCfg::default(),
            tts: TtsCfg::default(),
            log_filter: String::new(),
        }
    }
}

} // verus!
