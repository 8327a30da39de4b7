//! The settings of the bot, drawn from its file and its environment.
use vstd::prelude::*;

use crate::ai;
use crate::ai::AiConfigError;
use crate::ai::AiProviderConfig;
use crate::text;

verus! {

// ---------------------------------------------------------------------------
// The file
// ---------------------------------------------------------------------------

/// What stands in the file of settings.
#[derive(Debug)]
pub struct FileConfig {
    pub ai: Option<AiSection>,
    pub asr: Option<AsrSection>,
    pub audio: Option<AudioSection>,
    pub debug: Option<DebugSection>,
    pub transcription: Option<TranscriptionSection>,
    pub discord: Option<DiscordSection>,
    pub summary: Option<SummarySection>,
}

/// The language model: section `[ai]`.
#[derive(Debug)]
pub struct AiSection {
    pub request_timeout: Option<u64>,
    pub model: Option<String>,
    pub base_url: Option<String>,
    pub api_key_env: Option<String>,
}

/// The speech recognizer: section `[asr]`.
#[derive(Debug)]
pub struct AsrSection {
    pub model_dir: Option<String>,
    pub model_family: Option<String>,
    pub num_threads: Option<i32>,
}

/// The audio: section `[audio]`.
#[derive(Debug)]
pub struct AudioSection {
    pub enable_denoiser: Option<bool>,
}

/// The transcription: section `[transcription]`.
#[derive(Debug)]
pub struct TranscriptionSection {
    pub endpoint_silence_ms: Option<u64>,
    pub rolling_ingest_max_ms: Option<u64>,
    pub rolling_ingest_context_ms: Option<u64>,
    pub retention_days: Option<u64>,
}

/// Debugging: section `[debug]`.
#[derive(Debug)]
pub struct DebugSection {
    pub log_live_transcript: Option<bool>,
}

/// Discord: section `[discord]`.
#[derive(Debug)]
pub struct DiscordSection {
    pub autojoin_suffix: Option<String>,
    pub autojoin_text_channel_id: Option<u64>,
}

/// The summaries at the end of calls: section `[summary]`.
#[derive(Debug)]
pub struct SummarySection {
    pub enabled: Option<bool>,
    pub post_in_thread: Option<bool>,
    pub include_in_markdown: Option<bool>,
}

// ---------------------------------------------------------------------------
// The settings
// ---------------------------------------------------------------------------

/// The settings that the bot runs with.
#[derive(Clone, Debug)]
pub struct AppConfig {
    pub discord_token: String,
    pub ai: AiRuntimeConfig,
    pub asr: AsrRuntimeConfig,
    pub audio: AudioRuntimeConfig,
    pub debug: DebugRuntimeConfig,
    pub transcription: TranscriptionRuntimeConfig,
    pub discord: DiscordRuntimeConfig,
    pub summary: SummaryRuntimeConfig,
}

/// The language model to ask, and how many seconds a request may take.
#[derive(Clone, Debug)]
pub struct AiRuntimeConfig {
    pub provider: AiProviderConfig,
    pub request_timeout: u64,
}

/// The model of the speech recognizer.
#[derive(Clone, Debug)]
pub struct AsrRuntimeConfig {
    pub model_dir: String,
    pub model_family: Option<String>,
    pub num_threads: i32,
}

/// How audio is cleaned.
#[derive(Clone, Debug)]
pub struct AudioRuntimeConfig {
    pub enable_denoiser: bool,
}

/// What is logged.
#[derive(Clone, Debug)]
pub struct DebugRuntimeConfig {
    pub log_live_transcript: bool,
}

/// How speech is cut into utterances, and how long journals are kept.
#[derive(Clone, Debug)]
pub struct TranscriptionRuntimeConfig {
    pub endpoint_silence_ms: u64,
    pub rolling_ingest_max_ms: u64,
    pub rolling_ingest_context_ms: u64,
    pub retention_days: u64,
}

/// How calls are joined automatically.
#[derive(Clone, Debug)]
pub struct DiscordRuntimeConfig {
    pub autojoin_suffix: String,
    pub autojoin_text_channel_id: Option<u64>,
}

/// Whether calls are summarized, and where the summary goes.
#[derive(Clone, Debug)]
pub struct SummaryRuntimeConfig {
    pub enabled: bool,
    pub post_in_thread: bool,
    pub include_in_markdown: bool,
}

/// Why the settings are of no use.
#[derive(Debug)]
pub enum ConfigError {
    /// A variable of the environment is missing.
    MissingVariable { name: String },
    /// The variable that is to hold the key of the provider is missing.
    MissingApiKey { name: String },
    /// The provider cannot be used.
    Provider { error: AiConfigError },
    /// There is no model for recognizing speech.
    MissingModelDir,
    /// A channel cannot have this number.
    ZeroTextChannel,
}

impl ConfigError {
    /// The text of the error.
    pub open spec fn message_view(self) -> Seq<char> {
        match self {
            ConfigError::MissingVariable { name } => "missing "@ + name@,
            ConfigError::MissingApiKey { name } => "reading [ai].api_key_env: missing "@ + name@,
            ConfigError::Provider { error } => error.message_view(),
            ConfigError::MissingModelDir =>
                "missing ASR model directory: set [asr].model_dir in config.toml"@,
            ConfigError::ZeroTextChannel =>
                "[discord].autojoin_text_channel_id must be a non-zero Discord channel ID"@,
        }
    }

    /// What is told to the operator.
    pub fn message(&self) -> (r: String)
        ensures
            r@ == self.message_view(),
    {
        let mut out = String::new();
        match self {
            ConfigError::MissingVariable { name } => {
                out.append("missing ");
                out.append(name.as_str());
            },
            ConfigError::MissingApiKey { name } => {
                out.append("reading [ai].api_key_env: missing ");
                out.append(name.as_str());
            },
            ConfigError::Provider { error } => {
                out.append(error.message().as_str());
            },
            ConfigError::MissingModelDir => {
                out.append("missing ASR model directory: set [asr].model_dir in config.toml");
            },
            ConfigError::ZeroTextChannel => {
                out.append(
                    "[discord].autojoin_text_channel_id must be a non-zero Discord channel ID",
                );
            },
        }
        assert(out@ =~= self.message_view());
        out
    }
}

// ---------------------------------------------------------------------------
// Resolving
// ---------------------------------------------------------------------------

/// A number that was set and is not below its floor, else its default.
pub open spec fn at_least(set: Option<u64>, floor: u64, default: u64) -> u64 {
    match set {
        Some(n) => if n >= floor {
            n
        } else {
            default
        },
        None => default,
    }
}

fn floored(set: Option<u64>, floor: u64, default: u64) -> (r: u64)
    ensures
        r == at_least(set, floor, default),
{
    match set {
        Some(n) => if n >= floor {
            n
        } else {
            default
        },
        None => default,
    }
}

/// A switch that was set, else its default.
pub open spec fn switch(set: Option<bool>, default: bool) -> bool {
    match set {
        Some(b) => b,
        None => default,
    }
}

fn switched(set: Option<bool>, default: bool) -> (r: bool)
    ensures
        r == switch(set, default),
{
    match set {
        Some(b) => b,
        None => default,
    }
}

fn copied(s: &Option<String>) -> (r: Option<String>)
    ensures
        text::opt_text(r) == text::opt_text(*s),
{
    match s {
        Some(s) => Some(s.clone()),
        None => None,
    }
}

/// The text of a path to the file of settings: what the environment names, else `config.toml`.
pub fn resolve_config_path(variable: Option<String>) -> (r: String)
    ensures
        r@ == match text::nonblank(text::opt_text(variable)) {
            Some(path) => path,
            None => "config.toml"@,
        },
{
    match text::trim_nonblank(variable) {
        Some(path) => path,
        None => "config.toml".to_string(),
    }
}

/// What a variable of the environment has to hold.
pub fn required_nonempty(name: &str, value: Option<String>) -> (r: Result<String, ConfigError>)
    ensures
        match text::nonblank(text::opt_text(value)) {
            Some(s) => r matches Ok(kept) && kept@ == s,
            None => r matches Err(ConfigError::MissingVariable { name: missing }) && missing@
                == name@,
        },
{
    match text::trim_nonblank(value) {
        Some(s) => Ok(s),
        None => Err(ConfigError::MissingVariable { name: name.to_string() }),
    }
}

/// The name of the variable that holds the key of the provider, where one is set.
pub open spec fn key_variable(section: Option<AiSection>) -> Option<Seq<char>> {
    match section {
        Some(ai) => text::nonblank(text::opt_text(ai.api_key_env)),
        None => None,
    }
}

/// A section that was borrowed.
pub open spec fn owned<A>(section: Option<&A>) -> Option<A> {
    match section {
        Some(section) => Some(*section),
        None => None,
    }
}

/// The name of the variable that holds the key of the provider, where one is set.
pub fn api_key_variable(section: Option<&AiSection>) -> (r: Option<String>)
    ensures
        text::opt_text(r) == key_variable(owned(section)),
{
    match section {
        Some(ai) => text::trim_nonblank(copied(&ai.api_key_env)),
        None => None,
    }
}

/// The key of the provider: none unless a variable for it is set, and then what the variable
/// holds, which must be something.
pub fn resolve_ai_api_key(section: Option<&AiSection>, value: Option<String>) -> (r: Result<
    Option<String>,
    ConfigError,
>)
    ensures
        match key_variable(owned(section)) {
            None => r matches Ok(key) && key is None,
            Some(name) => match text::nonblank(text::opt_text(value)) {
                Some(held) => r matches Ok(key) && text::opt_text(key) == Some(held),
                None => r matches Err(ConfigError::MissingApiKey { name: missing }) && missing@
                    == name,
            },
        },
{
    match api_key_variable(section) {
        None => Ok(None),
        Some(name) => match text::trim_nonblank(value) {
            Some(key) => Ok(Some(key)),
            None => Err(ConfigError::MissingApiKey { name }),
        },
    }
}

/// How many cores count, from how many there are.
pub fn usable_cores(detected: Option<i32>) -> (r: i32)
    ensures
        r == clamped(
            match detected {
                Some(n) => n,
                None => 4,
            },
        ),
{
    clamp_threads(
        match detected {
            Some(n) => n,
            None => 4,
        },
    )
}

/// A number of threads between one and eight.
pub open spec fn clamped(n: i32) -> i32 {
    if n < 1 {
        1
    } else if n > 8 {
        8
    } else {
        n
    }
}

fn clamp_threads(n: i32) -> (r: i32)
    ensures
        r == clamped(n),
{
    if n < 1 {
        1
    } else if n > 8 {
        8
    } else {
        n
    }
}

/// How many threads recognize speech: as many as were set, else three of four cores or more, else
/// every core; between one and eight.
pub open spec fn threads_of(set: Option<i32>, cores: i32) -> i32 {
    clamped(
        match set {
            Some(n) => if n >= 1 {
                n
            } else if cores >= 4 {
                3
            } else {
                cores
            },
            None => if cores >= 4 {
                3
            } else {
                cores
            },
        },
    )
}

/// The settings for recognizing speech. Only the model has to be there.
pub open spec fn asr_outcome(
    section: Option<AsrSection>,
    cores: i32,
    r: Result<AsrRuntimeConfig, ConfigError>,
) -> bool {
    match section {
        Some(asr) => match asr.model_dir {
            Some(dir) => {
                &&& r matches Ok(config)
                &&& config.model_dir@ == dir@
                &&& text::opt_text(config.model_family) == text::opt_text(asr.model_family)
                &&& config.num_threads == threads_of(asr.num_threads, cores)
            },
            None => r matches Err(ConfigError::MissingModelDir),
        },
        None => r matches Err(ConfigError::MissingModelDir),
    }
}

/// The settings for recognizing speech.
pub fn resolve_asr_runtime_config(section: Option<&AsrSection>, detected_cores: i32) -> (r: Result<
    AsrRuntimeConfig,
    ConfigError,
>)
    ensures
        asr_outcome(owned(section), detected_cores, r),
{
    match section {
        Some(asr) => match &asr.model_dir {
            Some(dir) => {
                let default_threads: i32 = if detected_cores >= 4 {
                    3
                } else {
                    detected_cores
                };
                let threads: i32 = match asr.num_threads {
                    Some(n) => if n >= 1 {
                        n
                    } else {
                        default_threads
                    },
                    None => default_threads,
                };
                Ok(
                    AsrRuntimeConfig {
                        model_dir: dir.clone(),
                        model_family: copied(&asr.model_family),
                        num_threads: clamp_threads(threads),
                    },
                )
            },
            None => Err(ConfigError::MissingModelDir),
        },
        None => Err(ConfigError::MissingModelDir),
    }
}

/// The settings for cutting speech into utterances, and for how long calls are kept.
pub open spec fn transcription_of(section: Option<TranscriptionSection>) -> (u64, u64, u64, u64) {
    match section {
        Some(t) => (
            at_least(t.endpoint_silence_ms, 80, 400),
            at_least(t.rolling_ingest_max_ms, 4000, 12000),
            at_least(t.rolling_ingest_context_ms, 250, 1500),
            at_least(t.retention_days, 1, 30),
        ),
        None => (400, 12000, 1500, 30),
    }
}

/// The four numbers of these settings.
pub open spec fn transcription_view(config: TranscriptionRuntimeConfig) -> (u64, u64, u64, u64) {
    (
        config.endpoint_silence_ms,
        config.rolling_ingest_max_ms,
        config.rolling_ingest_context_ms,
        config.retention_days,
    )
}

/// The settings for cutting speech into utterances, and for how long calls are kept.
pub fn resolve_transcription_runtime_config(section: Option<&TranscriptionSection>) -> (r:
    TranscriptionRuntimeConfig)
    ensures
        transcription_view(r) == transcription_of(owned(section)),
{
    match section {
        Some(t) => TranscriptionRuntimeConfig {
            endpoint_silence_ms: floored(t.endpoint_silence_ms, 80, 400),
            rolling_ingest_max_ms: floored(t.rolling_ingest_max_ms, 4000, 12000),
            rolling_ingest_context_ms: floored(t.rolling_ingest_context_ms, 250, 1500),
            retention_days: floored(t.retention_days, 1, 30),
        },
        None => TranscriptionRuntimeConfig {
            endpoint_silence_ms: 400,
            rolling_ingest_max_ms: 12000,
            rolling_ingest_context_ms: 1500,
            retention_days: 30,
        },
    }
}

/// The suffix that marks channels: the one that was set, white space and all, unless it is blank.
pub open spec fn suffix_of(section: Option<DiscordSection>) -> Seq<char> {
    match section {
        Some(discord) => match discord.autojoin_suffix {
            Some(suffix) => if text::trimmed(suffix@).len() == 0 {
                "[Transcribe]"@
            } else {
                suffix@
            },
            None => "[Transcribe]"@,
        },
        None => "[Transcribe]"@,
    }
}

/// The suffix that marks channels.
pub fn resolve_autojoin_suffix(section: Option<&DiscordSection>) -> (r: String)
    ensures
        r@ == suffix_of(owned(section)),
{
    match section {
        Some(discord) => match &discord.autojoin_suffix {
            Some(suffix) => if text::is_empty(text::trim(suffix.as_str()).as_str()) {
                "[Transcribe]".to_string()
            } else {
                suffix.clone()
            },
            None => "[Transcribe]".to_string(),
        },
        None => "[Transcribe]".to_string(),
    }
}

/// The channel that was set for announcements.
pub open spec fn text_channel_of(section: Option<DiscordSection>) -> Option<u64> {
    match section {
        Some(discord) => discord.autojoin_text_channel_id,
        None => None,
    }
}

/// The channel for announcements, which may be unset but not zero.
pub fn resolve_autojoin_text_channel_id(section: Option<&DiscordSection>) -> (r: Result<
    Option<u64>,
    ConfigError,
>)
    ensures
        if text_channel_of(owned(section)) == Some(0u64) {
            r matches Err(ConfigError::ZeroTextChannel)
        } else {
            r matches Ok(channel) && channel == text_channel_of(owned(section))
        },
{
    let set: Option<u64> = match section {
        Some(discord) => discord.autojoin_text_channel_id,
        None => None,
    };
    match set {
        Some(n) => if n == 0 {
            Err(ConfigError::ZeroTextChannel)
        } else {
            Ok(set)
        },
        None => Ok(set),
    }
}

/// How long a request to the provider may take, in seconds.
pub open spec fn timeout_of(section: Option<AiSection>) -> u64 {
    match section {
        Some(ai) => at_least(ai.request_timeout, 5, 30),
        None => 30,
    }
}

/// The model and the address that were set for the provider.
pub open spec fn provider_set(section: Option<AiSection>) -> (Option<Seq<char>>, Option<Seq<char>>) {
    match section {
        Some(ai) => (text::opt_text(ai.model), text::opt_text(ai.base_url)),
        None => (None, None),
    }
}

/// The key that the provider is used with, where settling on one succeeds.
pub open spec fn provider_key(section: Option<AiSection>, value: Option<Seq<char>>) -> Option<
    Seq<char>,
> {
    match key_variable(section) {
        Some(_) => text::nonblank(value),
        None => None,
    }
}

/// Whether the key of the provider is missing although a variable for it is set.
pub open spec fn key_missing(section: Option<AiSection>, value: Option<Seq<char>>) -> bool {
    key_variable(section) is Some && text::nonblank(value) is None
}

/// Whether the model for recognizing speech is missing.
pub open spec fn model_dir_missing(section: Option<AsrSection>) -> bool {
    match section {
        Some(asr) => asr.model_dir is None,
        None => true,
    }
}

/// The first thing that stops the bot from running with these settings, in the order in which
/// they are looked at.
pub open spec fn first_error(
    file: FileConfig,
    token: Option<Seq<char>>,
    key: Option<Seq<char>>,
    error: ConfigError,
) -> bool {
    if text::nonblank(token) is None {
        error matches ConfigError::MissingVariable { name } && name@ == "DISCORD_TOKEN"@
    } else if key_missing(file.ai, key) {
        error matches ConfigError::MissingApiKey { name } && Some(name@) == key_variable(file.ai)
    } else if text::nonblank(provider_set(file.ai).0) is None {
        error matches ConfigError::Provider { .. }
    } else if model_dir_missing(file.asr) {
        error matches ConfigError::MissingModelDir
    } else {
        error matches ConfigError::ZeroTextChannel
    }
}

/// Whether the bot can run with these settings.
pub open spec fn usable(file: FileConfig, token: Option<Seq<char>>, key: Option<Seq<char>>) -> bool {
    &&& text::nonblank(token) is Some
    &&& !key_missing(file.ai, key)
    &&& text::nonblank(provider_set(file.ai).0) is Some
    &&& !model_dir_missing(file.asr)
    &&& text_channel_of(file.discord) != Some(0u64)
}

/// The switches of the settings: denoising, logging, and the three of the summary.
pub open spec fn switches_of(file: FileConfig) -> (bool, bool, bool, bool, bool) {
    (
        match file.audio {
            Some(audio) => switch(audio.enable_denoiser, false),
            None => false,
        },
        match file.debug {
            Some(debug) => switch(debug.log_live_transcript, false),
            None => false,
        },
        match file.summary {
            Some(summary) => switch(summary.enabled, false),
            None => false,
        },
        match file.summary {
            Some(summary) => switch(summary.post_in_thread, true),
            None => true,
        },
        match file.summary {
            Some(summary) => switch(summary.include_in_markdown, false),
            None => false,
        },
    )
}

/// The switches that the bot runs with.
pub open spec fn switches_view(config: AppConfig) -> (bool, bool, bool, bool, bool) {
    (
        config.audio.enable_denoiser,
        config.debug.log_live_transcript,
        config.summary.enabled,
        config.summary.post_in_thread,
        config.summary.include_in_markdown,
    )
}

fn resolve_provider(section: Option<&AiSection>, key: Option<String>) -> (r: Result<
    AiProviderConfig,
    ConfigError,
>)
    ensures
        match text::nonblank(provider_set(owned(section)).0) {
            Some(model) => {
                &&& r matches Ok(provider)
                &&& provider.model@ == model
                &&& text::opt_text(provider.api_key) == text::nonblank(text::opt_text(key))
                &&& provider.base_url@ == ai::base_url_of(provider_set(owned(section)).1)
            },
            None => r matches Err(ConfigError::Provider { .. }),
        },
{
    let (model, base_url) = match section {
        Some(ai) => (copied(&ai.model), copied(&ai.base_url)),
        None => (None, None),
    };
    match AiProviderConfig::openai_compatible(key, model, base_url) {
        Ok(provider) => Ok(provider),
        Err(error) => Err(ConfigError::Provider { error }),
    }
}

fn resolve_summary(section: Option<&SummarySection>) -> (r: SummaryRuntimeConfig)
    ensures
        match section {
            Some(summary) => {
                &&& r.enabled == switch(summary.enabled, false)
                &&& r.post_in_thread == switch(summary.post_in_thread, true)
                &&& r.include_in_markdown == switch(summary.include_in_markdown, false)
            },
            None => !r.enabled && r.post_in_thread && !r.include_in_markdown,
        },
{
    match section {
        Some(summary) => SummaryRuntimeConfig {
            enabled: switched(summary.enabled, false),
            post_in_thread: switched(summary.post_in_thread, true),
            include_in_markdown: switched(summary.include_in_markdown, false),
        },
        None => SummaryRuntimeConfig {
            enabled: false,
            post_in_thread: true,
            include_in_markdown: false,
        },
    }
}

impl AppConfig {
    /// The settings of a file, with the token of the bot, the value of the variable that the file
    /// names for the key of the provider, and the number of cores.
    pub fn resolve(
        file: &FileConfig,
        discord_token: Option<String>,
        api_key: Option<String>,
        detected_cores: i32,
    ) -> (r: Result<Self, ConfigError>)
        ensures
            r is Ok <==> usable(*file, text::opt_text(discord_token), text::opt_text(api_key)),
            r matches Err(error) ==> first_error(
                *file,
                text::opt_text(discord_token),
                text::opt_text(api_key),
                error,
            ),
            r matches Ok(config) ==> {
                &&& text::nonblank(text::opt_text(discord_token)) == Some(config.discord_token@)
                &&& text::nonblank(provider_set(file.ai).0) == Some(config.ai.provider.model@)
                &&& text::opt_text(config.ai.provider.api_key) == text::nonblank(
                    provider_key(file.ai, text::opt_text(api_key)),
                )
                &&& config.ai.provider.base_url@ == ai::base_url_of(provider_set(file.ai).1)
                &&& config.ai.request_timeout == timeout_of(file.ai)
                &&& asr_outcome(
                    file.asr,
                    detected_cores,
                    Ok::<AsrRuntimeConfig, ConfigError>(config.asr),
                )
                &&& switches_view(config) == switches_of(*file)
                &&& transcription_view(config.transcription) == transcription_of(
                    file.transcription,
                )
                &&& config.discord.autojoin_suffix@ == suffix_of(file.discord)
                &&& config.discord.autojoin_text_channel_id == text_channel_of(file.discord)
            },
    {
        let discord_token = match required_nonempty("DISCORD_TOKEN", discord_token) {
            Ok(token) => token,
            Err(error) => return Err(error),
        };
        let key = match resolve_ai_api_key(file.ai.as_ref(), api_key) {
            Ok(key) => key,
            Err(error) => return Err(error),
        };
        let provider = match resolve_provider(file.ai.as_ref(), key) {
            Ok(provider) => provider,
            Err(error) => return Err(error),
        };
        let request_timeout: u64 = match &file.ai {
            Some(ai) => floored(ai.request_timeout, 5, 30),
            None => 30,
        };
        let asr = match resolve_asr_runtime_config(file.asr.as_ref(), detected_cores) {
            Ok(asr) => asr,
            Err(error) => return Err(error),
        };
        let log_live_transcript = match &file.debug {
            Some(debug) => switched(debug.log_live_transcript, false),
            None => false,
        };
        let enable_denoiser = match &file.audio {
            Some(audio) => switched(audio.enable_denoiser, false),
            None => false,
        };
        let transcription = resolve_transcription_runtime_config(file.transcription.as_ref());
        let autojoin_suffix = resolve_autojoin_suffix(file.discord.as_ref());
        let autojoin_text_channel_id = match resolve_autojoin_text_channel_id(
            file.discord.as_ref(),
        ) {
            Ok(channel) => channel,
            Err(error) => return Err(error),
        };
        let summary = resolve_summary(file.summary.as_ref());
        Ok(
            AppConfig {
                discord_token,
                ai: AiRuntimeConfig { provider, request_timeout },
                asr,
                audio: AudioRuntimeConfig { enable_denoiser },
                debug: DebugRuntimeConfig { log_live_transcript },
                transcription,
                discord: DiscordRuntimeConfig { autojoin_suffix, autojoin_text_channel_id },
                summary,
            },
        )
    }
}

/// Whatever the file says, the bot runs with settings that work: pauses and buffers that are not
/// too short, calls kept for a day at least, between one and eight threads, and requests that may
/// take five seconds at least.
pub proof fn law_settings_keep_their_floors(file: FileConfig, cores: i32)
    ensures
        ({
            let (endpoint, max, context, days) = transcription_of(file.transcription);
            &&& endpoint >= 80
            &&& max >= 4000
            &&& context >= 250
            &&& days >= 1
        }),
        timeout_of(file.ai) >= 5,
        file.asr matches Some(asr) ==> 1 <= threads_of(asr.num_threads, cores) <= 8,
{
}

/// A key is never taken from the environment unless the file names the variable for it.
pub proof fn law_key_needs_a_name(section: Option<AiSection>, value: Option<Seq<char>>)
    requires
        key_variable(section) is None,
    ensures
        provider_key(section, value) is None,
        !key_missing(section, value),
{
}

/// A number that is set is taken unless it is below its floor; one that is not set, or is below it,
/// is the usual one.
pub proof fn law_numbers_are_taken_from_the_file(
    section: TranscriptionSection,
    ai: AiSection,
)
    ensures
        ({
            let (endpoint, max, context, days) = transcription_of(Some(section));
            &&& endpoint == (if section.endpoint_silence_ms is Some
                && section.endpoint_silence_ms.unwrap() >= 80 {
                section.endpoint_silence_ms.unwrap()
            } else {
                400
            })
            &&& max == (if section.rolling_ingest_max_ms is Some
                && section.rolling_ingest_max_ms.unwrap() >= 4_000 {
                section.rolling_ingest_max_ms.unwrap()
            } else {
                12_000
            })
            &&& context == (if section.rolling_ingest_context_ms is Some
                && section.rolling_ingest_context_ms.unwrap() >= 250 {
                section.rolling_ingest_context_ms.unwrap()
            } else {
                1_500
            })
            &&& days == (if section.retention_days is Some && section.retention_days.unwrap() >= 1 {
                section.retention_days.unwrap()
            } else {
                30
            })
        }),
        transcription_of(None) == (400u64, 12_000u64, 1_500u64, 30u64),
        timeout_of(Some(ai)) == (if ai.request_timeout is Some && ai.request_timeout.unwrap() >= 5 {
            ai.request_timeout.unwrap()
        } else {
            30
        }),
        timeout_of(None) == 30,
{
}

/// The number of threads is the one that is set, where that is positive; else three where there are
/// at least four cores, and as many as there are cores where there are fewer. There are never more
/// than eight, nor fewer than one.
pub proof fn law_threads_fit_the_cores(set: Option<i32>, cores: i32)
    ensures
        set matches Some(n) ==> {
            &&& 1 <= n <= 8 ==> threads_of(set, cores) == n
            &&& n > 8 ==> threads_of(set, cores) == 8
            &&& n < 1 ==> threads_of(set, cores) == threads_of(None, cores)
        },
        cores >= 4 ==> threads_of(None, cores) == 3,
        1 <= cores < 4 ==> threads_of(None, cores) == cores,
        cores < 1 ==> threads_of(None, cores) == 1,
        1 <= cores <= 8 ==> clamped(cores) == cores,
        cores > 8 ==> clamped(cores) == 8,
        cores < 1 ==> clamped(cores) == 1,
{
}

/// The suffix of channels that are joined by themselves is the one that is set, to the letter,
/// unless that is blank.
pub proof fn law_suffix_is_taken_to_the_letter(section: DiscordSection)
    ensures
        suffix_of(None) == "[Transcribe]"@,
        section.autojoin_suffix is None ==> suffix_of(Some(section)) == "[Transcribe]"@,
        section.autojoin_suffix matches Some(suffix) ==> suffix_of(Some(section)) == (
        if forall|i: int| 0 <= i < suffix@.len() ==> text::white_space(#[trigger] suffix@[i]) {
            "[Transcribe]"@
        } else {
            suffix@
        }),
        text_channel_of(Some(section)) == section.autojoin_text_channel_id,
        text_channel_of(None) is None,
{
    if let Some(suffix) = section.autojoin_suffix {
        text::law_trimming_takes_white_space_off(suffix@);
    }
}

/// A switch is as it is set. One that is not set is off, but for posting summaries in the thread.
pub proof fn law_switches_are_taken_from_the_file(file: FileConfig)
    ensures
        ({
            let (denoise, log, summarize, post, in_markdown) = switches_of(file);
            let on = |set: Option<bool>| set == Some(true);
            &&& denoise <==> file.audio is Some && on(file.audio.unwrap().enable_denoiser)
            &&& log <==> file.debug is Some && on(file.debug.unwrap().log_live_transcript)
            &&& summarize <==> file.summary is Some && on(file.summary.unwrap().enabled)
            &&& !post <==> file.summary is Some && file.summary.unwrap().post_in_thread == Some(
                false,
            )
            &&& in_markdown <==> file.summary is Some && on(
                file.summary.unwrap().include_in_markdown,
            )
        }),
{
}

/// The settings are used exactly where there is a token, a model, a directory for the recognizer's
/// model, the key that is called for, and no text channel that cannot be. What is told to be missing
/// is missing.
pub proof fn law_missing_settings_are_told(
    file: FileConfig,
    token: Option<Seq<char>>,
    key: Option<Seq<char>>,
    error: ConfigError,
)
    requires
        first_error(file, token, key, error),
        !usable(file, token, key),
    ensures
        ({
            let named = file.ai is Some && text::nonblank(
                text::opt_text(file.ai.unwrap().api_key_env),
            ) is Some;
            let model = file.ai is Some && text::nonblank(
                text::opt_text(file.ai.unwrap().model),
            ) is Some;
            let dir = file.asr is Some && file.asr.unwrap().model_dir is Some;
            let zero = file.discord is Some && file.discord.unwrap().autojoin_text_channel_id
                == Some(0u64);
            let keyed = !named || text::nonblank(key) is Some;
            let has_token = text::nonblank(token) is Some;
            &&& error is MissingVariable <==> !has_token
            &&& error is MissingApiKey <==> has_token && !keyed
            &&& error is Provider <==> has_token && keyed && !model
            &&& error is MissingModelDir <==> has_token && keyed && model && !dir
            &&& error is ZeroTextChannel <==> has_token && keyed && model && dir && zero
            &&& error matches ConfigError::MissingApiKey { name } ==> Some(name@) == text::nonblank(
                text::opt_text(file.ai.unwrap().api_key_env),
            )
        }),
{
}

/// Settings that lack nothing are used.
pub proof fn law_whole_settings_are_used(
    file: FileConfig,
    token: Option<Seq<char>>,
    key: Option<Seq<char>>,
)
    ensures
        ({
            let named = file.ai is Some && text::nonblank(
                text::opt_text(file.ai.unwrap().api_key_env),
            ) is Some;
            usable(file, token, key) <==> {
                &&& text::nonblank(token) is Some
                &&& named ==> text::nonblank(key) is Some
                &&& file.ai is Some
                &&& text::nonblank(text::opt_text(file.ai.unwrap().model)) is Some
                &&& file.asr is Some
                &&& file.asr.unwrap().model_dir is Some
                &&& file.discord is Some ==> file.discord.unwrap().autojoin_text_channel_id != Some(
                    0u64,
                )
            }
        }),
        file.ai matches Some(ai) ==> {
            &&& provider_set(file.ai).0 == text::opt_text(ai.model)
            &&& provider_set(file.ai).1 == text::opt_text(ai.base_url)
            &&& text::nonblank(text::opt_text(ai.api_key_env)) is Some ==> provider_key(
                file.ai,
                key,
            ) == text::nonblank(key)
        },
{
}

/// The recognizer is set up with the directory and the family that are set, to the letter, and as
/// many threads as fit; without a directory it is refused.
pub proof fn law_recognizer_is_set_up_as_told(
    section: Option<AsrSection>,
    cores: i32,
    r: Result<AsrRuntimeConfig, ConfigError>,
)
    requires
        asr_outcome(section, cores, r),
    ensures
        r is Ok <==> section is Some && section.unwrap().model_dir is Some,
        r matches Err(error) ==> error is MissingModelDir,
        r matches Ok(config) ==> {
            let asr = section.unwrap();
            &&& config.model_dir@ == asr.model_dir.unwrap()@
            &&& asr.model_family is None ==> config.model_family is None
            &&& asr.model_family matches Some(family) ==> config.model_family is Some
                && config.model_family.unwrap()@ == family@
            &&& 1 <= config.num_threads <= 8
            &&& asr.num_threads matches Some(n) ==> 1 <= n <= 8 ==> config.num_threads == n
            &&& asr.num_threads is None && cores >= 4 ==> config.num_threads == 3
        },
{
    if section is Some && section.unwrap().model_dir is Some {
        law_threads_fit_the_cores(section.unwrap().num_threads, cores);
    }
}

/// What is missing is told by its name.
pub proof fn law_messages_tell_what_is_missing(name: String, error: AiConfigError)
    ensures
        (ConfigError::MissingVariable { name }).message_view() == "missing "@ + name@,
        (ConfigError::MissingApiKey { name }).message_view()
            == "reading [ai].api_key_env: missing "@ + name@,
        (ConfigError::Provider { error }).message_view() == "missing [ai].model"@,
        ConfigError::MissingModelDir.message_view()
            == "missing ASR model directory: set [asr].model_dir in config.toml"@,
        ConfigError::ZeroTextChannel.message_view()
            == "[discord].autojoin_text_channel_id must be a non-zero Discord channel ID"@,
{
}

/// The settings hold each number and each switch under its own name.
pub proof fn law_settings_are_told_by_name(
    config: AppConfig,
    set: TranscriptionRuntimeConfig,
    section: AiSection,
)
    ensures
        switches_view(config).0 == config.audio.enable_denoiser,
        switches_view(config).1 == config.debug.log_live_transcript,
        switches_view(config).2 == config.summary.enabled,
        switches_view(config).3 == config.summary.post_in_thread,
        switches_view(config).4 == config.summary.include_in_markdown,
        transcription_view(set).0 == set.endpoint_silence_ms,
        transcription_view(set).1 == set.rolling_ingest_max_ms,
        transcription_view(set).2 == set.rolling_ingest_context_ms,
        transcription_view(set).3 == set.retention_days,
        owned(Some(&section)) == Some(section),
        owned(None::<&AiSection>) is None,
{
}

} // verus!
