//! The choice between several model providers.
use vstd::prelude::*;

use crate::text;

verus! {

/// Where an Ollama server answers that was not configured.
pub const OLLAMA_BASE_URL: &'static str = "http://127.0.0.1:11434";

/// The Gemini model that is used where none was configured.
pub const GEMINI_DEFAULT_MODEL: &'static str = "gemini-flash-latest";

/// The OpenRouter model that is used where none was configured.
pub const OPENROUTER_DEFAULT_MODEL: &'static str = "openrouter/free";

/// A provider, with what its requests need.
#[derive(Clone, Debug)]
pub enum AiProviderConfig {
    Gemini { api_key: String, model: String },
    Ollama { base_url: String, model: String },
    OpenRouter { api_key: String, model: String },
}

/// Why a provider cannot be used as configured.
#[derive(Debug)]
pub enum SelectionError {
    MissingGeminiKey,
    MissingOllamaModel,
    MissingOpenRouterKey,
    Unsupported { provider: String },
}

impl SelectionError {
    /// The text of the error.
    pub open spec fn message_view(self) -> Seq<char> {
        match self {
            SelectionError::MissingGeminiKey =>
                "missing GEMINI_API_KEY (required when AI_PROVIDER=gemini)"@,
            SelectionError::MissingOllamaModel =>
                "missing OLLAMA_MODEL (required when AI_PROVIDER=ollama)"@,
            SelectionError::MissingOpenRouterKey =>
                "missing OPENROUTER_API_KEY (required when AI_PROVIDER=openrouter)"@,
            SelectionError::Unsupported { provider } => "unsupported AI_PROVIDER='"@ + provider@
                + "'. Expected one of: gemini, ollama, openrouter"@,
        }
    }

    /// What is told to the operator.
    pub fn message(&self) -> (r: String)
        ensures
            r@ == self.message_view(),
    {
        match self {
            SelectionError::MissingGeminiKey =>
                "missing GEMINI_API_KEY (required when AI_PROVIDER=gemini)".to_string(),
            SelectionError::MissingOllamaModel =>
                "missing OLLAMA_MODEL (required when AI_PROVIDER=ollama)".to_string(),
            SelectionError::MissingOpenRouterKey =>
                "missing OPENROUTER_API_KEY (required when AI_PROVIDER=openrouter)".to_string(),
            SelectionError::Unsupported { provider } => {
                let mut out = String::new();
                out.append("unsupported AI_PROVIDER='");
                out.append(provider.as_str());
                out.append("'. Expected one of: gemini, ollama, openrouter");
                assert(out@ =~= self.message_view());
                out
            },
        }
    }
}

/// A configured text, or the one that stands in for it.
pub open spec fn or_default(configured: Option<Seq<char>>, default: Seq<char>) -> Seq<char> {
    match text::nonblank(configured) {
        Some(s) => s,
        None => default,
    }
}

fn unless_blank(configured: Option<String>, default: &str) -> (r: String)
    ensures
        r@ == or_default(text::opt_text(configured), default@),
{
    match text::trim_nonblank(configured) {
        Some(s) => s,
        None => default.to_string(),
    }
}

/// What the choice of Gemini comes to.
pub open spec fn gemini_outcome(
    api_key: Option<Seq<char>>,
    model: Option<Seq<char>>,
    r: Result<AiProviderConfig, SelectionError>,
) -> bool {
    match text::nonblank(api_key) {
        Some(key) => {
            &&& r matches Ok(AiProviderConfig::Gemini { api_key: kept, model: chosen })
            &&& kept@ == key
            &&& chosen@ == or_default(model, GEMINI_DEFAULT_MODEL@)
        },
        None => r matches Err(SelectionError::MissingGeminiKey),
    }
}

/// Gemini, with a key.
pub fn gemini_provider_config(api_key: Option<String>, model: Option<String>) -> (r: Result<
    AiProviderConfig,
    SelectionError,
>)
    ensures
        gemini_outcome(text::opt_text(api_key), text::opt_text(model), r),
{
    match text::trim_nonblank(api_key) {
        Some(api_key) => Ok(
            AiProviderConfig::Gemini { api_key, model: unless_blank(model, GEMINI_DEFAULT_MODEL) },
        ),
        None => Err(SelectionError::MissingGeminiKey),
    }
}

/// The address of an Ollama server: the configured one without the white space round it and the
/// slashes behind it.
pub open spec fn ollama_base_url(configured: Option<Seq<char>>) -> Seq<char> {
    match text::nonblank(configured) {
        Some(url) => text::without_trailing(url, '/'),
        None => OLLAMA_BASE_URL@,
    }
}

/// The address of an Ollama server.
pub fn resolve_ollama_base_url(base_url: Option<String>) -> (r: String)
    ensures
        r@ == ollama_base_url(text::opt_text(base_url)),
{
    match text::trim_nonblank(base_url) {
        Some(url) => text::trim_end_char(url.as_str(), '/'),
        None => OLLAMA_BASE_URL.to_string(),
    }
}

/// What the choice of Ollama comes to.
pub open spec fn ollama_outcome(
    model: Option<Seq<char>>,
    base_url: Option<Seq<char>>,
    r: Result<AiProviderConfig, SelectionError>,
) -> bool {
    match text::nonblank(model) {
        Some(model) => {
            &&& r matches Ok(AiProviderConfig::Ollama { base_url: address, model: chosen })
            &&& address@ == ollama_base_url(base_url)
            &&& chosen@ == model
        },
        None => r matches Err(SelectionError::MissingOllamaModel),
    }
}

/// Ollama, with a model.
pub fn ollama_provider_config(model: Option<String>, base_url: Option<String>) -> (r: Result<
    AiProviderConfig,
    SelectionError,
>)
    ensures
        ollama_outcome(text::opt_text(model), text::opt_text(base_url), r),
{
    match text::trim_nonblank(model) {
        Some(model) => Ok(
            AiProviderConfig::Ollama { base_url: resolve_ollama_base_url(base_url), model },
        ),
        None => Err(SelectionError::MissingOllamaModel),
    }
}

/// What the choice of OpenRouter comes to.
pub open spec fn openrouter_outcome(
    api_key: Option<Seq<char>>,
    model: Option<Seq<char>>,
    r: Result<AiProviderConfig, SelectionError>,
) -> bool {
    match text::nonblank(api_key) {
        Some(key) => {
            &&& r matches Ok(AiProviderConfig::OpenRouter { api_key: kept, model: chosen })
            &&& kept@ == key
            &&& chosen@ == or_default(model, OPENROUTER_DEFAULT_MODEL@)
        },
        None => r matches Err(SelectionError::MissingOpenRouterKey),
    }
}

/// OpenRouter, with a key.
pub fn openrouter_provider_config(api_key: Option<String>, model: Option<String>) -> (r: Result<
    AiProviderConfig,
    SelectionError,
>)
    ensures
        openrouter_outcome(text::opt_text(api_key), text::opt_text(model), r),
{
    match text::trim_nonblank(api_key) {
        Some(api_key) => Ok(
            AiProviderConfig::OpenRouter {
                api_key,
                model: unless_blank(model, OPENROUTER_DEFAULT_MODEL),
            },
        ),
        None => Err(SelectionError::MissingOpenRouterKey),
    }
}

impl AiProviderConfig {
    /// The provider with this name, in whatever case and with white space round it, set up with
    /// what was configured for it.
    pub fn from_selection(
        provider: &str,
        gemini_api_key: Option<String>,
        gemini_model: Option<String>,
        ollama_model: Option<String>,
        ollama_base_url: Option<String>,
        openrouter_api_key: Option<String>,
        openrouter_model: Option<String>,
    ) -> (r: Result<Self, SelectionError>)
        ensures
            ({
                let name = text::ascii_lowercase(text::trimmed(provider@));
                if name == "gemini"@ {
                    gemini_outcome(text::opt_text(gemini_api_key), text::opt_text(gemini_model), r)
                } else if name == "ollama"@ {
                    ollama_outcome(
                        text::opt_text(ollama_model),
                        text::opt_text(ollama_base_url),
                        r,
                    )
                } else if name == "openrouter"@ {
                    openrouter_outcome(
                        text::opt_text(openrouter_api_key),
                        text::opt_text(openrouter_model),
                        r,
                    )
                } else {
                    r matches Err(SelectionError::Unsupported { provider: shown }) && shown@ == name
                }
            }),
    {
        let name = text::to_ascii_lowercase(text::trim(provider).as_str());
        if text::same(name.as_str(), "gemini") {
            gemini_provider_config(gemini_api_key, gemini_model)
        } else if text::same(name.as_str(), "ollama") {
            ollama_provider_config(ollama_model, ollama_base_url)
        } else if text::same(name.as_str(), "openrouter") {
            openrouter_provider_config(openrouter_api_key, openrouter_model)
        } else {
            Err(SelectionError::Unsupported { provider: name })
        }
    }

    /// The name of the provider in logs.
    pub fn provider_label(&self) -> (r: &'static str)
        ensures
            r@ == match self {
                AiProviderConfig::Gemini { .. } => "gemini"@,
                AiProviderConfig::Ollama { .. } => "ollama"@,
                AiProviderConfig::OpenRouter { .. } => "openrouter"@,
            },
    {
        match self {
            AiProviderConfig::Gemini { .. } => "gemini",
            AiProviderConfig::Ollama { .. } => "ollama",
            AiProviderConfig::OpenRouter { .. } => "openrouter",
        }
    }

    /// The name of the model in logs.
    pub fn model_label(&self) -> (r: &str)
        ensures
            r@ == match self {
                AiProviderConfig::Gemini { model, .. } => model@,
                AiProviderConfig::Ollama { model, .. } => model@,
                AiProviderConfig::OpenRouter { model, .. } => model@,
            },
    {
        match self {
            AiProviderConfig::Gemini { model, .. } => model.as_str(),
            AiProviderConfig::Ollama { model, .. } => model.as_str(),
            AiProviderConfig::OpenRouter { model, .. } => model.as_str(),
        }
    }
}

/// A provider is set up with the key and the model that were given, without the white space round
/// them. Without a key, or a model where there is none by itself, it is refused; where there is one
/// by itself, that is taken.
pub proof fn law_providers_take_what_is_given(
    key: Option<Seq<char>>,
    model: Option<Seq<char>>,
    r: Result<AiProviderConfig, SelectionError>,
)
    ensures
        gemini_outcome(key, model, r) ==> {
            &&& r is Ok <==> text::nonblank(key) is Some
            &&& r matches Err(error) ==> error is MissingGeminiKey
            &&& r matches Ok(config) ==> {
                &&& config is Gemini
                &&& Some(config->Gemini_api_key@) == text::nonblank(key)
                &&& config->Gemini_model@ == (match text::nonblank(model) {
                    Some(name) => name,
                    None => "gemini-flash-latest"@,
                })
            }
        },
        openrouter_outcome(key, model, r) ==> {
            &&& r is Ok <==> text::nonblank(key) is Some
            &&& r matches Err(error) ==> error is MissingOpenRouterKey
            &&& r matches Ok(config) ==> {
                &&& config is OpenRouter
                &&& Some(config->OpenRouter_api_key@) == text::nonblank(key)
                &&& config->OpenRouter_model@ == (match text::nonblank(model) {
                    Some(name) => name,
                    None => "openrouter/free"@,
                })
            }
        },
{
}

/// Ollama needs a model, and is found at the address that was given, without slashes at its end, or
/// on this machine.
pub proof fn law_ollama_needs_a_model(
    model: Option<Seq<char>>,
    base_url: Option<Seq<char>>,
    r: Result<AiProviderConfig, SelectionError>,
)
    requires
        ollama_outcome(model, base_url, r),
    ensures
        r is Ok <==> text::nonblank(model) is Some,
        r matches Err(error) ==> error is MissingOllamaModel,
        r matches Ok(config) ==> {
            &&& config is Ollama
            &&& Some(config->Ollama_model@) == text::nonblank(model)
            &&& config->Ollama_base_url@ == (match text::nonblank(base_url) {
                Some(url) => text::without_trailing(url, '/'),
                None => "http://127.0.0.1:11434"@,
            })
        },
{
}

/// What is missing for a provider is told by its name, and so is a provider that is not known.
pub proof fn law_missing_keys_are_told(provider: String)
    ensures
        SelectionError::MissingGeminiKey.message_view()
            == "missing GEMINI_API_KEY (required when AI_PROVIDER=gemini)"@,
        SelectionError::MissingOllamaModel.message_view()
            == "missing OLLAMA_MODEL (required when AI_PROVIDER=ollama)"@,
        SelectionError::MissingOpenRouterKey.message_view()
            == "missing OPENROUTER_API_KEY (required when AI_PROVIDER=openrouter)"@,
        (SelectionError::Unsupported { provider }).message_view() == "unsupported AI_PROVIDER='"@
            + provider@ + "'. Expected one of: gemini, ollama, openrouter"@,
{
}

} // verus!
