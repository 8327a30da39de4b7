//! Talking to language models: providers, prompts, requests and replies.
use vstd::prelude::*;

use crate::text;

pub mod prompt;
pub mod providers;
pub mod reply;
pub mod request;
pub mod retry;
pub mod status;
pub mod stream;

verus! {

/// Where the requests of a bot without a configured server go.
pub const DEFAULT_BASE_URL: &'static str = "http://127.0.0.1:11434/v1";

/// A server that speaks the OpenAI protocol.
#[derive(Clone, Debug)]
pub struct AiProviderConfig {
    pub base_url: String,
    pub api_key: Option<String>,
    pub model: String,
}

/// Why a provider cannot be used as configured.
#[derive(Debug)]
pub enum AiConfigError {
    MissingModel,
}

impl AiConfigError {
    /// The text of the error.
    pub open spec fn message_view(self) -> Seq<char> {
        "missing [ai].model"@
    }

    /// What is told to the operator.
    pub fn message(&self) -> (r: String)
        ensures
            r@ == self.message_view(),
    {
        "missing [ai].model".to_string()
    }
}

/// The address that requests go to: the configured one without the white space round it and the
/// slashes behind it, or the default where nothing is left.
pub open spec fn base_url_of(configured: Option<Seq<char>>) -> Seq<char> {
    match configured {
        Some(url) => if text::without_trailing(text::trimmed(url), '/').len() == 0 {
            DEFAULT_BASE_URL@
        } else {
            text::without_trailing(text::trimmed(url), '/')
        },
        None => DEFAULT_BASE_URL@,
    }
}

/// The address that requests go to.
pub fn resolve_base_url(base_url: Option<String>) -> (r: String)
    ensures
        r@ == base_url_of(text::opt_text(base_url)),
{
    match base_url {
        Some(url) => {
            let url = text::trim_end_char(text::trim(url.as_str()).as_str(), '/');
            if text::is_empty(url.as_str()) {
                DEFAULT_BASE_URL.to_string()
            } else {
                url
            }
        },
        None => DEFAULT_BASE_URL.to_string(),
    }
}

impl AiProviderConfig {
    /// The provider with a key, a model and an address as they were configured. Only the model
    /// has to be there.
    pub fn openai_compatible(
        openai_api_key: Option<String>,
        openai_model: Option<String>,
        openai_base_url: Option<String>,
    ) -> (r: Result<Self, AiConfigError>)
        ensures
            r is Ok <==> text::nonblank(text::opt_text(openai_model)) is Some,
            r matches Ok(config) ==> {
                &&& text::nonblank(text::opt_text(openai_model)) == Some(config.model@)
                &&& text::opt_text(config.api_key) == text::nonblank(
                    text::opt_text(openai_api_key),
                )
                &&& config.base_url@ == base_url_of(text::opt_text(openai_base_url))
            },
    {
        match text::trim_nonblank(openai_model) {
            Some(model) => Ok(
                AiProviderConfig {
                    base_url: resolve_base_url(openai_base_url),
                    api_key: text::trim_nonblank(openai_api_key),
                    model,
                },
            ),
            None => Err(AiConfigError::MissingModel),
        }
    }

    /// The name of the provider in logs.
    pub fn provider_label(&self) -> (r: &'static str)
        ensures
            r@ == "openai-compatible"@,
    {
        "openai-compatible"
    }
}

/// A message of a conversation with a model.
#[derive(Clone, Debug)]
pub struct AiMessage {
    pub role: String,
    pub text: String,
}

impl View for AiMessage {
    type V = (Seq<char>, Seq<char>);

    open spec fn view(&self) -> (Seq<char>, Seq<char>) {
        (self.role@, self.text@)
    }
}

/// The roles and texts of a conversation.
pub open spec fn messages(turns: Seq<AiMessage>) -> Seq<(Seq<char>, Seq<char>)> {
    turns.map_values(|message: AiMessage| message@)
}

/// How many seconds a request may take.
pub fn request_timeout_seconds(configured: u64) -> (r: u64)
    ensures
        r == if configured < 1 { 1 } else { configured },
{
    if configured < 1 {
        1
    } else {
        configured
    }
}

/// The server is found at the address that was given, without white space round it and slashes at
/// its end, and on this machine where nothing else is left of it.
pub proof fn law_server_has_an_address(url: Seq<char>)
    ensures
        ({
            let trimmed = text::trimmed(url);
            let n = base_url_of(Some(url)).len();
            let slashes = forall|i: int| 0 <= i < trimmed.len() ==> #[trigger] trimmed[i] == '/';
            &&& slashes ==> base_url_of(Some(url)) == "http://127.0.0.1:11434/v1"@
            &&& !slashes ==> {
                &&& 0 < n <= trimmed.len()
                &&& base_url_of(Some(url)) == trimmed.subrange(0, n as int)
                &&& trimmed[n - 1] != '/'
                &&& forall|i: int| n <= i < trimmed.len() ==> #[trigger] trimmed[i] == '/'
            }
        }),
        base_url_of(None) == "http://127.0.0.1:11434/v1"@,
{
    let trimmed = text::trimmed(url);
    text::law_trailing_characters_go(trimmed, '/');
    let kept = text::without_trailing(trimmed, '/');
    if kept.len() > 0 {
        assert(kept[kept.len() - 1] == trimmed[kept.len() - 1]);
        assert(trimmed[kept.len() - 1] != '/');
    }
}

/// Each message carries its role and its words.
pub proof fn law_messages_are_roles_and_words(turns: Seq<AiMessage>, i: int)
    requires
        0 <= i < turns.len(),
    ensures
        messages(turns).len() == turns.len(),
        messages(turns)[i].0 == turns[i].role@,
        messages(turns)[i].1 == turns[i].text@,
{
}

} // verus!
