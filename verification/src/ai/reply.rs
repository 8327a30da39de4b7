//! The replies of a model, and what they say where something went wrong.
use vstd::prelude::*;

use crate::ai::status;
use crate::ai::status::HttpStatus;
use crate::json;
use crate::json::Json;
use crate::text;

verus! {

broadcast use vstd::seq::group_seq_axioms;

/// The most characters of a reply that are shown as an error.
pub const ERROR_BODY_MAX_CHARS: usize = 500;

/// The services that conversations are held with.
#[derive(Clone, Copy, Debug, PartialEq, Eq, Structural)]
pub enum Service {
    OpenAiCompatible,
    OpenRouter,
    Ollama,
    Gemini,
}

impl Service {
    /// The service, as errors of its API name it.
    pub open spec fn api_view(self) -> Seq<char> {
        match self {
            Service::OpenAiCompatible => "OpenAI-compatible API"@,
            Service::OpenRouter => "OpenRouter API"@,
            Service::Ollama => "Ollama API"@,
            Service::Gemini => "Gemini API"@,
        }
    }

    fn api(&self) -> (r: &'static str)
        ensures
            r@ == self.api_view(),
    {
        match self {
            Service::OpenAiCompatible => "OpenAI-compatible API",
            Service::OpenRouter => "OpenRouter API",
            Service::Ollama => "Ollama API",
            Service::Gemini => "Gemini API",
        }
    }

    /// The service, as errors in its replies name it.
    pub open spec fn name_view(self) -> Seq<char> {
        match self {
            Service::OpenAiCompatible => "OpenAI-compatible API"@,
            Service::OpenRouter => "OpenRouter"@,
            Service::Ollama => "Ollama"@,
            Service::Gemini => "Gemini"@,
        }
    }

    fn name(&self) -> (r: &'static str)
        ensures
            r@ == self.name_view(),
    {
        match self {
            Service::OpenAiCompatible => "OpenAI-compatible API",
            Service::OpenRouter => "OpenRouter",
            Service::Ollama => "Ollama",
            Service::Gemini => "Gemini",
        }
    }
}

/// Why a reply is of no use.
#[derive(Debug)]
pub enum ReplyError {
    /// The server refused, with a message.
    Http { service: Service, status: HttpStatus, message: String },
    /// The reply is not JSON.
    InvalidJson,
    /// The reply holds no text.
    NoText { service: Service },
    /// The reply of Gemini holds no text, with what it says of the reasons.
    NoGeminiText { summary: bool, finish_reason: Option<String>, block_reason: Option<String> },
    /// The list of models is not JSON.
    InvalidModelList,
    /// The list of models is not where it should be.
    ModelListWithoutData,
    /// The list of models lacks the configured one.
    ModelNotListed { model: String },
}

/// How an optional reason is written.
pub open spec fn reason_form(reason: Option<Seq<char>>) -> Seq<char> {
    match reason {
        Some(reason) => "Some("@ + text::debug_form(reason) + ")"@,
        None => "None"@,
    }
}

fn push_reason(out: &mut String, reason: &Option<String>)
    ensures
        final(out)@ == old(out)@ + reason_form(text::opt_text(*reason)),
{
    match reason {
        Some(reason) => {
            out.append("Some(");
            out.append(text::debug_text(reason.as_str()).as_str());
            out.append(")");
            assert(out@ =~= old(out)@ + ("Some("@ + text::debug_form(reason@) + ")"@));
        },
        None => {
            out.append("None");
        },
    }
}

impl ReplyError {
    /// The text of the error.
    pub open spec fn message_view(self) -> Seq<char> {
        match self {
            ReplyError::Http { service, status, message } => service.api_view()
                + " returned HTTP "@ + status::status_text(status.spec_code()) + ": "@ + message@,
            ReplyError::InvalidJson => "OpenAI-compatible API returned invalid JSON"@,
            ReplyError::NoText { service } => service.name_view() + " returned no text"@,
            ReplyError::NoGeminiText { summary, finish_reason, block_reason } => (if summary {
                "Gemini returned no summary text (finish_reason="@
            } else {
                "Gemini returned no text (finish_reason="@
            }) + reason_form(text::opt_text(finish_reason)) + ", block_reason="@ + reason_form(
                text::opt_text(block_reason),
            ) + ")"@,
            ReplyError::InvalidModelList =>
                "OpenAI-compatible API returned invalid JSON while listing models"@,
            ReplyError::ModelListWithoutData =>
                "OpenAI-compatible API returned a model list without a data array"@,
            ReplyError::ModelNotListed { model } =>
                "OpenAI-compatible API model list does not contain configured model "@
                    + text::debug_form(model@),
        }
    }

    /// What is told to the user.
    pub fn message(&self) -> (r: String)
        ensures
            r@ == self.message_view(),
    {
        let mut out = String::new();
        match self {
            ReplyError::Http { service, status, message } => {
                out.append(service.api());
                out.append(" returned HTTP ");
                out.append(status.text().as_str());
                out.append(": ");
                out.append(message.as_str());
            },
            ReplyError::InvalidJson => {
                out.append("OpenAI-compatible API returned invalid JSON");
            },
            ReplyError::NoText { service } => {
                out.append(service.name());
                out.append(" returned no text");
            },
            ReplyError::NoGeminiText { summary, finish_reason, block_reason } => {
                if *summary {
                    out.append("Gemini returned no summary text (finish_reason=");
                } else {
                    out.append("Gemini returned no text (finish_reason=");
                }
                push_reason(&mut out, finish_reason);
                out.append(", block_reason=");
                push_reason(&mut out, block_reason);
                out.append(")");
            },
            ReplyError::InvalidModelList => {
                out.append("OpenAI-compatible API returned invalid JSON while listing models");
            },
            ReplyError::ModelListWithoutData => {
                out.append("OpenAI-compatible API returned a model list without a data array");
            },
            ReplyError::ModelNotListed { model } => {
                out.append("OpenAI-compatible API model list does not contain configured model ");
                out.append(text::debug_text(model.as_str()).as_str());
            },
        }
        assert(out@ =~= self.message_view());
        out
    }
}

// ---------------------------------------------------------------------------
// Errors in replies
// ---------------------------------------------------------------------------

/// The first of two texts that is there.
pub open spec fn or_text(first: Option<Seq<char>>, second: Option<Seq<char>>) -> Option<Seq<char>> {
    match first {
        Some(s) => Some(s),
        None => second,
    }
}

/// The message of an error as a server of the OpenAI protocol reports it.
pub open spec fn reported_error(reply: json::JsonView) -> Option<Seq<char>> {
    or_text(
        json::text_of(json::field(json::field(reply, "error"@), "message"@)),
        or_text(
            json::text_of(json::field(reply, "error"@)),
            json::text_of(json::field(reply, "message"@)),
        ),
    )
}

/// The message of an error as a server of the OpenAI protocol reports it.
pub fn extract_error_message<'a>(reply: Option<&'a Json>) -> (r: Option<&'a str>)
    ensures
        json::opt_text(r) == reported_error(json::seen(reply)),
{
    let error = json::get(reply, "error");
    match json::as_str(json::get(error, "message")) {
        Some(s) => Some(s),
        None => match json::as_str(error) {
            Some(s) => Some(s),
            None => json::as_str(json::get(reply, "message")),
        },
    }
}

/// What a refusal is shown as: the reported message, else the body, cut off where there is a
/// limit, else a text that says nothing.
pub open spec fn refusal_text(
    reply: json::JsonView,
    body: Seq<char>,
    limit: Option<nat>,
) -> Seq<char> {
    match reported_error(reply) {
        Some(message) => message,
        None => if text::trimmed(body).len() == 0 {
            "unknown API error"@
        } else {
            match limit {
                Some(limit) => text::head_of(text::trimmed(body), limit),
                None => text::trimmed(body),
            }
        },
    }
}

fn refusal(reply: Option<&Json>, body: &str, limit: Option<usize>) -> (r: String)
    ensures
        r@ == refusal_text(
            json::seen(reply),
            body@,
            match limit {
                Some(limit) => Some(limit as nat),
                None => None,
            },
        ),
{
    match extract_error_message(reply) {
        Some(message) => message.to_string(),
        None => {
            let body = text::trim(body);
            if text::is_empty(body.as_str()) {
                "unknown API error".to_string()
            } else {
                match limit {
                    Some(limit) => text::truncate_chars(body.as_str(), limit),
                    None => body,
                }
            }
        },
    }
}

/// Whether a status says that the request succeeded.
pub open spec fn succeeded(status: HttpStatus) -> bool {
    200 <= status.spec_code() <= 299
}

/// The document of a body, null where it is none.
pub open spec fn document_or_null(body: Seq<char>) -> json::JsonView {
    match json::json_document(body) {
        Some(reply) => reply,
        None => json::JsonView::Null,
    }
}

/// Fails with the message of a reply, unless its status says that the request succeeded. `reply`
/// is the document in the body, where it is one.
pub fn check_status(
    service: Service,
    status: HttpStatus,
    reply: Option<&Json>,
    body: &str,
    limit: Option<usize>,
) -> (r: Result<(), ReplyError>)
    ensures
        r is Ok <==> succeeded(status),
        r matches Err(error) ==> {
            &&& error is Http
            &&& error->Http_service == service
            &&& error->Http_status == status
            &&& error->Http_message@ == refusal_text(
                json::seen(reply),
                body@,
                match limit {
                    Some(limit) => Some(limit as nat),
                    None => None,
                },
            )
        },
{
    if status.is_success() {
        Ok(())
    } else {
        Err(ReplyError::Http { service, status, message: refusal(reply, body, limit) })
    }
}

/// Fails with the message of a reply, unless its status says that the request succeeded.
pub fn ensure_success_response(status: HttpStatus, body: &str) -> (r: Result<(), ReplyError>)
    ensures
        r is Ok <==> succeeded(status),
        r matches Err(error) ==> {
            &&& error is Http
            &&& error->Http_service == Service::OpenAiCompatible
            &&& error->Http_status == status
            &&& error->Http_message@ == refusal_text(
                document_or_null(body@),
                body@,
                Some(ERROR_BODY_MAX_CHARS as nat),
            )
        },
{
    let reply = Json::parse(body);
    check_status(
        Service::OpenAiCompatible,
        status,
        reply.as_ref(),
        body,
        Some(ERROR_BODY_MAX_CHARS),
    )
}

// ---------------------------------------------------------------------------
// Whole replies
// ---------------------------------------------------------------------------

/// The text of a chat reply.
pub open spec fn chat_text(reply: json::JsonView) -> Option<Seq<char>> {
    match json::first_of(json::field(reply, "choices"@)) {
        Some(choice) => text::nonblank(
            json::text_of(json::field(json::field(choice, "message"@), "content"@)),
        ),
        None => None,
    }
}

fn trimmed_text(value: Option<&str>) -> (r: Option<String>)
    ensures
        text::opt_text(r) == text::nonblank(json::opt_text(value)),
{
    match value {
        Some(s) => {
            let inner = text::trim(s);
            if text::is_empty(inner.as_str()) {
                None
            } else {
                Some(inner)
            }
        },
        None => None,
    }
}

fn find_chat_text(reply: Option<&Json>) -> (r: Option<String>)
    ensures
        text::opt_text(r) == chat_text(json::seen(reply)),
{
    match json::first(json::get(reply, "choices")) {
        Some(choice) => trimmed_text(
            json::as_str(json::get(json::get(Some(choice), "message"), "content")),
        ),
        None => None,
    }
}

/// What a reply of a server of the OpenAI protocol comes to: its text, or the error.
pub open spec fn openai_outcome(
    status: HttpStatus,
    reply: json::JsonView,
    body: Seq<char>,
    r: Result<String, ReplyError>,
) -> bool {
    if !succeeded(status) {
        &&& r matches Err(ReplyError::Http { service, status: shown, message })
        &&& service == Service::OpenAiCompatible
        &&& shown == status
        &&& message@ == refusal_text(reply, body, None)
    } else if reply is Null {
        r matches Err(ReplyError::InvalidJson)
    } else {
        match chat_text(reply) {
            Some(text) => r matches Ok(shown) && shown@ == text,
            None => r matches Err(ReplyError::NoText { service })
                && service == Service::OpenAiCompatible,
        }
    }
}

/// The text in a reply of a server of the OpenAI protocol. `reply` is the document in the body,
/// where it is one.
pub fn openai_reply(status: HttpStatus, reply: Option<&Json>, body: &str) -> (r: Result<
    String,
    ReplyError,
>)
    ensures
        openai_outcome(status, json::seen(reply), body@, r),
{
    match check_status(Service::OpenAiCompatible, status, reply, body, None) {
        Err(error) => Err(error),
        Ok(()) => {
            if json::is_null(reply) {
                return Err(ReplyError::InvalidJson);
            }
            match find_chat_text(reply) {
                Some(text) => Ok(text),
                None => Err(ReplyError::NoText { service: Service::OpenAiCompatible }),
            }
        },
    }
}

/// The text in a reply of a server of the OpenAI protocol.
pub fn parse_openai_response(status: HttpStatus, body: &str) -> (r: Result<String, ReplyError>)
    ensures
        openai_outcome(status, document_or_null(body@), body@, r),
{
    let reply = Json::parse(body);
    openai_reply(status, reply.as_ref(), body)
}

/// The text in a reply of OpenRouter, or its message where it refuses.
pub fn parse_openrouter_response(status: HttpStatus, response: &Json) -> (r: Result<
    String,
    ReplyError,
>)
    ensures
        if !succeeded(status) {
            &&& r matches Err(ReplyError::Http { service, status: shown, message })
            &&& service == Service::OpenRouter
            &&& shown == status
            &&& Some(message@) == or_text(
                json::text_of(json::field(json::field(response@, "error"@), "message"@)),
                or_text(
                    json::text_of(json::field(response@, "message"@)),
                    Some("unknown OpenRouter API error"@),
                ),
            )
        } else {
            match chat_text(response@) {
                Some(text) => r matches Ok(shown) && shown@ == text,
                None => r matches Err(ReplyError::NoText { service })
                    && service == Service::OpenRouter,
            }
        },
{
    let reply = Some(response);
    if !status.is_success() {
        let message = match json::as_str(json::get(json::get(reply, "error"), "message")) {
            Some(message) => message,
            None => match json::as_str(json::get(reply, "message")) {
                Some(message) => message,
                None => "unknown OpenRouter API error",
            },
        };
        return Err(
            ReplyError::Http { service: Service::OpenRouter, status, message: message.to_string() },
        );
    }
    match find_chat_text(reply) {
        Some(text) => Ok(text),
        None => Err(ReplyError::NoText { service: Service::OpenRouter }),
    }
}

/// The text in a reply of Ollama, or its message where it refuses.
pub fn parse_ollama_response(status: HttpStatus, response: &Json) -> (r: Result<
    String,
    ReplyError,
>)
    ensures
        if !succeeded(status) {
            &&& r matches Err(ReplyError::Http { service, status: shown, message })
            &&& service == Service::Ollama
            &&& shown == status
            &&& Some(message@) == or_text(
                json::text_of(json::field(response@, "error"@)),
                or_text(
                    json::text_of(json::field(response@, "message"@)),
                    Some("unknown Ollama API error"@),
                ),
            )
        } else {
            match text::nonblank(
                json::text_of(json::field(json::field(response@, "message"@), "content"@)),
            ) {
                Some(text) => r matches Ok(shown) && shown@ == text,
                None => r matches Err(ReplyError::NoText { service }) && service == Service::Ollama,
            }
        },
{
    let reply = Some(response);
    if !status.is_success() {
        let message = match json::as_str(json::get(reply, "error")) {
            Some(message) => message,
            None => match json::as_str(json::get(reply, "message")) {
                Some(message) => message,
                None => "unknown Ollama API error",
            },
        };
        return Err(
            ReplyError::Http { service: Service::Ollama, status, message: message.to_string() },
        );
    }
    match trimmed_text(json::as_str(json::get(json::get(reply, "message"), "content"))) {
        Some(text) => Ok(text),
        None => Err(ReplyError::NoText { service: Service::Ollama }),
    }
}

// ---------------------------------------------------------------------------
// Gemini
// ---------------------------------------------------------------------------

/// What a reply of Gemini answers.
#[derive(Clone, Copy, Debug, PartialEq, Eq, Structural)]
pub enum GeminiRequest {
    /// A conversation.
    Chat,
    /// A question about a transcript, whose answer is kept as it stands.
    Answer,
    /// A request for a summary.
    Summary,
}

/// The texts of those parts that have one.
pub open spec fn part_texts(parts: Seq<json::JsonView>) -> Seq<Seq<char>>
    decreases parts.len(),
{
    if parts.len() == 0 {
        Seq::empty()
    } else {
        let before = part_texts(parts.drop_last());
        match json::text_of(json::field(parts.last(), "text"@)) {
            Some(text) => before.push(text),
            None => before,
        }
    }
}

/// The texts of the first candidate, one below the other.
pub open spec fn gemini_text(reply: json::JsonView) -> Option<Seq<char>> {
    match json::first_of(json::field(reply, "candidates"@)) {
        Some(candidate) => match json::items_of(
            json::field(json::field(candidate, "content"@), "parts"@),
        ) {
            Some(parts) => Some(text::joined(part_texts(parts), "\n"@)),
            None => None,
        },
        None => None,
    }
}

/// The text that is made of a reply of Gemini, unless it is blank.
pub open spec fn gemini_shown(reply: json::JsonView, request: GeminiRequest) -> Option<Seq<char>> {
    match text::nonblank(gemini_text(reply)) {
        Some(trimmed) => if request == GeminiRequest::Answer {
            gemini_text(reply)
        } else {
            Some(trimmed)
        },
        None => None,
    }
}

/// Why the first candidate ended.
pub open spec fn gemini_finish_reason(reply: json::JsonView) -> Option<Seq<char>> {
    match json::first_of(json::field(reply, "candidates"@)) {
        Some(candidate) => json::text_of(json::field(candidate, "finishReason"@)),
        None => None,
    }
}

fn find_gemini_text(reply: Option<&Json>) -> (r: Option<String>)
    ensures
        text::opt_text(r) == gemini_text(json::seen(reply)),
{
    let candidate = json::first(json::get(reply, "candidates"));
    if candidate.is_none() {
        return None;
    }
    match json::as_array(json::get(json::get(candidate, "content"), "parts")) {
        Some(parts) => {
            let mut list: Vec<String> = Vec::new();
            let ghost all = json::items_view(parts@);
            for i in 0..parts.len()
                invariant
                    all == json::items_view(parts@),
                    text::texts(list@) == part_texts(all.take(i as int)),
            {
                assert(all.take(i + 1).drop_last() =~= all.take(i as int));
                assert(all.take(i + 1).last() == parts@[i as int]@);
                if let Some(text) = json::as_str(json::get(Some(&parts[i]), "text")) {
                    text::push_text(&mut list, text);
                }
            }
            assert(all.take(all.len() as int) =~= all);
            Some(text::join(list.as_slice(), "\n"))
        },
        None => None,
    }
}

fn owned(value: Option<&str>) -> (r: Option<String>)
    ensures
        text::opt_text(r) == json::opt_text(value),
{
    match value {
        Some(s) => Some(s.to_string()),
        None => None,
    }
}

/// The text in a reply of Gemini, or its message where it refuses, or its reasons where it says
/// nothing.
pub fn parse_gemini_response(status: HttpStatus, response: &Json, request: GeminiRequest) -> (r:
    Result<String, ReplyError>)
    ensures
        if !succeeded(status) {
            &&& r matches Err(ReplyError::Http { service, status: shown, message })
            &&& service == Service::Gemini
            &&& shown == status
            &&& Some(message@) == or_text(
                json::text_of(json::field(json::field(response@, "error"@), "message"@)),
                Some("unknown Gemini API error"@),
            )
        } else {
            match gemini_shown(response@, request) {
                Some(text) => r matches Ok(shown) && shown@ == text,
                None => {
                    &&& r matches Err(
                        ReplyError::NoGeminiText { summary, finish_reason, block_reason },
                    )
                    &&& summary == (request == GeminiRequest::Summary)
                    &&& text::opt_text(finish_reason) == gemini_finish_reason(response@)
                    &&& text::opt_text(block_reason) == json::text_of(
                        json::field(json::field(response@, "promptFeedback"@), "blockReason"@),
                    )
                },
            }
        },
{
    let reply = Some(response);
    if !status.is_success() {
        let message = match json::as_str(json::get(json::get(reply, "error"), "message")) {
            Some(message) => message,
            None => "unknown Gemini API error",
        };
        return Err(
            ReplyError::Http { service: Service::Gemini, status, message: message.to_string() },
        );
    }
    if let Some(text) = find_gemini_text(reply) {
        let trimmed = text::trim(text.as_str());
        if !text::is_empty(trimmed.as_str()) {
            if request == GeminiRequest::Answer {
                return Ok(text);
            }
            return Ok(trimmed);
        }
    }
    let block_reason = json::as_str(json::get(json::get(reply, "promptFeedback"), "blockReason"));
    let finish_reason = match json::first(json::get(reply, "candidates")) {
        Some(candidate) => json::as_str(json::get(Some(candidate), "finishReason")),
        None => None,
    };
    Err(
        ReplyError::NoGeminiText {
            summary: request == GeminiRequest::Summary,
            finish_reason: owned(finish_reason),
            block_reason: owned(block_reason),
        },
    )
}

// ---------------------------------------------------------------------------
// Model lists
// ---------------------------------------------------------------------------

/// Whether a list of models has one with this id.
pub open spec fn lists_model(models: Seq<json::JsonView>, model: Seq<char>) -> bool {
    exists|i: int|
        0 <= i < models.len() && json::text_of(json::field(#[trigger] models[i], "id"@)) == Some(
            model,
        )
}

/// What a list of models comes to for the configured one.
pub open spec fn model_list_outcome(
    reply: Option<json::JsonView>,
    model: Seq<char>,
    r: Result<(), ReplyError>,
) -> bool {
    match reply {
        None => r matches Err(ReplyError::InvalidModelList),
        Some(reply) => match json::items_of(json::field(reply, "data"@)) {
            None => r matches Err(ReplyError::ModelListWithoutData),
            Some(models) => if lists_model(models, model) {
                r is Ok
            } else {
                r matches Err(ReplyError::ModelNotListed { model: shown }) && shown@ == model
            },
        },
    }
}

/// Fails unless the configured model is on the list. `reply` is the document of the list, where
/// it is one.
pub fn check_model_list(reply: Option<&Json>, model: &str) -> (r: Result<(), ReplyError>)
    ensures
        model_list_outcome(
            match reply {
                Some(reply) => Some(reply@),
                None => None,
            },
            model@,
            r,
        ),
{
    if reply.is_none() {
        return Err(ReplyError::InvalidModelList);
    }
    match json::as_array(json::get(reply, "data")) {
        None => Err(ReplyError::ModelListWithoutData),
        Some(models) => {
            let ghost all = json::items_view(models@);
            for i in 0..models.len()
                invariant
                    reply is Some,
                    all == json::items_view(models@),
                    json::items_of(json::field(reply->0@, "data"@)) == Some(all),
                    forall|k: int|
                        0 <= k < i ==> json::text_of(json::field(#[trigger] all[k], "id"@))
                            != Some(model@),
            {
                assert(all[i as int] == models@[i as int]@);
                if let Some(id) = json::as_str(json::get(Some(&models[i]), "id")) {
                    if text::same(id, model) {
                        return Ok(());
                    }
                }
            }
            Err(ReplyError::ModelNotListed { model: model.to_string() })
        },
    }
}

/// Fails unless the configured model is on the list.
pub fn ensure_model_is_listed(body: &str, model: &str) -> (r: Result<(), ReplyError>)
    ensures
        model_list_outcome(json::json_document(body@), model@, r),
{
    let reply = Json::parse(body);
    check_model_list(reply.as_ref(), model)
}

// ---------------------------------------------------------------------------
// Laws of replies
// ---------------------------------------------------------------------------

/// What went wrong is the message of the error, or else the error where it is a text itself, or else
/// the message of the whole reply.
pub proof fn law_errors_tell_their_message(reply: json::JsonView)
    ensures
        ({
            let error = json::field(reply, "error"@);
            let inner = json::field(error, "message"@);
            let outer = json::field(reply, "message"@);
            &&& inner is Text ==> reported_error(reply) == Some(inner->Text_0)
            &&& !(inner is Text) && error is Text ==> reported_error(reply) == Some(error->Text_0)
            &&& !(inner is Text) && !(error is Text) && outer is Text ==> reported_error(reply)
                == Some(outer->Text_0)
            &&& !(inner is Text) && !(error is Text) && !(outer is Text) ==> reported_error(
                reply,
            ) is None
        }),
        reported_error(json::JsonView::Null) is None,
{
}

/// A refusal is told by the reply's own message; by its body, without the white space round it and
/// cut to the limit, where it has none; and by a word where that is empty too.
pub proof fn law_refusals_are_told(reply: json::JsonView, body: Seq<char>, limit: nat)
    ensures
        ({
            let words = text::trimmed(body);
            let size = if words.len() < limit {
                words.len()
            } else {
                limit
            };
            &&& reported_error(reply) matches Some(message) ==> refusal_text(
                reply,
                body,
                Some(limit),
            ) == message && refusal_text(reply, body, None) == message
            &&& reported_error(reply) is None && words.len() == 0 ==> refusal_text(
                reply,
                body,
                Some(limit),
            ) == "unknown API error"@ && refusal_text(reply, body, None) == "unknown API error"@
            &&& reported_error(reply) is None && words.len() > 0 ==> refusal_text(
                reply,
                body,
                Some(limit),
            ) == words.subrange(0, size as int) && refusal_text(reply, body, None) == words
        }),
        ERROR_BODY_MAX_CHARS == 500,
{
    text::law_texts_are_cut_to_size(text::trimmed(body), limit);
}

/// A chat reply says what the message of its first choice says, without the white space round it,
/// and nothing where that is empty or no text.
pub proof fn law_chat_replies_say_their_first_choice(reply: json::JsonView)
    ensures
        ({
            let choices = json::field(reply, "choices"@);
            let content = json::field(
                json::field(choices->Array_0[0], "message"@),
                "content"@,
            );
            let said = choices is Array && choices->Array_0.len() > 0 && content is Text
                && text::trimmed(content->Text_0).len() > 0;
            &&& said ==> chat_text(reply) == Some(text::trimmed(content->Text_0))
            &&& !said ==> chat_text(reply) is None
        }),
{
}

/// A reply of the chat server is its words exactly where the status is between 200 and 299 and
/// there are any; and each other reply is the error that fits it.
pub proof fn law_chat_outcomes_are_told_apart(
    status: HttpStatus,
    reply: json::JsonView,
    body: Seq<char>,
    r: Result<String, ReplyError>,
)
    requires
        openai_outcome(status, reply, body, r),
    ensures
        ({
            let code = status.spec_code();
            let good = 200 <= code && code < 300;
            &&& r is Ok <==> good && chat_text(reply) is Some
            &&& r matches Ok(words) ==> chat_text(reply) == Some(words@)
            &&& r matches Err(error) ==> {
                &&& error is Http <==> !good
                &&& error is InvalidJson <==> good && reply is Null
                &&& error is NoText <==> good && !(reply is Null)
                &&& error is Http ==> error->Http_status == status && error->Http_message@
                    == refusal_text(reply, body, None)
            }
        }),
{
    if reply is Null {
        assert(chat_text(reply) is None);
    }
}

/// The texts of the parts, in their order; parts without one are passed over.
pub proof fn law_parts_give_their_texts(parts: Seq<json::JsonView>)
    ensures
        part_texts(parts) == parts.filter(
            |part: json::JsonView| json::field(part, "text"@) is Text,
        ).map_values(|part: json::JsonView| json::field(part, "text"@)->Text_0),
    decreases parts.len(),
{
    reveal(Seq::filter);
    let has_text = |part: json::JsonView| json::field(part, "text"@) is Text;
    let its_text = |part: json::JsonView| json::field(part, "text"@)->Text_0;
    if parts.len() > 0 {
        law_parts_give_their_texts(parts.drop_last());
        let before = parts.drop_last().filter(has_text);
        if has_text(parts.last()) {
            assert(before.push(parts.last()).map_values(its_text) =~= before.map_values(
                its_text,
            ).push(its_text(parts.last())));
        }
    }
    assert(part_texts(parts) =~= parts.filter(has_text).map_values(its_text));
}

/// What Gemini says is the texts of the parts of its first candidate, a line feed between each two.
/// An answer keeps the white space round it; anything else loses it; and what is nothing but white
/// space is nothing.
pub proof fn law_gemini_says_its_first_candidate(reply: json::JsonView, request: GeminiRequest)
    ensures
        ({
            let candidates = json::field(reply, "candidates"@);
            let parts = json::field(
                json::field(candidates->Array_0[0], "content"@),
                "parts"@,
            );
            let said = candidates is Array && candidates->Array_0.len() > 0 && parts is Array;
            let words = text::joined(part_texts(parts->Array_0), "\n"@);
            let finish = json::field(candidates->Array_0[0], "finishReason"@);
            &&& !said ==> gemini_shown(reply, request) is None
            &&& said && text::trimmed(words).len() == 0 ==> gemini_shown(reply, request) is None
            &&& said && text::trimmed(words).len() > 0 ==> gemini_shown(reply, request) == Some(
                if request is Answer {
                    words
                } else {
                    text::trimmed(words)
                },
            )
            &&& gemini_finish_reason(reply) == (if candidates is Array && candidates->Array_0.len()
                > 0 && finish is Text {
                Some(finish->Text_0)
            } else {
                None
            })
        }),
{
}

/// A model is found exactly where one of the items of the list's data has it for its id; and each
/// thing that may be wrong is told by its own error.
pub proof fn law_models_are_looked_up(
    reply: json::JsonView,
    model: Seq<char>,
    r: Result<(), ReplyError>,
    i: int,
)
    requires
        model_list_outcome(Some(reply), model, r),
    ensures
        ({
            let data = json::field(reply, "data"@);
            &&& r matches Err(error) ==> {
                &&& error is ModelListWithoutData <==> !(data is Array)
                &&& error is ModelNotListed <==> data is Array
            }
            &&& r is Ok ==> data is Array
            &&& data is Array && 0 <= i < data->Array_0.len() && json::field(
                data->Array_0[i],
                "id"@,
            ) == json::JsonView::Text(model) ==> r is Ok
            &&& r is Ok ==> exists|k: int|
                0 <= k < data->Array_0.len() && json::field(
                    #[trigger] data->Array_0[k],
                    "id"@,
                ) == json::JsonView::Text(model)
        }),
        forall|other: Result<(), ReplyError>| #[trigger]
            model_list_outcome(None, model, other) <==> other matches Err(
                ReplyError::InvalidModelList,
            ),
{
    let data = json::field(reply, "data"@);
    if data is Array {
        let models = data->Array_0;
        if 0 <= i < models.len() && json::field(models[i], "id"@) == json::JsonView::Text(model) {
            assert(json::text_of(json::field(models[i], "id"@)) == Some(model));
            assert(lists_model(models, model));
        }
        if lists_model(models, model) {
            let k = choose|k: int|
                0 <= k < models.len() && json::text_of(json::field(#[trigger] models[k], "id"@))
                    == Some(model);
            assert(json::field(models[k], "id"@) == json::JsonView::Text(model));
        }
    }
}

/// The errors of a reply tell which service they are of, and what it said.
pub proof fn law_reply_errors_are_told(
    service: Service,
    status: HttpStatus,
    words: String,
    reason: Option<Seq<char>>,
)
    ensures
        ({
            let api = match service {
                Service::OpenAiCompatible => "OpenAI-compatible API"@,
                Service::OpenRouter => "OpenRouter API"@,
                Service::Ollama => "Ollama API"@,
                Service::Gemini => "Gemini API"@,
            };
            let name = match service {
                Service::OpenAiCompatible => "OpenAI-compatible API"@,
                Service::OpenRouter => "OpenRouter"@,
                Service::Ollama => "Ollama"@,
                Service::Gemini => "Gemini"@,
            };
            &&& (ReplyError::Http { service, status, message: words }).message_view() == api
                + " returned HTTP "@ + status::status_text(status.spec_code()) + ": "@ + words@
            &&& (ReplyError::NoText { service }).message_view() == name + " returned no text"@
        }),
        (ReplyError::ModelNotListed { model: words }).message_view()
            == "OpenAI-compatible API model list does not contain configured model "@
            + text::debug_form(words@),
        reason is None ==> reason_form(reason) == "None"@,
        reason is Some ==> reason_form(reason) == "Some("@ + text::debug_form(reason.unwrap())
            + ")"@,
{
}

/// A body that is no document is taken for null, and any other for what it holds.
pub proof fn law_bodies_are_documents_or_null(body: Seq<char>)
    ensures
        json::json_document(body) matches Some(reply) ==> document_or_null(body) == reply,
        json::json_document(body) is None ==> document_or_null(body) is Null,
{
}

} // verus!
