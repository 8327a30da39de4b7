//! The requests that are sent to a model.
use vstd::prelude::*;

use crate::ai;
use crate::ai::AiMessage;
use crate::json;
use crate::json::Json;
use crate::text;

verus! {

broadcast use vstd::seq::group_seq_axioms;

/// Where requests to OpenRouter go.
pub const OPENROUTER_CHAT_URL: &'static str = "https://openrouter.ai/api/v1/chat/completions";

/// An address on a server: its base without slashes behind it, and a path.
pub open spec fn address(base_url: Seq<char>, path: Seq<char>) -> Seq<char> {
    text::without_trailing(base_url, '/') + path
}

fn at_path(base_url: &str, path: &str) -> (r: String)
    ensures
        r@ == address(base_url@, path@),
{
    let mut out = text::trim_end_char(base_url, '/');
    out.append(path);
    out
}

/// Where conversations are sent to on a server that speaks the OpenAI protocol.
pub fn chat_url(base_url: &str) -> (r: String)
    ensures
        r@ == address(base_url@, "/chat/completions"@),
{
    at_path(base_url, "/chat/completions")
}

/// Where such a server lists its models.
pub fn models_url(base_url: &str) -> (r: String)
    ensures
        r@ == address(base_url@, "/models"@),
{
    at_path(base_url, "/models")
}

/// Where conversations are sent to on an Ollama server.
pub fn ollama_chat_url(base_url: &str) -> (r: String)
    ensures
        r@ == address(base_url@, "/api/chat"@),
{
    at_path(base_url, "/api/chat")
}

/// Where conversations with a Gemini model are sent to.
pub fn gemini_url(model: &str, api_key: &str) -> (r: String)
    ensures
        r@ == "https://generativelanguage.googleapis.com/v1beta/models/"@ + model@
            + ":generateContent?key="@ + api_key@,
{
    let mut out = String::new();
    out.append("https://generativelanguage.googleapis.com/v1beta/models/");
    out.append(model);
    out.append(":generateContent?key=");
    out.append(api_key);
    assert(out@ =~= "https://generativelanguage.googleapis.com/v1beta/models/"@ + model@
        + ":generateContent?key="@ + api_key@);
    out
}

/// Whether a message comes from the assistant.
pub open spec fn from_assistant(role: Seq<char>) -> bool {
    text::ascii_lowercase(role) == text::ascii_lowercase("assistant"@)
}

/// A message as a chat server takes it.
pub open spec fn chat_message(message: (Seq<char>, Seq<char>)) -> json::JsonView {
    json::JsonView::Object(
        seq![
            (
                "role"@,
                json::JsonView::Text(
                    if from_assistant(message.0) {
                        "assistant"@
                    } else {
                        "user"@
                    },
                ),
            ),
            ("content"@, json::JsonView::Text(message.1)),
        ],
    )
}

/// The messages of a conversation as a chat server takes them.
pub open spec fn chat_messages(turns: Seq<(Seq<char>, Seq<char>)>) -> Seq<json::JsonView> {
    turns.map_values(|message: (Seq<char>, Seq<char>)| chat_message(message))
}

/// The request for the next message of a conversation. Whether the reply is streamed is said
/// where the server asks for it.
pub open spec fn chat_request(
    model: Seq<char>,
    turns: Seq<(Seq<char>, Seq<char>)>,
    stream: Option<bool>,
) -> json::JsonView {
    json::JsonView::Object(
        seq![
            ("model"@, json::JsonView::Text(model)),
            ("messages"@, json::JsonView::Array(chat_messages(turns))),
        ] + match stream {
            Some(stream) => seq![("stream"@, json::JsonView::Bool(stream))],
            None => Seq::empty(),
        },
    )
}

fn pair(first: &str, value: Json, second: &str, other: Json) -> (r: Json)
    ensures
        r@ == json::JsonView::Object(seq![(first@, value@), (second@, other@)]),
{
    let mut fields: Vec<(String, Json)> = Vec::new();
    json::push_field(&mut fields, first, value);
    json::push_field(&mut fields, second, other);
    assert(json::fields_view(fields@) =~= seq![(first@, value@), (second@, other@)]);
    json::object(fields)
}

/// The request for the next message of a conversation.
pub fn chat_payload(model: &str, turns: &[AiMessage], stream: Option<bool>) -> (r: Json)
    ensures
        r@ == chat_request(model@, ai::messages(turns@), stream),
{
    let mut list: Vec<Json> = Vec::new();
    let ghost said = ai::messages(turns@);
    for i in 0..turns.len()
        invariant
            said == ai::messages(turns@),
            json::items_view(list@) == chat_messages(said.take(i as int)),
    {
        let role = if text::eq_ignore_ascii_case(turns[i].role.as_str(), "assistant") {
            "assistant"
        } else {
            "user"
        };
        let ghost before = list@;
        list.push(
            pair(
                "role",
                json::text_value(role),
                "content",
                json::text_value(turns[i].text.as_str()),
            ),
        );
        assert(said[i as int] == turns@[i as int]@);
        assert(list@.last()@ == chat_message(said[i as int]));
        assert(json::items_view(list@) =~= json::items_view(before).push(list@.last()@));
        assert(chat_messages(said.take(i + 1)) =~= chat_messages(said.take(i as int)).push(
            chat_message(said[i as int]),
        ));
    }
    assert(said.take(said.len() as int) =~= said);
    let mut fields: Vec<(String, Json)> = Vec::new();
    json::push_field(&mut fields, "model", json::text_value(model));
    json::push_field(&mut fields, "messages", json::array(list));
    assert(json::fields_view(fields@) =~= seq![
        ("model"@, json::JsonView::Text(model@)),
        ("messages"@, json::JsonView::Array(chat_messages(said))),
    ]);
    if let Some(stream) = stream {
        json::push_field(&mut fields, "stream", Json::Bool(stream));
        assert(json::fields_view(fields@) =~= seq![
            ("model"@, json::JsonView::Text(model@)),
            ("messages"@, json::JsonView::Array(chat_messages(said))),
        ] + seq![("stream"@, json::JsonView::Bool(stream))]);
    } else {
        assert(json::fields_view(fields@) =~= seq![
            ("model"@, json::JsonView::Text(model@)),
            ("messages"@, json::JsonView::Array(chat_messages(said))),
        ] + Seq::empty());
    }
    json::object(fields)
}

/// A message as Gemini takes it, from `role`.
pub open spec fn gemini_message(message: (Seq<char>, Seq<char>)) -> json::JsonView {
    json::JsonView::Object(
        seq![
            ("role"@, json::JsonView::Text(message.0)),
            (
                "parts"@,
                json::JsonView::Array(
                    seq![
                        json::JsonView::Object(seq![("text"@, json::JsonView::Text(message.1))]),
                    ],
                ),
            ),
        ],
    )
}

/// The messages of a conversation as Gemini takes them.
pub open spec fn gemini_messages(turns: Seq<(Seq<char>, Seq<char>)>) -> Seq<json::JsonView> {
    turns.map_values(|message: (Seq<char>, Seq<char>)| gemini_message(message))
}

/// The request for the next message of a conversation with Gemini.
pub open spec fn gemini_request(turns: Seq<(Seq<char>, Seq<char>)>) -> json::JsonView {
    json::JsonView::Object(seq![("contents"@, json::JsonView::Array(gemini_messages(turns)))])
}

/// A message with the name that Gemini has for the assistant.
pub open spec fn with_gemini_role(message: (Seq<char>, Seq<char>)) -> (Seq<char>, Seq<char>) {
    (
        if from_assistant(message.0) {
            "model"@
        } else {
            "user"@
        },
        message.1,
    )
}

/// A conversation with the names that Gemini has for the roles.
pub open spec fn with_gemini_roles(turns: Seq<(Seq<char>, Seq<char>)>) -> Seq<
    (Seq<char>, Seq<char>),
> {
    turns.map_values(|message: (Seq<char>, Seq<char>)| with_gemini_role(message))
}

/// The request for the next message of a conversation with Gemini, whose roles stand as given.
pub fn gemini_contents(turns: &[AiMessage]) -> (r: Json)
    ensures
        r@ == gemini_request(ai::messages(turns@)),
{
    let mut list: Vec<Json> = Vec::new();
    let ghost said = ai::messages(turns@);
    for i in 0..turns.len()
        invariant
            said == ai::messages(turns@),
            json::items_view(list@) == gemini_messages(said.take(i as int)),
    {
        let ghost before = list@;
        let mut content: Vec<(String, Json)> = Vec::new();
        json::push_field(&mut content, "text", json::text_value(turns[i].text.as_str()));
        assert(json::fields_view(content@) =~= seq![
            ("text"@, json::JsonView::Text(said[i as int].1)),
        ]);
        let mut parts: Vec<Json> = Vec::new();
        parts.push(json::object(content));
        assert(json::items_view(parts@) =~= seq![parts@[0]@]);
        list.push(
            pair("role", json::text_value(turns[i].role.as_str()), "parts", json::array(parts)),
        );
        assert(said[i as int] == turns@[i as int]@);
        assert(list@.last()@ == gemini_message(said[i as int]));
        assert(json::items_view(list@) =~= json::items_view(before).push(list@.last()@));
        assert(gemini_messages(said.take(i + 1)) =~= gemini_messages(said.take(i as int)).push(
            gemini_message(said[i as int]),
        ));
    }
    assert(said.take(said.len() as int) =~= said);
    let mut fields: Vec<(String, Json)> = Vec::new();
    json::push_field(&mut fields, "contents", json::array(list));
    assert(json::fields_view(fields@) =~= seq![
        ("contents"@, json::JsonView::Array(gemini_messages(said))),
    ]);
    json::object(fields)
}

/// The request for the next message of a conversation with Gemini.
pub fn gemini_payload(turns: &[AiMessage]) -> (r: Json)
    ensures
        r@ == gemini_request(with_gemini_roles(ai::messages(turns@))),
{
    let mut list: Vec<AiMessage> = Vec::new();
    let ghost said = ai::messages(turns@);
    for i in 0..turns.len()
        invariant
            said == ai::messages(turns@),
            ai::messages(list@) == with_gemini_roles(said.take(i as int)),
    {
        let role = if text::eq_ignore_ascii_case(turns[i].role.as_str(), "assistant") {
            "model".to_string()
        } else {
            "user".to_string()
        };
        let ghost before = list@;
        list.push(AiMessage { role, text: turns[i].text.clone() });
        assert(said[i as int] == turns@[i as int]@);
        assert(list@.last()@ == with_gemini_role(said[i as int]));
        assert(ai::messages(list@) =~= ai::messages(before).push(list@.last()@));
        assert(with_gemini_roles(said.take(i + 1)) =~= with_gemini_roles(said.take(i as int)).push(
            with_gemini_role(said[i as int]),
        ));
    }
    assert(said.take(said.len() as int) =~= said);
    gemini_contents(list.as_slice())
}

/// A path goes behind the base address with one slash between them, however many the base ends
/// with.
pub proof fn law_addresses_have_one_slash(base_url: Seq<char>, path: Seq<char>)
    ensures
        path.is_suffix_of(address(base_url, path)),
        address(base_url.push('/'), path) == address(base_url, path),
        base_url.len() == 0 || base_url.last() != '/' ==> address(base_url, path) == base_url + path,
{
    let whole = address(base_url, path);
    assert(path =~= whole.subrange(whole.len() - path.len(), whole.len() as int));
    assert(base_url.push('/').drop_last() =~= base_url);
}

/// A role is the assistant's whatever the case of its letters.
pub proof fn law_assistants_are_known(role: Seq<char>)
    ensures
        from_assistant(role) <==> text::ascii_lowercase(role) == "assistant"@,
{
    reveal_strlit("assistant");
    assert(text::ascii_lowercase("assistant"@) =~= "assistant"@);
}

/// A chat request names the model and holds the turns in their order, each with its own words and
/// as the assistant's or the user's. It asks for a stream exactly where one is wanted or refused.
pub proof fn law_chat_request_holds_every_turn(
    model: Seq<char>,
    turns: Seq<(Seq<char>, Seq<char>)>,
    stream: Option<bool>,
    i: int,
)
    ensures
        ({
            let request = chat_request(model, turns, stream);
            let sent = json::items_of(json::field(request, "messages"@));
            &&& json::text_of(json::field(request, "model"@)) == Some(model)
            &&& sent is Some
            &&& sent.unwrap().len() == turns.len()
            &&& 0 <= i < turns.len() ==> {
                let message = sent.unwrap()[i];
                &&& json::text_of(json::field(message, "content"@)) == Some(turns[i].1)
                &&& json::text_of(json::field(message, "role"@)) == Some(
                    if text::ascii_lowercase(turns[i].0) == "assistant"@ {
                        "assistant"@
                    } else {
                        "user"@
                    },
                )
            }
            &&& stream matches Some(wanted) ==> json::field(request, "stream"@)
                == json::JsonView::Bool(wanted)
            &&& stream is None ==> json::field(request, "stream"@) is Null
        }),
{
    reveal_strlit("model");
    reveal_strlit("messages");
    reveal_strlit("stream");
    reveal_strlit("role");
    reveal_strlit("content");
    assert("model"@.len() != "messages"@.len());
    assert("stream"@.len() != "messages"@.len());
    assert("model"@.len() != "stream"@.len());
    assert("role"@.len() != "content"@.len());
    let request = chat_request(model, turns, stream);
    let fields = request->Object_0;
    json::law_fields_are_found(fields, "model"@, 0);
    json::law_fields_are_found(fields, "messages"@, 1);
    json::law_fields_are_found(fields, "stream"@, 2);
    if 0 <= i < turns.len() {
        law_assistants_are_known(turns[i].0);
        let message = chat_message(turns[i])->Object_0;
        json::law_fields_are_found(message, "role"@, 0);
        json::law_fields_are_found(message, "content"@, 1);
    }
}

/// A request to Gemini holds the turns in their order, each with its own words and role. What the
/// assistant said is the model's, anything else the user's.
pub proof fn law_gemini_request_holds_every_turn(turns: Seq<(Seq<char>, Seq<char>)>, i: int)
    requires
        0 <= i < turns.len(),
    ensures
        with_gemini_roles(turns).len() == turns.len(),
        with_gemini_roles(turns)[i].1 == turns[i].1,
        with_gemini_roles(turns)[i].0 == (if text::ascii_lowercase(turns[i].0) == "assistant"@ {
            "model"@
        } else {
            "user"@
        }),
        ({
            let sent = json::items_of(json::field(gemini_request(turns), "contents"@));
            &&& sent is Some
            &&& sent.unwrap().len() == turns.len()
            &&& json::text_of(json::field(sent.unwrap()[i], "role"@)) == Some(turns[i].0)
            &&& ({
                let parts = json::items_of(json::field(sent.unwrap()[i], "parts"@));
                &&& parts is Some
                &&& parts.unwrap().len() == 1
                &&& json::text_of(json::field(parts.unwrap()[0], "text"@)) == Some(turns[i].1)
            })
        }),
{
    reveal_strlit("contents");
    reveal_strlit("role");
    reveal_strlit("parts");
    assert("role"@.len() != "parts"@.len());
    law_assistants_are_known(turns[i].0);
    json::law_fields_are_found(gemini_request(turns)->Object_0, "contents"@, 0);
    let message = gemini_message(turns[i])->Object_0;
    json::law_fields_are_found(message, "role"@, 0);
    json::law_fields_are_found(message, "parts"@, 1);
    let part = seq![("text"@, json::JsonView::Text(turns[i].1))];
    json::law_fields_are_found(part, "text"@, 0);
}

} // verus!
