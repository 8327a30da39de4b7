//! The streamed reply of a chat server: lines of bytes, events of lines, text of events.
use vstd::prelude::*;

use crate::ai::reply;
use crate::json;
use crate::json::Json;
use crate::text;

verus! {

broadcast use vstd::seq::group_seq_axioms;

/// The most characters of an error message that are shown.
pub const STREAM_ERROR_MAX_CHARS: usize = 500;

/// The most characters of a reason that are shown.
pub const STREAM_REASON_MAX_CHARS: usize = 100;

/// The byte that ends a line.
pub const NEWLINE: u8 = 10;

/// Why a stream is of no use.
#[derive(Debug)]
pub enum StreamError {
    /// A line is not UTF-8.
    NotUtf8,
    /// An event is not JSON.
    InvalidEvent,
    /// The server reports an error.
    Reported { message: String },
    /// The stream ended before it said so, with what was seen of it.
    EndedEarly { details: String },
    /// The stream holds no text, with what was seen of it.
    NoText { details: String },
}

/// What a `StreamError` says.
pub ghost enum StreamErrorView {
    NotUtf8,
    InvalidEvent,
    Reported(Seq<char>),
    EndedEarly(Seq<char>),
    NoText(Seq<char>),
}

impl View for StreamError {
    type V = StreamErrorView;

    open spec fn view(&self) -> StreamErrorView {
        match self {
            StreamError::NotUtf8 => StreamErrorView::NotUtf8,
            StreamError::InvalidEvent => StreamErrorView::InvalidEvent,
            StreamError::Reported { message } => StreamErrorView::Reported(message@),
            StreamError::EndedEarly { details } => StreamErrorView::EndedEarly(details@),
            StreamError::NoText { details } => StreamErrorView::NoText(details@),
        }
    }
}

impl StreamError {
    /// The text of the error.
    pub open spec fn message_view(self) -> Seq<char> {
        match self {
            StreamError::NotUtf8 => "OpenAI-compatible API stream contained non-UTF-8 data"@,
            StreamError::InvalidEvent =>
                "OpenAI-compatible API returned an invalid JSON stream event"@,
            StreamError::Reported { message } =>
                "OpenAI-compatible API stream returned an error: "@ + message@,
            StreamError::EndedEarly { details } =>
                "OpenAI-compatible API stream ended before [DONE]"@ + details@,
            StreamError::NoText { details } => "OpenAI-compatible API returned no text"@ + details@,
        }
    }

    /// What is told to the user.
    pub fn message(&self) -> (r: String)
        ensures
            r@ == self.message_view(),
    {
        let mut out = String::new();
        match self {
            StreamError::NotUtf8 => {
                out.append("OpenAI-compatible API stream contained non-UTF-8 data");
            },
            StreamError::InvalidEvent => {
                out.append("OpenAI-compatible API returned an invalid JSON stream event");
            },
            StreamError::Reported { message } => {
                out.append("OpenAI-compatible API stream returned an error: ");
                out.append(message.as_str());
            },
            StreamError::EndedEarly { details } => {
                out.append("OpenAI-compatible API stream ended before [DONE]");
                out.append(details.as_str());
            },
            StreamError::NoText { details } => {
                out.append("OpenAI-compatible API returned no text");
                out.append(details.as_str());
            },
        }
        assert(out@ =~= self.message_view());
        out
    }
}

/// What has been read of a streamed reply.
pub struct ChatStreamAccumulator {
    pending: Vec<u8>,
    event_data: Vec<String>,
    output: String,
    saw_done: bool,
    finish_reason: Option<String>,
    block_reason: Option<String>,
    saw_refusal: bool,
    saw_reasoning: bool,
    saw_tool_calls: bool,
}

/// What has been read of a streamed reply, up to the end of the last whole line.
#[verifier::ext_equal]
pub ghost struct StreamState {
    /// The data lines of the event that has not ended.
    pub event_data: Seq<Seq<char>>,
    /// The text so far.
    pub output: Seq<char>,
    pub saw_done: bool,
    pub finish_reason: Option<Seq<char>>,
    pub block_reason: Option<Seq<char>>,
    pub saw_refusal: bool,
    pub saw_reasoning: bool,
    pub saw_tool_calls: bool,
}

/// A stream of which nothing has been read.
pub open spec fn nothing_read() -> StreamState {
    StreamState {
        event_data: Seq::empty(),
        output: Seq::empty(),
        saw_done: false,
        finish_reason: None,
        block_reason: None,
        saw_refusal: false,
        saw_reasoning: false,
        saw_tool_calls: false,
    }
}

// ---------------------------------------------------------------------------
// Events
// ---------------------------------------------------------------------------

/// The texts of parts, one behind the other.
pub open spec fn parts_text(parts: Seq<json::JsonView>) -> Seq<char>
    decreases parts.len(),
{
    if parts.len() == 0 {
        Seq::empty()
    } else {
        let before = parts_text(parts.drop_last());
        match json::text_of(json::field(parts.last(), "text"@)) {
            Some(text) => before + text,
            None => before,
        }
    }
}

/// The text of a content: a text, or the texts of its parts.
pub open spec fn content_text(content: json::JsonView) -> Seq<char> {
    match content {
        json::JsonView::Text(text) => text,
        json::JsonView::Array(parts) => parts_text(parts),
        _ => Seq::empty(),
    }
}

/// Adds the text of a content.
fn append_text_content(output: &mut String, content: Option<&Json>)
    ensures
        final(output)@ == old(output)@ + content_text(json::seen(content)),
{
    if let Some(text) = json::as_str(content) {
        output.append(text);
        return;
    }
    if let Some(parts) = json::as_array(content) {
        let ghost all = json::items_view(parts@);
        assert(output@ =~= old(output)@ + parts_text(all.take(0)));
        for i in 0..parts.len()
            invariant
                all == json::items_view(parts@),
                output@ == old(output)@ + parts_text(all.take(i as int)),
        {
            assert(all.take(i + 1).drop_last() =~= all.take(i as int));
            assert(all.take(i + 1).last() == parts@[i as int]@);
            let ghost before = output@;
            if let Some(text) = json::as_str(json::get(Some(&parts[i]), "text")) {
                output.append(text);
                assert(output@ =~= old(output)@ + (parts_text(all.take(i as int)) + text@));
            }
        }
        assert(all.take(all.len() as int) =~= all);
    } else {
        assert(output@ =~= old(output)@ + content_text(json::seen(content)));
    }
}

/// Why a prompt was blocked, under either of the names that servers have for it.
pub open spec fn blocked(event: json::JsonView) -> Option<Seq<char>> {
    reply::or_text(
        json::text_of(json::field(json::field(event, "prompt_feedback"@), "block_reason"@)),
        json::text_of(json::field(json::field(event, "promptFeedback"@), "blockReason"@)),
    )
}

/// Whether a choice says something under a name, in its delta or its message.
pub open spec fn says(choice: json::JsonView, key: Seq<char>) -> bool {
    ||| !(json::field(json::field(choice, "delta"@), key) is Null)
    ||| !(json::field(json::field(choice, "message"@), key) is Null)
}

/// A reason that replaces an earlier one, where there is a new one.
pub open spec fn newer(reason: Option<Seq<char>>, earlier: Option<Seq<char>>) -> Option<Seq<char>> {
    match reason {
        Some(reason) => Some(text::head_of(reason, STREAM_REASON_MAX_CHARS as nat)),
        None => earlier,
    }
}

/// The text after the delta of a choice. A whole message counts only where nothing else has.
pub open spec fn with_choice_text(output: Seq<char>, choice: json::JsonView) -> Seq<char> {
    let extended = output + content_text(json::field(json::field(choice, "delta"@), "content"@));
    if extended.len() == 0 {
        extended + content_text(json::field(json::field(choice, "message"@), "content"@))
    } else {
        extended
    }
}

/// What is known after an event that reports no error.
pub open spec fn after_event(state: StreamState, event: json::JsonView) -> StreamState {
    let state = StreamState { block_reason: newer(blocked(event), state.block_reason), ..state };
    match json::first_of(json::field(event, "choices"@)) {
        Some(choice) => StreamState {
            finish_reason: newer(
                json::text_of(json::field(choice, "finish_reason"@)),
                state.finish_reason,
            ),
            output: with_choice_text(state.output, choice),
            saw_refusal: state.saw_refusal || says(choice, "refusal"@),
            saw_reasoning: state.saw_reasoning || says(choice, "reasoning_content"@),
            saw_tool_calls: state.saw_tool_calls || says(choice, "tool_calls"@),
            ..state
        },
        None => state,
    }
}

/// What an event does: the state after it, and the error it ends in.
pub open spec fn event_step(state: StreamState, event: Option<json::JsonView>) -> (
    StreamState,
    Option<StreamErrorView>,
) {
    match event {
        None => (state, Some(StreamErrorView::InvalidEvent)),
        Some(event) => match reply::reported_error(event) {
            Some(message) => (
                state,
                Some(
                    StreamErrorView::Reported(
                        text::head_of(message, STREAM_ERROR_MAX_CHARS as nat),
                    ),
                ),
            ),
            None => (after_event(state, event), None),
        },
    }
}

/// What the end of an event does.
pub open spec fn event_end_step(state: StreamState) -> (StreamState, Option<StreamErrorView>) {
    let data = text::joined(state.event_data, "\n"@);
    let taken = StreamState { event_data: Seq::empty(), ..state };
    if state.event_data.len() == 0 {
        (state, None)
    } else if text::trimmed(data) == "[DONE]"@ {
        (StreamState { saw_done: true, ..taken }, None)
    } else {
        event_step(taken, json::json_document(data))
    }
}

// ---------------------------------------------------------------------------
// Lines
// ---------------------------------------------------------------------------

/// The data in a line that holds some.
pub open spec fn line_data(line: Seq<char>) -> Option<Seq<char>> {
    if text::starts_with(line, "data:"@) {
        let data = line.skip("data:"@.len() as int);
        if text::starts_with(data, " "@) {
            Some(data.skip(1))
        } else {
            Some(data)
        }
    } else {
        None
    }
}

/// What a line of text does: a blank one ends the event, a comment is passed over, data is kept,
/// and so is nothing else.
pub open spec fn text_line_step(state: StreamState, line: Seq<char>) -> (
    StreamState,
    Option<StreamErrorView>,
) {
    if line.len() == 0 {
        event_end_step(state)
    } else if text::starts_with(line, ":"@) {
        (state, None)
    } else {
        match line_data(line) {
            Some(data) => (
                StreamState { event_data: state.event_data.push(data), ..state },
                None,
            ),
            None => (state, None),
        }
    }
}

/// What a line of bytes does.
pub open spec fn line_step(state: StreamState, line: Seq<u8>) -> (
    StreamState,
    Option<StreamErrorView>,
) {
    if vstd::utf8::valid_utf8(line) {
        text_line_step(state, text::without_trailing(vstd::utf8::decode_utf8(line), '\r'))
    } else {
        (state, Some(StreamErrorView::NotUtf8))
    }
}

/// Where the first line of some bytes ends, their number where it does not.
pub open spec fn line_end(bytes: Seq<u8>) -> nat
    decreases bytes.len(),
{
    if bytes.len() == 0 || bytes[0] == NEWLINE {
        0
    } else {
        1 + line_end(bytes.drop_first())
    }
}

proof fn lemma_line_end(bytes: Seq<u8>)
    ensures
        line_end(bytes) <= bytes.len(),
        forall|k: int| 0 <= k < line_end(bytes) ==> #[trigger] bytes[k] != NEWLINE,
        line_end(bytes) < bytes.len() ==> bytes[line_end(bytes) as int] == NEWLINE,
    decreases bytes.len(),
{
    if bytes.len() > 0 && bytes[0] != NEWLINE {
        lemma_line_end(bytes.drop_first());
        assert forall|k: int| 0 <= k < line_end(bytes) implies #[trigger] bytes[k] != NEWLINE by {
            if k > 0 {
                assert(bytes[k] == bytes.drop_first()[k - 1]);
            }
        }
    }
}

proof fn lemma_line_end_is(bytes: Seq<u8>, at: int)
    requires
        0 <= at <= bytes.len(),
        forall|k: int| 0 <= k < at ==> #[trigger] bytes[k] != NEWLINE,
        at < bytes.len() ==> bytes[at] == NEWLINE,
    ensures
        line_end(bytes) == at,
{
    lemma_line_end(bytes);
    let end = line_end(bytes) as int;
    if end < at {
        assert(bytes[end] != NEWLINE);
    }
    if at < end {
        assert(bytes[at] != NEWLINE);
    }
}

/// What a run of bytes does: the state after its whole lines, the bytes behind them, and the
/// error at which reading stopped.
pub open spec fn bytes_step(state: StreamState, bytes: Seq<u8>) -> (
    StreamState,
    Seq<u8>,
    Option<StreamErrorView>,
)
    decreases bytes.len(),
{
    let end = line_end(bytes) as int;
    if end >= bytes.len() {
        (state, bytes, None)
    } else {
        let (next, error) = line_step(state, bytes.take(end));
        let rest = bytes.skip(end + 1);
        if error is Some {
            (next, rest, error)
        } else {
            bytes_step(next, rest)
        }
    }
}

// ---------------------------------------------------------------------------
// The end of the stream
// ---------------------------------------------------------------------------

/// What is told of a stream without text.
pub open spec fn details(state: StreamState) -> Seq<Seq<char>> {
    (match state.finish_reason {
        Some(reason) => seq!["finish_reason="@ + reason],
        None => Seq::empty(),
    }) + (match state.block_reason {
        Some(reason) => seq!["block_reason="@ + reason],
        None => Seq::empty(),
    }) + (if state.saw_refusal {
        seq!["refusal=true"@]
    } else {
        Seq::empty()
    }) + (if state.saw_reasoning {
        seq!["reasoning_without_text=true"@]
    } else {
        Seq::empty()
    }) + (if state.saw_tool_calls {
        seq!["tool_calls=true"@]
    } else {
        Seq::empty()
    })
}

/// How that stands behind an error message.
pub open spec fn details_suffix(state: StreamState) -> Seq<char> {
    if details(state).len() == 0 {
        Seq::empty()
    } else {
        " ("@ + text::joined(details(state), ", "@) + ")"@
    }
}

/// The text of a stream whose last line and event have been read.
pub open spec fn finished(state: StreamState) -> Result<Seq<char>, StreamErrorView> {
    if !state.saw_done {
        Err(StreamErrorView::EndedEarly(details_suffix(state)))
    } else if text::trimmed(state.output).len() == 0 {
        Err(StreamErrorView::NoText(details_suffix(state)))
    } else {
        Ok(text::trimmed(state.output))
    }
}

/// The text of a stream that ends with some bytes behind its last line.
pub open spec fn stream_text(state: StreamState, pending: Seq<u8>) -> Result<
    Seq<char>,
    StreamErrorView,
> {
    let (state, error) = if pending.len() > 0 {
        line_step(state, pending)
    } else {
        (state, None)
    };
    match error {
        Some(error) => Err(error),
        None => {
            let (state, error) = event_end_step(state);
            match error {
                Some(error) => Err(error),
                None => finished(state),
            }
        },
    }
}

/// The error of an outcome.
pub open spec fn error_of(r: Result<(), StreamError>) -> Option<StreamErrorView> {
    match r {
        Ok(()) => None,
        Err(error) => Some(error@),
    }
}

/// `String::from_utf8`: the text that the bytes encode, where they are UTF-8.
#[verifier::external_body]
fn text_from_utf8(bytes: Vec<u8>) -> (r: Option<String>)
    ensures
        r is Some <==> vstd::utf8::valid_utf8(bytes@),
        r matches Some(s) ==> s@ == vstd::utf8::decode_utf8(bytes@),
{
    String::from_utf8(bytes).ok()
}

impl ChatStreamAccumulator {
    /// What has been read, up to the end of the last whole line.
    pub closed spec fn state(self) -> StreamState {
        StreamState {
            event_data: text::texts(self.event_data@),
            output: self.output@,
            saw_done: self.saw_done,
            finish_reason: text::opt_text(self.finish_reason),
            block_reason: text::opt_text(self.block_reason),
            saw_refusal: self.saw_refusal,
            saw_reasoning: self.saw_reasoning,
            saw_tool_calls: self.saw_tool_calls,
        }
    }

    /// The bytes behind the last whole line.
    pub closed spec fn pending(self) -> Seq<u8> {
        self.pending@
    }

    /// Reads a piece of the stream: every line that is whole now, up to the first error.
    pub fn push(&mut self, bytes: &[u8]) -> (r: Result<(), StreamError>)
        ensures
            (final(self).state(), final(self).pending(), error_of(r)) == bytes_step(
                old(self).state(),
                old(self).pending() + bytes@,
            ),
    {
        self.pending.extend_from_slice(bytes);
        let mut all: Vec<u8> = Vec::new();
        all.append(&mut self.pending);
        let ghost whole = all@;
        assert(whole =~= old(self).pending() + bytes@);
        let mut start: usize = 0;
        let mut at: usize = 0;
        assert(whole.skip(0) =~= whole);
        while at < all.len()
            invariant
                all@ == whole,
                whole == old(self).pending() + bytes@,
                start <= at <= whole.len(),
                self.pending@.len() == 0,
                forall|k: int| start <= k < at ==> #[trigger] whole[k] != NEWLINE,
                bytes_step(self.state(), whole.skip(start as int)) == bytes_step(
                    old(self).state(),
                    whole,
                ),
            decreases whole.len() - at,
        {
            if all[at] == NEWLINE {
                let line = bytes_between(all.as_slice(), start, at);
                let ghost rest = whole.skip(start as int);
                proof {
                    lemma_line_end_is(rest, at - start);
                    assert(rest.take(at - start) =~= line@);
                    assert(rest.skip(at - start + 1) =~= whole.skip(at + 1));
                }
                let outcome = self.process_line(line);
                start = at + 1;
                if let Err(error) = outcome {
                    self.pending = bytes_between(all.as_slice(), start, all.len());
                    assert(self.pending@ =~= whole.skip(start as int));
                    return Err(error);
                }
            }
            at += 1;
        }
        self.pending = bytes_between(all.as_slice(), start, all.len());
        proof {
            let rest = whole.skip(start as int);
            assert(self.pending@ =~= rest);
            lemma_line_end_is(rest, rest.len() as int);
        }
        Ok(())
    }

    fn process_line(&mut self, line: Vec<u8>) -> (r: Result<(), StreamError>)
        ensures
            (final(self).state(), error_of(r)) == line_step(old(self).state(), line@),
            final(self).pending@ == old(self).pending@,
    {
        match text_from_utf8(line) {
            None => Err(StreamError::NotUtf8),
            Some(line) => {
                let line = text::trim_end_char(line.as_str(), '\r');
                self.process_text_line(line.as_str())
            },
        }
    }

    fn process_text_line(&mut self, line: &str) -> (r: Result<(), StreamError>)
        ensures
            (final(self).state(), error_of(r)) == text_line_step(old(self).state(), line@),
            final(self).pending@ == old(self).pending@,
    {
        if text::is_empty(line) {
            return self.process_event();
        }
        if text::str_starts_with(line, ":") {
            return Ok(());
        }
        proof {
            reveal_strlit(" ");
        }
        if let Some(data) = text::strip_prefix(line, "data:") {
            let data = match text::strip_prefix(data.as_str(), " ") {
                Some(data) => data,
                None => data,
            };
            text::push_text(&mut self.event_data, data.as_str());
        }
        Ok(())
    }

    fn process_event(&mut self) -> (r: Result<(), StreamError>)
        ensures
            (final(self).state(), error_of(r)) == event_end_step(old(self).state()),
            final(self).pending@ == old(self).pending@,
    {
        if self.event_data.len() == 0 {
            return Ok(());
        }
        let data = text::join(self.event_data.as_slice(), "\n");
        self.event_data.clear();
        assert(text::texts(self.event_data@) =~= Seq::<Seq<char>>::empty());
        if text::same(text::trim(data.as_str()).as_str(), "[DONE]") {
            self.saw_done = true;
            return Ok(());
        }
        let event = Json::parse(data.as_str());
        self.take_event(event.as_ref())
    }

    /// Takes an event in: its document, where it is one.
    pub fn take_event(&mut self, event: Option<&Json>) -> (r: Result<(), StreamError>)
        ensures
            (final(self).state(), error_of(r)) == event_step(
                old(self).state(),
                match event {
                    Some(event) => Some(event@),
                    None => None,
                },
            ),
            final(self).pending() == old(self).pending(),
    {
        if event.is_none() {
            return Err(StreamError::InvalidEvent);
        }
        if let Some(message) = reply::extract_error_message(event) {
            return Err(
                StreamError::Reported {
                    message: text::truncate_chars(message, STREAM_ERROR_MAX_CHARS),
                },
            );
        }
        let reason = match json::as_str(
            json::get(json::get(event, "prompt_feedback"), "block_reason"),
        ) {
            Some(reason) => Some(reason),
            None => json::as_str(json::get(json::get(event, "promptFeedback"), "blockReason")),
        };
        if let Some(reason) = reason {
            self.block_reason = Some(text::truncate_chars(reason, STREAM_REASON_MAX_CHARS));
        }
        if let Some(choice) = json::first(json::get(event, "choices")) {
            self.take_choice(choice);
        }
        Ok(())
    }

    fn take_choice(&mut self, choice: &Json)
        ensures
            final(self).state() == (StreamState {
                finish_reason: newer(
                    json::text_of(json::field(choice@, "finish_reason"@)),
                    old(self).state().finish_reason,
                ),
                output: with_choice_text(old(self).state().output, choice@),
                saw_refusal: old(self).state().saw_refusal || says(choice@, "refusal"@),
                saw_reasoning: old(self).state().saw_reasoning || says(
                    choice@,
                    "reasoning_content"@,
                ),
                saw_tool_calls: old(self).state().saw_tool_calls || says(choice@, "tool_calls"@),
                ..old(self).state()
            }),
            final(self).pending@ == old(self).pending@,
    {
        let choice = Some(choice);
        if let Some(reason) = json::as_str(json::get(choice, "finish_reason")) {
            self.finish_reason = Some(text::truncate_chars(reason, STREAM_REASON_MAX_CHARS));
        }
        let delta = json::get(choice, "delta");
        let message = json::get(choice, "message");
        append_text_content(&mut self.output, json::get(delta, "content"));
        if text::is_empty(self.output.as_str()) {
            append_text_content(&mut self.output, json::get(message, "content"));
        }
        if !json::is_null(json::get(delta, "refusal")) || !json::is_null(
            json::get(message, "refusal"),
        ) {
            self.saw_refusal = true;
        }
        if !json::is_null(json::get(delta, "reasoning_content")) || !json::is_null(
            json::get(message, "reasoning_content"),
        ) {
            self.saw_reasoning = true;
        }
        if !json::is_null(json::get(delta, "tool_calls")) || !json::is_null(
            json::get(message, "tool_calls"),
        ) {
            self.saw_tool_calls = true;
        }
    }

    /// Reads what is left of the stream and hands out its text.
    pub fn finish(self) -> (r: Result<String, StreamError>)
        ensures
            match r {
                Ok(text) => stream_text(self.state(), self.pending()) == Ok::<
                    Seq<char>,
                    StreamErrorView,
                >(text@),
                Err(error) => stream_text(self.state(), self.pending()) == Err::<
                    Seq<char>,
                    StreamErrorView,
                >(error@),
            },
    {
        let mut stream = self;
        if stream.pending.len() > 0 {
            let mut pending: Vec<u8> = Vec::new();
            pending.append(&mut stream.pending);
            if let Err(error) = stream.process_line(pending) {
                return Err(error);
            }
        }
        if let Err(error) = stream.process_event() {
            return Err(error);
        }
        if !stream.saw_done {
            return Err(StreamError::EndedEarly { details: stream.diagnostic_suffix() });
        }
        let output = text::trim(stream.output.as_str());
        if text::is_empty(output.as_str()) {
            return Err(StreamError::NoText { details: stream.diagnostic_suffix() });
        }
        Ok(output)
    }

    fn diagnostic_suffix(&self) -> (r: String)
        ensures
            r@ == details_suffix(self.state()),
    {
        let mut list: Vec<String> = Vec::new();
        let ghost state = self.state();
        if let Some(reason) = &self.finish_reason {
            text::push_line(&mut list, "finish_reason=", reason.as_str(), "");
        }
        if let Some(reason) = &self.block_reason {
            text::push_line(&mut list, "block_reason=", reason.as_str(), "");
        }
        if self.saw_refusal {
            text::push_text(&mut list, "refusal=true");
        }
        if self.saw_reasoning {
            text::push_text(&mut list, "reasoning_without_text=true");
        }
        if self.saw_tool_calls {
            text::push_text(&mut list, "tool_calls=true");
        }
        proof {
            reveal_strlit("");
        }
        assert(text::texts(list@) =~~= details(state));
        let mut out = String::new();
        if list.len() > 0 {
            out.append(" (");
            out.append(text::join(list.as_slice(), ", ").as_str());
            out.append(")");
            assert(out@ =~= " ("@ + text::joined(details(state), ", "@) + ")"@);
        }
        out
    }
}

impl Default for ChatStreamAccumulator {
    /// A stream of which nothing has been read.
    fn default() -> (r: Self)
        ensures
            r.state() == nothing_read(),
            r.pending() == Seq::<u8>::empty(),
    {
        let r = ChatStreamAccumulator {
            pending: Vec::new(),
            event_data: Vec::new(),
            output: String::new(),
            saw_done: false,
            finish_reason: None,
            block_reason: None,
            saw_refusal: false,
            saw_reasoning: false,
            saw_tool_calls: false,
        };
        assert(r.state() =~= nothing_read());
        r
    }
}

/// The bytes from `from` to `to`.
fn bytes_between(bytes: &[u8], from: usize, to: usize) -> (r: Vec<u8>)
    requires
        from <= to <= bytes@.len(),
    ensures
        r@ == bytes@.subrange(from as int, to as int),
{
    let mut out: Vec<u8> = Vec::new();
    for i in from..to
        invariant
            from <= to <= bytes@.len(),
            out@ == bytes@.subrange(from as int, i as int),
    {
        out.push(bytes[i]);
        assert(out@ =~= bytes@.subrange(from as int, i + 1));
    }
    out
}

// ---------------------------------------------------------------------------
// Where a stream is cut does not matter
// ---------------------------------------------------------------------------

proof fn lemma_bytes_step_concat(state: StreamState, front: Seq<u8>, back: Seq<u8>)
    ensures
        ({
            let (next, rest, error) = bytes_step(state, front);
            match error {
                None => bytes_step(state, front + back) == bytes_step(next, rest + back),
                Some(error) => bytes_step(state, front + back) == (next, rest + back, Some(error)),
            }
        }),
    decreases front.len(),
{
    lemma_line_end(front);
    let end = line_end(front) as int;
    let whole = front + back;
    if end < front.len() {
        lemma_line_end_is(whole, end);
        assert(whole.take(end) =~= front.take(end));
        assert(whole.skip(end + 1) =~= front.skip(end + 1) + back);
        let (next, error) = line_step(state, front.take(end));
        if error is None {
            lemma_bytes_step_concat(next, front.skip(end + 1), back);
        }
    }
}

/// A stream can be cut anywhere: reading two pieces one after the other does what reading them in
/// one piece does, and an error in the first is the error of the whole.
pub proof fn law_pieces_do_not_matter(
    state: StreamState,
    pending: Seq<u8>,
    front: Seq<u8>,
    back: Seq<u8>,
)
    ensures
        ({
            let (next, rest, error) = bytes_step(state, pending + front);
            match error {
                None => bytes_step(state, pending + (front + back)) == bytes_step(
                    next,
                    rest + back,
                ),
                Some(error) => bytes_step(state, pending + (front + back)).2 == Some(error),
            }
        }),
{
    lemma_bytes_step_concat(state, pending + front, back);
    assert(pending + front + back =~= pending + (front + back));
}

// ---------------------------------------------------------------------------
// What a stream says
// ---------------------------------------------------------------------------

/// What the content of a message adds: a text itself, and of a list the texts of its parts.
pub proof fn law_content_is_its_texts(texts: Seq<Seq<char>>, parts: Seq<json::JsonView>)
    requires
        texts.len() == parts.len(),
        forall|i: int|
            0 <= i < parts.len() ==> json::text_of(
                json::field(#[trigger] parts[i], "text"@),
            ) == Some(texts[i]) || (json::text_of(json::field(parts[i], "text"@)) is None
                && texts[i].len() == 0),
    ensures
        content_text(json::JsonView::Array(parts)) == text::joined(texts, Seq::empty()),
        forall|s: Seq<char>| #[trigger] content_text(json::JsonView::Text(s)) == s,
        content_text(json::JsonView::Null).len() == 0,
    decreases parts.len(),
{
    if parts.len() > 0 {
        let rest = parts.drop_last();
        let before = texts.drop_last();
        assert forall|i: int| 0 <= i < rest.len() implies json::text_of(
            json::field(#[trigger] rest[i], "text"@),
        ) == Some(before[i]) || (json::text_of(json::field(rest[i], "text"@)) is None
            && before[i].len() == 0) by {
            assert(rest[i] == parts[i]);
        }
        law_content_is_its_texts(before, rest);
        assert(before.push(texts.last()) =~= texts);
        assert(parts.last() == parts[parts.len() - 1]);
        crate::lines::law_joining_sets_separators_between(before, texts.last(), Seq::empty());
        assert(content_text(json::JsonView::Array(parts)) =~= text::joined(texts, Seq::empty()));
    } else {
        assert(texts =~= Seq::empty());
    }
}

/// An event that reports no error adds the words of its first choice: those of the change, and,
/// as long as nothing was said, those of the whole message. It notes why the choice ended, cut to a
/// hundred characters, and what else it held. It is not the end.
pub proof fn law_events_add_their_words(
    state: StreamState,
    event: json::JsonView,
    choice: json::JsonView,
)
    requires
        reply::reported_error(event) is None,
        json::first_of(json::field(event, "choices"@)) == Some(choice),
    ensures
        ({
            let (after, error) = event_step(state, Some(event));
            let delta = json::field(choice, "delta"@);
            let whole = json::field(choice, "message"@);
            let words = content_text(json::field(delta, "content"@));
            &&& error is None
            &&& after.event_data == state.event_data
            &&& after.saw_done == state.saw_done
            &&& state.output.len() + words.len() > 0 ==> after.output == state.output + words
            &&& state.output.len() + words.len() == 0 ==> after.output == content_text(
                json::field(whole, "content"@),
            )
            &&& match json::text_of(json::field(choice, "finish_reason"@)) {
                Some(reason) => {
                    &&& after.finish_reason is Some
                    &&& reason.len() <= 100 ==> after.finish_reason.unwrap() == reason
                    &&& reason.len() > 100 ==> after.finish_reason.unwrap() == reason.subrange(
                        0,
                        100,
                    )
                },
                None => after.finish_reason == state.finish_reason,
            }
            &&& after.saw_refusal <==> state.saw_refusal || !(json::field(
                delta,
                "refusal"@,
            ) is Null) || !(json::field(whole, "refusal"@) is Null)
            &&& after.saw_reasoning <==> state.saw_reasoning || !(json::field(
                delta,
                "reasoning_content"@,
            ) is Null) || !(json::field(whole, "reasoning_content"@) is Null)
            &&& after.saw_tool_calls <==> state.saw_tool_calls || !(json::field(
                delta,
                "tool_calls"@,
            ) is Null) || !(json::field(whole, "tool_calls"@) is Null)
        }),
{
    let words = content_text(json::field(json::field(choice, "delta"@), "content"@));
    let whole = content_text(json::field(json::field(choice, "message"@), "content"@));
    if state.output.len() + words.len() == 0 {
        assert(state.output + words + whole =~= whole);
    }
    if let Some(reason) = json::text_of(json::field(choice, "finish_reason"@)) {
        text::law_texts_are_cut_to_size(reason, 100);
    }
}

/// An event that cannot be read, or that reports an error, ends the stream with that error, of which
/// up to 500 characters are told. An event without choices adds no words. Why the prompt was
/// refused is noted from any event, under either of its names.
pub proof fn law_errors_end_the_stream(state: StreamState, event: json::JsonView)
    ensures
        event_step(state, None).1 == Some(StreamErrorView::InvalidEvent),
        event_step(state, None).0 == state,
        reply::reported_error(event) matches Some(message) ==> {
            &&& event_step(state, Some(event)).0 == state
            &&& event_step(state, Some(event)).1 matches Some(StreamErrorView::Reported(told))
            &&& message.len() <= 500 ==> told == message
            &&& message.len() > 500 ==> told == message.subrange(0, 500)
        },
        reply::reported_error(event) is None ==> {
            let (after, error) = event_step(state, Some(event));
            let snake = json::text_of(
                json::field(json::field(event, "prompt_feedback"@), "block_reason"@),
            );
            let camel = json::text_of(
                json::field(json::field(event, "promptFeedback"@), "blockReason"@),
            );
            &&& error is None
            &&& json::first_of(json::field(event, "choices"@)) is None ==> after.output
                == state.output && after.finish_reason == state.finish_reason && after.saw_refusal
                == state.saw_refusal && after.saw_reasoning == state.saw_reasoning
                && after.saw_tool_calls == state.saw_tool_calls
            &&& snake is None && camel is None ==> after.block_reason == state.block_reason
            &&& snake matches Some(reason) ==> reason.len() <= 100 ==> after.block_reason == Some(
                reason,
            )
            &&& snake is None && camel is Some && camel.unwrap().len() <= 100 ==> after.block_reason
                == camel
        },
{
    if let Some(message) = reply::reported_error(event) {
        text::law_texts_are_cut_to_size(message, 500);
    }
    let snake = json::text_of(json::field(json::field(event, "prompt_feedback"@), "block_reason"@));
    let camel = json::text_of(json::field(json::field(event, "promptFeedback"@), "blockReason"@));
    if let Some(reason) = snake {
        text::law_texts_are_cut_to_size(reason, 100);
    }
    if let Some(reason) = camel {
        text::law_texts_are_cut_to_size(reason, 100);
    }
}

/// The event says nothing but some words.
pub open spec fn only_says(event: json::JsonView, words: Seq<char>) -> bool {
    let choice = json::first_of(json::field(event, "choices"@));
    &&& reply::reported_error(event) is None
    &&& choice is Some
    &&& json::field(json::field(choice.unwrap(), "delta"@), "content"@) == json::JsonView::Text(
        words,
    )
}

/// The state after a run of events without errors.
pub open spec fn after_events(state: StreamState, events: Seq<json::JsonView>) -> StreamState
    decreases events.len(),
{
    if events.len() == 0 {
        state
    } else {
        event_step(after_events(state, events.drop_last()), Some(events.last())).0
    }
}

/// A run of events that bring words gives all of them, in their order and with nothing between
/// them.
pub proof fn law_words_add_up(
    state: StreamState,
    events: Seq<json::JsonView>,
    words: Seq<Seq<char>>,
)
    requires
        events.len() == words.len(),
        forall|i: int|
            0 <= i < events.len() ==> only_says(#[trigger] events[i], words[i]) && words[i].len()
                > 0,
    ensures
        after_events(state, events).output == state.output + text::joined(words, Seq::empty()),
        after_events(state, events).saw_done == state.saw_done,
    decreases events.len(),
{
    if events.len() > 0 {
        let rest = events.drop_last();
        let before = words.drop_last();
        let last = events.len() - 1;
        assert forall|i: int| 0 <= i < rest.len() implies only_says(#[trigger] rest[i], before[i])
            && before[i].len() > 0 by {
            assert(rest[i] == events[i]);
        }
        law_words_add_up(state, rest, before);
        assert(only_says(events[last], words[last]));
        let choice = json::first_of(json::field(events[last], "choices"@)).unwrap();
        let earlier = after_events(state, rest);
        law_events_add_their_words(earlier, events[last], choice);
        assert(before.push(words[last]) =~= words);
        crate::lines::law_joining_sets_separators_between(before, words[last], Seq::empty());
        assert(after_events(state, events).output =~= state.output + text::joined(
            words,
            Seq::empty(),
        ));
    } else {
        assert(words =~= Seq::empty());
        assert(state.output + text::joined(words, Seq::empty()) =~= state.output);
    }
}

/// A line of data is kept as it is, but for one blank at its front; a comment and any other field is
/// passed over. No such line says or ends anything yet.
pub proof fn law_lines_of_data_are_kept(state: StreamState, s: Seq<char>)
    ensures
        ({
            let kept = StreamState { event_data: state.event_data.push(s), ..state };
            &&& text_line_step(state, seq!['d', 'a', 't', 'a', ':', ' '] + s) == (
                kept,
                None::<StreamErrorView>,
            )
            &&& s.len() == 0 || s[0] != ' ' ==> text_line_step(
                state,
                seq!['d', 'a', 't', 'a', ':'] + s,
            ) == (kept, None::<StreamErrorView>)
        }),
        text_line_step(state, seq![':'] + s) == (state, None::<StreamErrorView>),
        s.len() > 0 && (s.len() < 5 || s.subrange(0, 5) != seq!['d', 'a', 't', 'a', ':'])
            ==> text_line_step(state, s) == (state, None::<StreamErrorView>),
{
    reveal_strlit("data:");
    reveal_strlit(":");
    reveal_strlit(" ");
    let data = seq!['d', 'a', 't', 'a', ':'];
    let blank = seq!['d', 'a', 't', 'a', ':', ' '];
    assert("data:"@ =~= data);
    assert(":"@ =~= seq![':']);
    assert(" "@ =~= seq![' ']);
    let with_blank = blank + s;
    assert(with_blank.subrange(0, 5) =~= data);
    assert(with_blank.subrange(0, 1) =~= seq!['d']);
    assert(with_blank.subrange(0, 1)[0] == 'd');
    assert(":"@[0] == ':');
    assert(!text::starts_with(with_blank, ":"@));
    assert(with_blank.skip(5) =~= seq![' '] + s);
    assert((seq![' '] + s).subrange(0, 1) =~= seq![' ']);
    assert((seq![' '] + s).skip(1) =~= s);
    let without = data + s;
    assert(without.subrange(0, 5) =~= data);
    assert(without.subrange(0, 1)[0] == 'd');
    assert(!text::starts_with(without, ":"@));
    assert(without.skip(5) =~= s);
    if s.len() > 0 {
        assert(s.subrange(0, 1)[0] == s[0]);
        assert(" "@[0] == ' ');
    }
    let comment = seq![':'] + s;
    assert(comment.subrange(0, 1) =~= seq![':']);
}

/// An empty line ends an event: its lines of data are one document, whatever was kept of it is done
/// with, and `[DONE]` in the place of a document ends the stream. Without data it means nothing.
pub proof fn law_empty_lines_end_events(state: StreamState)
    ensures
        ({
            let (after, error) = text_line_step(state, Seq::empty());
            let data = text::joined(state.event_data, seq!['\n']);
            let done = text::trimmed(data) == seq!['[', 'D', 'O', 'N', 'E', ']'];
            let cleared = StreamState { event_data: Seq::empty(), ..state };
            &&& state.event_data.len() == 0 ==> after == state && error is None
            &&& state.event_data.len() > 0 ==> after.event_data.len() == 0
            &&& state.event_data.len() > 0 && done ==> after.saw_done && error is None
                && after.output == state.output
            &&& state.event_data.len() > 0 && !done ==> (after, error) == event_step(
                cleared,
                json::json_document(data),
            ) && after.saw_done == state.saw_done
        }),
{
    reveal_strlit("\n");
    reveal_strlit("[DONE]");
    assert("\n"@ =~= seq!['\n']);
    assert("[DONE]"@ =~= seq!['[', 'D', 'O', 'N', 'E', ']']);
}

/// Bytes are read line by line: what stands before a line feed is a line, and what stands after the
/// last one waits for the rest. A carriage return at the end of a line is no part of it.
pub proof fn law_bytes_are_read_by_lines(state: StreamState, line: Seq<u8>, rest: Seq<u8>)
    requires
        forall|i: int| 0 <= i < line.len() ==> #[trigger] line[i] != 10,
    ensures
        bytes_step(state, line) == (state, line, None::<StreamErrorView>),
        ({
            let (next, error) = line_step(state, line);
            let (after, pending, told) = bytes_step(state, line + seq![10u8] + rest);
            &&& error is None ==> (after, pending, told) == bytes_step(next, rest)
            &&& error is Some ==> told == error
        }),
        !vstd::utf8::valid_utf8(line) ==> line_step(state, line).1 == Some(
            StreamErrorView::NotUtf8,
        ),
        vstd::utf8::valid_utf8(line) ==> {
            let words = vstd::utf8::decode_utf8(line);
            let n = text::without_trailing(words, '\r').len();
            &&& n <= words.len()
            &&& line_step(state, line) == text_line_step(state, words.subrange(0, n as int))
            &&& forall|i: int| n <= i < words.len() ==> #[trigger] words[i] == '\r'
            &&& n > 0 ==> words[n - 1] != '\r'
        },
{
    let whole = line + seq![10u8] + rest;
    lemma_line_length(line, rest);
    lemma_line_whole(line);
    assert(whole.take(line.len() as int) =~= line);
    assert(whole.skip(line.len() + 1int) =~= rest);
    if vstd::utf8::valid_utf8(line) {
        let words = vstd::utf8::decode_utf8(line);
        text::law_trailing_characters_go(words, '\r');
        let kept = text::without_trailing(words, '\r');
        assert(kept == words.subrange(0, kept.len() as int));
        if kept.len() > 0 {
            assert(kept[kept.len() - 1] == words[kept.len() - 1]);
        }
    }
}

proof fn lemma_line_length(line: Seq<u8>, rest: Seq<u8>)
    requires
        forall|i: int| 0 <= i < line.len() ==> #[trigger] line[i] != 10,
    ensures
        line_end(line + seq![10u8] + rest) == line.len(),
    decreases line.len(),
{
    if line.len() > 0 {
        let shorter = line.drop_first();
        assert forall|i: int| 0 <= i < shorter.len() implies #[trigger] shorter[i] != 10 by {
            assert(shorter[i] == line[i + 1]);
        }
        lemma_line_length(shorter, rest);
        assert((line + seq![10u8] + rest).drop_first() =~= shorter + seq![10u8] + rest);
        assert((line + seq![10u8] + rest)[0] == line[0]);
    }
}

proof fn lemma_line_whole(line: Seq<u8>)
    requires
        forall|i: int| 0 <= i < line.len() ==> #[trigger] line[i] != 10,
    ensures
        line_end(line) == line.len(),
    decreases line.len(),
{
    if line.len() > 0 {
        let shorter = line.drop_first();
        assert forall|i: int| 0 <= i < shorter.len() implies #[trigger] shorter[i] != 10 by {
            assert(shorter[i] == line[i + 1]);
        }
        lemma_line_whole(shorter);
    }
}

/// A stream gives its words, without the white space round them, exactly where it was ended
/// properly and said something. Otherwise the error tells which of the two was missing.
pub proof fn law_ended_streams_give_their_words(state: StreamState)
    ensures
        finished(state) is Ok <==> state.saw_done && !(forall|i: int|
            0 <= i < state.output.len() ==> text::white_space(#[trigger] state.output[i])),
        finished(state) matches Ok(words) ==> words == text::trimmed(state.output),
        finished(state) matches Err(error) ==> {
            &&& error is EndedEarly <==> !state.saw_done
            &&& error is NoText <==> state.saw_done
        },
{
    text::law_trimming_takes_white_space_off(state.output);
}

/// What is left when a stream ends is its last line, and ends its last event.
pub proof fn law_last_line_counts(state: StreamState, pending: Seq<u8>)
    ensures
        ({
            let (read, error) = line_step(state, pending);
            let (ended, late) = text_line_step(read, Seq::empty());
            let (alone, early) = text_line_step(state, Seq::empty());
            &&& pending.len() > 0 && error is Some ==> stream_text(state, pending) == Err::<
                Seq<char>,
                StreamErrorView,
            >(error.unwrap())
            &&& pending.len() > 0 && error is None && late is Some ==> stream_text(state, pending)
                == Err::<Seq<char>, StreamErrorView>(late.unwrap())
            &&& pending.len() > 0 && error is None && late is None ==> stream_text(state, pending)
                == finished(ended)
            &&& pending.len() == 0 && early is None ==> stream_text(state, pending) == finished(
                alone,
            )
            &&& pending.len() == 0 && early is Some ==> stream_text(state, pending) == Err::<
                Seq<char>,
                StreamErrorView,
            >(early.unwrap())
        }),
{
}

/// The details of an error tell each thing that was noted, and nothing else.
pub proof fn law_details_tell_what_was_noted(state: StreamState)
    ensures
        ({
            let told = details(state);
            let n = |noted: bool|
                if noted {
                    1int
                } else {
                    0
                };
            &&& told.len() == n(state.finish_reason is Some) + n(state.block_reason is Some) + n(
                state.saw_refusal,
            ) + n(state.saw_reasoning) + n(state.saw_tool_calls)
            &&& state.finish_reason matches Some(reason) ==> told[0] == "finish_reason="@ + reason
            &&& state.block_reason matches Some(reason) ==> told[n(state.finish_reason is Some)]
                == "block_reason="@ + reason
            &&& state.saw_refusal ==> told[n(state.finish_reason is Some) + n(
                state.block_reason is Some,
            )] == "refusal=true"@
            &&& state.saw_tool_calls ==> told.last() == "tool_calls=true"@
            &&& state.saw_reasoning ==> told[told.len() - 1 - n(state.saw_tool_calls)]
                == "reasoning_without_text=true"@
            &&& told.len() == 0 ==> details_suffix(state).len() == 0
            &&& told.len() > 0 ==> details_suffix(state) == " ("@ + text::joined(told, ", "@)
                + ")"@
        }),
{
}

/// The errors of a stream tell what happened, and what was noted of it.
pub proof fn law_stream_errors_are_told(words: String)
    ensures
        (StreamError::Reported { message: words }).message_view()
            == "OpenAI-compatible API stream returned an error: "@ + words@,
        (StreamError::EndedEarly { details: words }).message_view()
            == "OpenAI-compatible API stream ended before [DONE]"@ + words@,
        (StreamError::NoText { details: words }).message_view()
            == "OpenAI-compatible API returned no text"@ + words@,
        StreamError::NotUtf8.message_view()
            == "OpenAI-compatible API stream contained non-UTF-8 data"@,
        StreamError::InvalidEvent.message_view()
            == "OpenAI-compatible API returned an invalid JSON stream event"@,
        nothing_read().event_data.len() == 0,
        nothing_read().output.len() == 0,
        !nothing_read().saw_done,
        details(nothing_read()).len() == 0,
{
}

/// An error is told as it is.
pub proof fn law_errors_are_told_as_they_are(words: String)
    ensures
        StreamError::NotUtf8@ == StreamErrorView::NotUtf8,
        StreamError::InvalidEvent@ == StreamErrorView::InvalidEvent,
        (StreamError::Reported { message: words })@ == StreamErrorView::Reported(words@),
        (StreamError::EndedEarly { details: words })@ == StreamErrorView::EndedEarly(words@),
        (StreamError::NoText { details: words })@ == StreamErrorView::NoText(words@),
        error_of(Ok(())) is None,
        error_of(Err(StreamError::NotUtf8)) == Some(StreamErrorView::NotUtf8),
{
}

} // verus!
