//! What the bot's commands answer.
use vstd::prelude::*;

use crate::asr::decoder::CallCounters;
use crate::text;

verus! {

broadcast use vstd::seq::group_seq_axioms;

// ---------------------------------------------------------------------------
// The echo of a command
// ---------------------------------------------------------------------------

/// The commands of the bot.
#[derive(Clone, Copy, Debug, PartialEq, Eq, Structural)]
pub enum SlashCommand {
    Join,
    Leave,
    Status,
    Log,
    Ask,
    Summary,
    Autojoin,
}

/// The command of the given name.
pub open spec fn command_named(name: Seq<char>) -> Option<SlashCommand> {
    if name == "join"@ {
        Some(SlashCommand::Join)
    } else if name == "leave"@ {
        Some(SlashCommand::Leave)
    } else if name == "status"@ {
        Some(SlashCommand::Status)
    } else if name == "log"@ {
        Some(SlashCommand::Log)
    } else if name == "ask"@ {
        Some(SlashCommand::Ask)
    } else if name == "summary"@ {
        Some(SlashCommand::Summary)
    } else if name == "autojoin"@ {
        Some(SlashCommand::Autojoin)
    } else {
        None
    }
}

/// The command of the given name.
pub fn slash_command(name: &str) -> (r: Option<SlashCommand>)
    ensures
        r == command_named(name@),
{
    if text::same(name, "join") {
        Some(SlashCommand::Join)
    } else if text::same(name, "leave") {
        Some(SlashCommand::Leave)
    } else if text::same(name, "status") {
        Some(SlashCommand::Status)
    } else if text::same(name, "log") {
        Some(SlashCommand::Log)
    } else if text::same(name, "ask") {
        Some(SlashCommand::Ask)
    } else if text::same(name, "summary") {
        Some(SlashCommand::Summary)
    } else if text::same(name, "autojoin") {
        Some(SlashCommand::Autojoin)
    } else {
        None
    }
}

/// The value of a command's option.
pub enum OptionValue {
    /// A text.
    Text(String),
    /// A truth value.
    Boolean(bool),
    /// A whole number.
    Integer(i64),
    /// A number that is already written out.
    Number(String),
    /// A channel.
    Channel(u64),
    /// A user.
    User(u64),
    /// A role.
    Role(u64),
    /// Something else with a number.
    Id(u64),
    /// Something that is not shown.
    Hidden,
}

/// How an option is shown, where it is.
pub open spec fn shown(value: OptionValue) -> Option<Seq<char>> {
    match value {
        OptionValue::Text(s) => Some(s@),
        OptionValue::Boolean(b) => Some(if b {
            "true"@
        } else {
            "false"@
        }),
        OptionValue::Integer(n) => Some(text::signed_decimal(n as int)),
        OptionValue::Number(s) => Some(s@),
        OptionValue::Channel(id) => Some("<#"@ + text::decimal(id as nat) + ">"@),
        OptionValue::User(id) => Some("<@"@ + text::decimal(id as nat) + ">"@),
        OptionValue::Role(id) => Some("<@&"@ + text::decimal(id as nat) + ">"@),
        OptionValue::Id(id) => Some(text::decimal(id as nat)),
        OptionValue::Hidden => None,
    }
}

/// A command as it was given.
pub open spec fn command_echo(name: Seq<char>, options: Seq<OptionValue>) -> Seq<char>
    decreases options.len(),
{
    if options.len() == 0 {
        "/"@ + name
    } else {
        let before = command_echo(name, options.drop_last());
        match shown(options.last()) {
            Some(value) => before + " "@ + value,
            None => before,
        }
    }
}

fn mention(opening: &str, id: u64) -> (r: String)
    ensures
        r@ == opening@ + text::decimal(id as nat) + ">"@,
{
    let mut out = String::new();
    out.append(opening);
    text::push_decimal(&mut out, id);
    out.append(">");
    assert(out@ =~= opening@ + text::decimal(id as nat) + ">"@);
    out
}

fn show(value: &OptionValue) -> (r: Option<String>)
    ensures
        match r {
            Some(s) => shown(*value) == Some(s@),
            None => shown(*value) is None,
        },
{
    match value {
        OptionValue::Text(s) => Some(s.clone()),
        OptionValue::Boolean(b) => if *b {
            Some("true".to_string())
        } else {
            Some("false".to_string())
        },
        OptionValue::Integer(n) => Some(text::i64_text(*n)),
        OptionValue::Number(s) => Some(s.clone()),
        OptionValue::Channel(id) => Some(mention("<#", *id)),
        OptionValue::User(id) => Some(mention("<@", *id)),
        OptionValue::Role(id) => Some(mention("<@&", *id)),
        OptionValue::Id(id) => Some(text::u64_text(*id)),
        OptionValue::Hidden => None,
    }
}

/// A command as it was given.
pub fn format_slash_command(name: &str, options: &[OptionValue]) -> (r: String)
    ensures
        r@ == command_echo(name@, options@),
{
    let mut out = String::new();
    out.append("/");
    out.append(name);
    assert(out@ =~= "/"@ + name@);
    assert(options@.take(0) =~= Seq::<OptionValue>::empty());
    for i in 0..options.len()
        invariant
            out@ == command_echo(name@, options@.take(i as int)),
    {
        let ghost before = out@;
        assert(options@.take(i + 1).drop_last() =~= options@.take(i as int));
        if let Some(value) = show(&options[i]) {
            out.append(" ");
            out.append(value.as_str());
            assert(out@ =~= before + " "@ + value@);
        }
    }
    assert(options@.take(options@.len() as int) =~= options@);
    out
}

/// The answer to a command: the command as it was given, and its result or what went wrong.
pub open spec fn response_text(command: Seq<char>, result: Result<Seq<char>, Seq<char>>) -> Seq<
    char,
> {
    "**Command:** "@ + command + "\n\n"@ + match result {
        Ok(message) => message,
        Err(error) => "error: "@ + error,
    }
}

/// The answer to a command.
pub fn command_response(command: &str, result: Result<String, String>) -> (r: String)
    ensures
        r@ == response_text(
            command@,
            match result {
                Ok(message) => Ok(message@),
                Err(error) => Err(error@),
            },
        ),
{
    let mut out = String::new();
    out.append("**Command:** ");
    out.append(command);
    out.append("\n\n");
    match result {
        Ok(message) => {
            out.append(message.as_str());
        },
        Err(error) => {
            out.append("error: ");
            out.append(error.as_str());
        },
    }
    assert(out@ =~= response_text(
        command@,
        match result {
            Ok(message) => Ok(message@),
            Err(error) => Err(error@),
        },
    ));
    out
}

/// What is said once a voice channel was joined.
pub fn joined_message(channel: u64) -> (r: String)
    ensures
        r@ == "Joined <#"@ + text::decimal(channel as nat)
            + ">. Listening and waiting for speech..."@,
{
    let mut out = String::new();
    out.append("Joined <#");
    text::push_decimal(&mut out, channel);
    out.append(">. Listening and waiting for speech...");
    assert(out@ =~= "Joined <#"@ + text::decimal(channel as nat)
        + ">. Listening and waiting for speech..."@);
    out
}

/// What is said once the first speech of a call is heard.
pub fn started_message(channel: u64) -> (r: String)
    ensures
        r@ == "Started transcribing in <#"@ + text::decimal(channel as nat) + ">."@,
{
    let mut out = String::new();
    out.append("Started transcribing in <#");
    text::push_decimal(&mut out, channel);
    out.append(">.");
    assert(out@ =~= "Started transcribing in <#"@ + text::decimal(channel as nat) + ">."@);
    out
}

// ---------------------------------------------------------------------------
// Status
// ---------------------------------------------------------------------------

/// How bad a measure is.
#[derive(Clone, Copy, Debug, PartialEq, Eq, Structural)]
pub enum Alert {
    Fine,
    Warn,
    Critical,
}

impl Alert {
    /// What it is called.
    pub open spec fn label(self) -> Seq<char> {
        match self {
            Alert::Fine => "ok"@,
            Alert::Warn => "warn"@,
            Alert::Critical => "critical"@,
        }
    }

    /// What it is called.
    pub fn name(self) -> (r: &'static str)
        ensures
            r@ == self.label(),
    {
        match self {
            Alert::Fine => "ok",
            Alert::Warn => "warn",
            Alert::Critical => "critical",
        }
    }
}

/// The alert on the number of utterances that wait for the decoder.
pub fn queue_alert(depth: usize) -> (r: Alert)
    ensures
        r == (if depth > 8 {
            Alert::Critical
        } else if depth > 4 {
            Alert::Warn
        } else {
            Alert::Fine
        }),
        r is Fine <==> depth <= 4,
        r is Warn <==> 5 <= depth <= 8,
        r is Critical <==> depth >= 9,
{
    if depth > 8 {
        Alert::Critical
    } else if depth > 4 {
        Alert::Warn
    } else {
        Alert::Fine
    }
}

/// The alert on the time that decoding takes, against the time of the audio: above four fifths it
/// is critical, above a half it is a warning.
pub open spec fn rtf_alert_of(decode_ms: int, audio_ms: int) -> Alert {
    if audio_ms == 0 {
        Alert::Fine
    } else if decode_ms * 10 > audio_ms * 8 {
        Alert::Critical
    } else if decode_ms * 10 > audio_ms * 5 {
        Alert::Warn
    } else {
        Alert::Fine
    }
}

/// The alert on the time that decoding takes.
pub fn rtf_alert(decode_ms: usize, audio_ms: usize) -> (r: Alert)
    ensures
        r == rtf_alert_of(decode_ms as int, audio_ms as int),
{
    if audio_ms == 0 {
        Alert::Fine
    } else if decode_ms as u128 * 10 > audio_ms as u128 * 8 {
        Alert::Critical
    } else if decode_ms as u128 * 10 > audio_ms as u128 * 5 {
        Alert::Warn
    } else {
        Alert::Fine
    }
}

/// All frames that came in, as far as the counter reaches.
pub open spec fn frames_seen(decoded: usize, failed: usize) -> int {
    if decoded + failed <= usize::MAX {
        decoded + failed
    } else {
        usize::MAX as int
    }
}

/// The alert on the frames that could not be decoded: above five in a hundred it is critical,
/// above one in a hundred it is a warning.
pub open spec fn failure_alert_of(decoded: usize, failed: usize) -> Alert {
    let seen = frames_seen(decoded, failed);
    if seen == 0 {
        Alert::Fine
    } else if failed * 100 > seen * 5 {
        Alert::Critical
    } else if failed * 100 > seen {
        Alert::Warn
    } else {
        Alert::Fine
    }
}

/// The alert on the frames that could not be decoded.
pub fn failure_alert(decoded: usize, failed: usize) -> (r: Alert)
    ensures
        r == failure_alert_of(decoded, failed),
{
    let seen: usize = decoded.saturating_add(failed);
    if seen == 0 {
        Alert::Fine
    } else if failed as u128 * 100 > seen as u128 * 5 {
        Alert::Critical
    } else if failed as u128 * 100 > seen as u128 {
        Alert::Warn
    } else {
        Alert::Fine
    }
}

/// The alert on the utterances that a full queue shed: more than one a minute is critical, any is
/// a warning.
pub open spec fn shed_alert_of(shed: int, elapsed_nanos: int) -> Alert {
    if shed * 60_000_000_000 > elapsed_nanos {
        Alert::Critical
    } else if shed > 0 {
        Alert::Warn
    } else {
        Alert::Fine
    }
}

/// The alert on the utterances that a full queue shed.
pub fn shed_alert(shed: usize, elapsed_nanos: u64) -> (r: Alert)
    ensures
        r == shed_alert_of(shed as int, elapsed_nanos as int),
{
    if shed as u128 * 60_000_000_000 > elapsed_nanos as u128 {
        Alert::Critical
    } else if shed > 0 {
        Alert::Warn
    } else {
        Alert::Fine
    }
}

/// The alert on audio that no user is known for, once the call runs for a while.
pub fn unmapped_alert(unmapped: usize, elapsed_seconds: u64) -> (r: Alert)
    ensures
        r == (if elapsed_seconds > 30 && unmapped > 0 {
            Alert::Warn
        } else {
            Alert::Fine
        }),
        r is Warn <==> elapsed_seconds >= 31 && unmapped > 0,
        !(r is Critical),
{
    if elapsed_seconds > 30 && unmapped > 0 {
        Alert::Warn
    } else {
        Alert::Fine
    }
}

/// What a status report is about. The texts are measures that are already written out.
pub struct StatusInput {
    pub voice_channel: u64,
    pub elapsed_nanos: u64,
    pub participants: usize,
    pub queue_depth: usize,
    pub queue_capacity: usize,
    pub counters: CallCounters,
    pub utterances: usize,
    pub failure_percent: String,
    pub rtf: String,
    pub average_wait_ms: String,
    pub average_decode_ms: String,
    pub shed_per_minute: String,
}

/// Whole seconds.
pub open spec fn whole_seconds(nanos: u64) -> nat {
    nanos as nat / 1_000_000_000
}

/// A time as in `01:02:03`.
pub open spec fn clock_of(seconds: nat) -> Seq<char> {
    text::decimal2(seconds / 3600) + ":"@ + text::decimal2((seconds % 3600) / 60) + ":"@
        + text::decimal2(seconds % 60)
}

/// A number.
pub open spec fn num(n: usize) -> Seq<char> {
    text::decimal(n as nat)
}

/// The lines of a status report.
pub open spec fn status_lines(input: StatusInput) -> Seq<Seq<char>> {
    let c = input.counters;
    seq![
        "Transcription status"@,
        "Voice channel: <#"@ + text::decimal(input.voice_channel as nat) + ">"@,
        "Active for: "@ + clock_of(whole_seconds(input.elapsed_nanos)) + ""@,
        "Participants in voice: "@ + num(input.participants) + ""@,
        "Queue depth: "@ + (num(input.queue_depth) + "/"@ + num(input.queue_capacity)) + (" ["@
            + (if input.queue_depth > 8 {
            Alert::Critical
        } else if input.queue_depth > 4 {
            Alert::Warn
        } else {
            Alert::Fine
        }).label() + "]"@),
        "ASR in-flight: "@ + num(c.transcription_inflight) + ""@,
        "Pending commits: "@ + num(c.transcript_pending_commits) + ""@,
        "ASR decode errors: "@ + num(c.asr_decode_error_total) + ""@,
        "Decode failure: "@ + input.failure_percent@ + ("% ["@ + failure_alert_of(
            c.decoded_audio_activity,
            c.decode_failure_activity,
        ).label() + "]"@),
        "RTF (decode/audio): "@ + input.rtf@ + (" ["@ + rtf_alert_of(
            c.decode_total_ms as int,
            c.decode_audio_total_ms as int,
        ).label() + "]"@),
        "Decode wait/decode ms (avg): "@ + input.average_wait_ms@ + ("/"@
            + input.average_decode_ms@ + ""@),
        "Decode shed: "@ + (num(c.decode_shed_total) + " ("@ + input.shed_per_minute@) + ("/min) ["@
            + shed_alert_of(c.decode_shed_total as int, input.elapsed_nanos as int).label()
            + "]"@),
        "Unmapped SSRC: "@ + num(c.unmapped_ssrc_activity) + (" ["@ + (if whole_seconds(
            input.elapsed_nanos,
        ) > 30 && c.unmapped_ssrc_activity > 0 {
            Alert::Warn
        } else {
            Alert::Fine
        }).label() + "]"@),
        "Transcript utterances: "@ + num(input.utterances) + ""@,
    ]
}

fn concat3(a: &str, b: &str, c: &str) -> (r: String)
    ensures
        r@ == a@ + b@ + c@,
{
    let mut out = String::new();
    out.append(a);
    out.append(b);
    out.append(c);
    assert(out@ =~= a@ + b@ + c@);
    out
}

fn number(n: usize) -> (r: String)
    ensures
        r@ == num(n),
{
    text::u64_text(n as u64)
}

fn clock_text(seconds: u64) -> (r: String)
    ensures
        r@ == clock_of(seconds as nat),
{
    let mut out = String::new();
    text::push_decimal2(&mut out, seconds / 3600);
    out.append(":");
    text::push_decimal2(&mut out, (seconds % 3600) / 60);
    out.append(":");
    text::push_decimal2(&mut out, seconds % 60);
    assert(out@ =~= clock_of(seconds as nat));
    out
}

/// The report on a call.
pub fn status_report(input: &StatusInput) -> (r: String)
    ensures
        r@ == text::joined(status_lines(*input), "\n"@),
{
    let c = input.counters;
    let seconds: u64 = input.elapsed_nanos / 1_000_000_000;
    let mut out: Vec<String> = Vec::new();
    assert(text::texts(out@) =~= Seq::<Seq<char>>::empty());
    text::push_text(&mut out, "Transcription status");
    text::push_line(
        &mut out,
        "Voice channel: <#",
        text::u64_text(input.voice_channel).as_str(),
        ">",
    );
    text::push_line(&mut out, "Active for: ", clock_text(seconds).as_str(), "");
    text::push_line(
        &mut out,
        "Participants in voice: ",
        number(input.participants).as_str(),
        "",
    );
    let depth = concat3(
        number(input.queue_depth).as_str(),
        "/",
        number(input.queue_capacity).as_str(),
    );
    let queue = concat3(" [", queue_alert(input.queue_depth).name(), "]");
    text::push_line(&mut out, "Queue depth: ", depth.as_str(), queue.as_str());
    text::push_line(&mut out, "ASR in-flight: ", number(c.transcription_inflight).as_str(), "");
    text::push_line(
        &mut out,
        "Pending commits: ",
        number(c.transcript_pending_commits).as_str(),
        "",
    );
    text::push_line(
        &mut out,
        "ASR decode errors: ",
        number(c.asr_decode_error_total).as_str(),
        "",
    );
    let failure = failure_alert(c.decoded_audio_activity, c.decode_failure_activity);
    text::push_line(
        &mut out,
        "Decode failure: ",
        input.failure_percent.as_str(),
        concat3("% [", failure.name(), "]").as_str(),
    );
    let rtf = rtf_alert(c.decode_total_ms, c.decode_audio_total_ms);
    text::push_line(
        &mut out,
        "RTF (decode/audio): ",
        input.rtf.as_str(),
        concat3(" [", rtf.name(), "]").as_str(),
    );
    text::push_line(
        &mut out,
        "Decode wait/decode ms (avg): ",
        input.average_wait_ms.as_str(),
        concat3("/", input.average_decode_ms.as_str(), "").as_str(),
    );
    let shed = shed_alert(c.decode_shed_total, input.elapsed_nanos);
    text::push_line(
        &mut out,
        "Decode shed: ",
        concat3(
            number(c.decode_shed_total).as_str(),
            " (",
            input.shed_per_minute.as_str(),
        ).as_str(),
        concat3("/min) [", shed.name(), "]").as_str(),
    );
    let unmapped = unmapped_alert(c.unmapped_ssrc_activity, seconds);
    text::push_line(
        &mut out,
        "Unmapped SSRC: ",
        number(c.unmapped_ssrc_activity).as_str(),
        concat3(" [", unmapped.name(), "]").as_str(),
    );
    text::push_line(
        &mut out,
        "Transcript utterances: ",
        number(input.utterances).as_str(),
        "",
    );
    assert(text::texts(out@) =~= status_lines(*input));
    text::join(out.as_slice(), "\n")
}

// ---------------------------------------------------------------------------
// Log
// ---------------------------------------------------------------------------

/// The utterances that a log shows where nothing is asked for.
pub const LOG_DEFAULT_UTTERANCES: i64 = 40;

/// The most characters of a log.
pub const LOG_MAX_DISCORD_CHARS: usize = 1_800;

/// The utterances that a log shows: as many as asked for, between one and five hundred.
pub fn log_utterances(requested: Option<i64>) -> (r: usize)
    ensures
        r == ({
            let wanted = match requested {
                Some(n) => n as int,
                None => LOG_DEFAULT_UTTERANCES as int,
            };
            if wanted < 1 {
                1
            } else if wanted > 500 {
                500
            } else {
                wanted
            }
        }),
        1 <= r <= 500,
        requested is None ==> r == 40,
        requested matches Some(n) ==> {
            &&& 1 <= n <= 500 ==> r == n
            &&& n < 1 ==> r == 1
            &&& n > 500 ==> r == 500
        },
{
    let wanted: i64 = match requested {
        Some(n) => n,
        None => LOG_DEFAULT_UTTERANCES,
    };
    if wanted < 1 {
        1
    } else if wanted > 500 {
        500
    } else {
        wanted as usize
    }
}

/// A log of the last utterances. A long transcript is cut at its front.
pub open spec fn log_text(requested: usize, transcript: Seq<char>) -> Seq<char> {
    "Recent transcript (last "@ + num(requested) + " utterances):\n"@ + (if transcript.len()
        > LOG_MAX_DISCORD_CHARS {
        "(truncated to recent text)\n"@ + text::tail_of(transcript, 1_752)
    } else {
        transcript
    })
}

/// A log of the last utterances.
pub fn log_reply(requested: usize, transcript: &str) -> (r: String)
    ensures
        r@ == log_text(requested, transcript@),
{
    let mut out = concat3("Recent transcript (last ", number(requested).as_str(), " utterances):\n");
    if text::chars_of(transcript).len() > LOG_MAX_DISCORD_CHARS {
        out.append("(truncated to recent text)\n");
        out.append(text::tail_chars(transcript, LOG_MAX_DISCORD_CHARS - 48).as_str());
    } else {
        out.append(transcript);
    }
    assert(out@ =~= log_text(requested, transcript@));
    out
}

/// A log fits into a message, whatever the transcript is.
pub proof fn law_log_fits(requested: usize, transcript: Seq<char>)
    requires
        requested <= 500,
    ensures
        log_text(requested, transcript).len() <= 1_900,
{
    reveal_strlit("Recent transcript (last ");
    reveal_strlit(" utterances):\n");
    reveal_strlit("(truncated to recent text)\n");
    reveal_with_fuel(text::decimal, 4);
}

// ---------------------------------------------------------------------------
// Summary
// ---------------------------------------------------------------------------

/// What the AI service answered to a request for a summary or to a question.
pub enum AiReply {
    Text(String),
    Error(String),
}

/// What is shown of a summary: the text, where it is not blank, or what went wrong.
pub open spec fn summary_result(reply: AiReply) -> Result<Seq<char>, Seq<char>> {
    match reply {
        AiReply::Text(summary) => if text::trimmed(summary@).len() > 0 {
            Ok(summary@)
        } else {
            Err("ai error: provider returned no text"@)
        },
        AiReply::Error(error) => Err("ai error: "@ + error@),
    }
}

/// What is shown of a summary.
pub fn summary_reply(reply: AiReply) -> (r: Result<String, String>)
    ensures
        match r {
            Ok(summary) => summary_result(reply) == Ok::<Seq<char>, Seq<char>>(summary@),
            Err(message) => summary_result(reply) == Err::<Seq<char>, Seq<char>>(message@),
        },
{
    match reply {
        AiReply::Text(summary) => {
            let visible = text::trim(summary.as_str());
            if text::chars_of(visible.as_str()).len() > 0 {
                Ok(summary)
            } else {
                Err("ai error: provider returned no text".to_string())
            }
        },
        AiReply::Error(error) => {
            let mut out = String::new();
            out.append("ai error: ");
            out.append(error.as_str());
            assert(out@ =~= "ai error: "@ + error@);
            Err(out)
        },
    }
}

/// What is shown of an answer to a question.
pub fn ask_reply(reply: AiReply) -> (r: String)
    ensures
        r@ == (match reply {
            AiReply::Text(answer) => answer@,
            AiReply::Error(error) => "ai error: "@ + error@,
        }),
{
    match reply {
        AiReply::Text(answer) => answer,
        AiReply::Error(error) => {
            let mut out = String::new();
            out.append("ai error: ");
            out.append(error.as_str());
            assert(out@ =~= "ai error: "@ + error@);
            out
        },
    }
}

// ---------------------------------------------------------------------------
// The summary of a finished call, in its thread
// ---------------------------------------------------------------------------

/// A message of a thread.
pub struct ThreadMessage {
    pub from_bot: bool,
    pub content: String,
}

/// The message is one of the bot's with a summary.
pub open spec fn is_posted_summary(message: ThreadMessage) -> bool {
    message.from_bot && crate::app::summary::has_summary_heading(message.content@)
}

/// The first message of the bot's with a summary.
pub fn find_existing_thread_summary(messages: &[ThreadMessage]) -> (r: Option<usize>)
    ensures
        match r {
            Some(at) => at < messages@.len() && is_posted_summary(messages@[at as int])
                && forall|i: int| 0 <= i < at ==> !is_posted_summary(#[trigger] messages@[i]),
            None => forall|i: int|
                0 <= i < messages@.len() ==> !is_posted_summary(#[trigger] messages@[i]),
        },
{
    for i in 0..messages.len()
        invariant
            forall|j: int| 0 <= j < i ==> !is_posted_summary(#[trigger] messages@[j]),
    {
        let message = &messages[i];
        if message.from_bot && crate::app::summary::is_summary_thread_message(
            message.content.as_str(),
        ) {
            return Some(i);
        }
    }
    None
}

/// What a request for a summary leads to in the thread of a finished call.
pub enum ThreadSummaryStep {
    /// The request is answered with this.
    Answer(String),
    /// This message is posted.
    Post(String),
    /// The transcript is to be summarized.
    Generate,
}

/// Decides about a request for a summary in the thread of a finished call: a summary that was
/// posted is pointed to, one that the export holds is posted, and otherwise one is made.
pub fn thread_summary_step(existing_link: Option<&str>, transcript: &str) -> (r: ThreadSummaryStep)
    ensures
        match (existing_link, crate::app::summary::summary_of_export(transcript@)) {
            (Some(link), _) => r matches ThreadSummaryStep::Answer(reply) && reply@
                == "A meeting summary was already posted in this thread: "@ + link@,
            (None, Some(cached)) => r matches ThreadSummaryStep::Post(message) && message@
                == crate::app::summary::summary_message(cached),
            (None, None) => r is Generate,
        },
{
    if let Some(link) = existing_link {
        let mut reply = String::new();
        reply.append("A meeting summary was already posted in this thread: ");
        reply.append(link);
        assert(reply@ =~= "A meeting summary was already posted in this thread: "@ + link@);
        return ThreadSummaryStep::Answer(reply);
    }
    match crate::app::summary::cached_summary_from_export_markdown(transcript) {
        Some(cached) => ThreadSummaryStep::Post(
            crate::app::summary::format_summary_thread_message(cached.as_str()),
        ),
        None => ThreadSummaryStep::Generate,
    }
}

/// What is said once a summary was posted.
pub fn summary_posted_message(link: &str) -> (r: String)
    ensures
        r@ == "Meeting summary posted in this thread: "@ + link@,
{
    let mut out = String::new();
    out.append("Meeting summary posted in this thread: ");
    out.append(link);
    assert(out@ =~= "Meeting summary posted in this thread: "@ + link@);
    out
}

/// A summary that was posted is found again: no second one is made for the thread.
pub proof fn law_posted_summary_is_found(messages: Seq<ThreadMessage>, at: int, summary: Seq<char>)
    requires
        0 <= at < messages.len(),
        messages[at].from_bot,
        messages[at].content@ == crate::app::summary::summary_message(summary),
        text::trimmed(summary).len() > 0,
    ensures
        is_posted_summary(messages[at]),
{
    crate::app::summary::law_summary_message_is_recognized(summary, Seq::empty());
}

// ---------------------------------------------------------------------------
// Laws of answers
// ---------------------------------------------------------------------------

/// The echo of a command is its name behind a slash, and each value that may be shown behind a
/// blank, in the order of the values.
pub proof fn law_echo_shows_every_value(
    name: Seq<char>,
    options: Seq<OptionValue>,
    value: OptionValue,
)
    ensures
        command_echo(name, Seq::empty()) == seq!['/'] + name,
        ({
            let before = command_echo(name, options);
            let after = command_echo(name, options.push(value));
            &&& value is Hidden ==> after == before
            &&& value matches OptionValue::Text(s) ==> after == before + seq![' '] + s@
            &&& value matches OptionValue::Number(s) ==> after == before + seq![' '] + s@
            &&& value matches OptionValue::Boolean(b) ==> after == before + seq![' '] + (if b {
                "true"@
            } else {
                "false"@
            })
            &&& value matches OptionValue::Integer(n) ==> after == before + seq![' ']
                + text::signed_decimal(n as int)
            &&& value matches OptionValue::Id(id) ==> after == before + seq![' '] + text::decimal(
                id as nat,
            )
            &&& value matches OptionValue::Channel(id) ==> after == before + seq![' ', '<', '#']
                + text::decimal(id as nat) + seq!['>']
            &&& value matches OptionValue::User(id) ==> after == before + seq![' ', '<', '@']
                + text::decimal(id as nat) + seq!['>']
            &&& value matches OptionValue::Role(id) ==> after == before + seq![' ', '<', '@', '&']
                + text::decimal(id as nat) + seq!['>']
        }),
{
    reveal_strlit("/");
    reveal_strlit(" ");
    reveal_strlit("<#");
    reveal_strlit("<@");
    reveal_strlit("<@&");
    reveal_strlit(">");
    assert(command_echo(name, Seq::empty()) =~= seq!['/'] + name);
    assert(options.push(value).drop_last() =~= options);
    let before = command_echo(name, options);
    let after = command_echo(name, options.push(value));
    match value {
        OptionValue::Text(s) => {
            assert(after =~= before + seq![' '] + s@);
        },
        OptionValue::Number(s) => {
            assert(after =~= before + seq![' '] + s@);
        },
        OptionValue::Boolean(b) => {
            assert(after =~= before + seq![' '] + (if b {
                "true"@
            } else {
                "false"@
            }));
        },
        OptionValue::Integer(n) => {
            assert(after =~= before + seq![' '] + text::signed_decimal(n as int));
        },
        OptionValue::Id(id) => {
            assert(after =~= before + seq![' '] + text::decimal(id as nat));
        },
        OptionValue::Channel(id) => {
            assert(after =~= before + seq![' ', '<', '#'] + text::decimal(id as nat) + seq!['>']);
        },
        OptionValue::User(id) => {
            assert(after =~= before + seq![' ', '<', '@'] + text::decimal(id as nat) + seq!['>']);
        },
        OptionValue::Role(id) => {
            assert(after =~= before + seq![' ', '<', '@', '&'] + text::decimal(id as nat) + seq![
                '>',
            ]);
        },
        OptionValue::Hidden => {},
    }
}

/// An answer repeats the command and then tells what came of it, which for an error is marked as
/// one.
pub proof fn law_answers_repeat_the_command(command: Seq<char>, told: Seq<char>)
    ensures
        response_text(command, Ok(told)) == "**Command:** "@ + command + "\n\n"@ + told,
        response_text(command, Err(told)) == "**Command:** "@ + command + "\n\n"@ + "error: "@
            + told,
{
    assert(response_text(command, Err(told)) =~= "**Command:** "@ + command + "\n\n"@ + "error: "@
        + told);
}

/// Decoding is slow where it takes more than half the time of the audio, and too slow where it takes
/// more than four fifths of it.
pub proof fn law_slow_decoding_is_told(decode_ms: usize, audio_ms: usize)
    ensures
        ({
            let alert = rtf_alert_of(decode_ms as int, audio_ms as int);
            &&& alert is Critical <==> audio_ms > 0 && 5 * decode_ms > 4 * audio_ms
            &&& alert is Warn <==> audio_ms > 0 && 2 * decode_ms > audio_ms && 5 * decode_ms <= 4
                * audio_ms
            &&& alert is Fine <==> audio_ms == 0 || 2 * decode_ms <= audio_ms
        }),
{
}

/// Failures are told where they are more than one in a hundred of all frames, and are bad where they
/// are more than five.
pub proof fn law_failing_frames_are_told(decoded: usize, failed: usize)
    requires
        decoded + failed <= usize::MAX,
    ensures
        ({
            let alert = failure_alert_of(decoded, failed);
            let all = decoded + failed;
            &&& alert is Critical <==> 20 * failed > all
            &&& alert is Warn <==> 100 * failed > all && 20 * failed <= all
            &&& alert is Fine <==> 100 * failed <= all
        }),
{
}

/// Dropped audio is told, and is bad where more than one utterance a minute is dropped.
pub proof fn law_dropped_audio_is_told(shed: usize, elapsed_nanos: u64)
    ensures
        ({
            let alert = shed_alert_of(shed as int, elapsed_nanos as int);
            &&& alert is Critical <==> shed * 60_000_000_000 > elapsed_nanos
            &&& alert is Warn <==> 0 < shed && shed * 60_000_000_000 <= elapsed_nanos
            &&& alert is Fine <==> shed == 0
        }),
{
}

/// The time a call has run is told in hours, minutes and seconds, of which the last two are below
/// sixty, and all together are its whole seconds.
pub proof fn law_running_time_reads_back(nanos: u64) -> (r: (Seq<char>, Seq<char>, Seq<char>))
    requires
        nanos < 360_000_000_000_000,
    ensures
        clock_of(whole_seconds(nanos)) == r.0 + seq![':'] + r.1 + seq![':'] + r.2,
        text::is_number(r.0) && text::is_number(r.1) && text::is_number(r.2),
        r.0.len() == 2 && r.1.len() == 2 && r.2.len() == 2,
        text::digits_value(r.1) < 60 && text::digits_value(r.2) < 60,
        3_600 * text::digits_value(r.0) + 60 * text::digits_value(r.1) + text::digits_value(r.2)
            == nanos / 1_000_000_000,
{
    reveal_strlit(":");
    let seconds = whole_seconds(nanos);
    let hours = text::decimal2(seconds / 3600);
    let minutes = text::decimal2((seconds % 3600) / 60);
    let rest = text::decimal2(seconds % 60);
    text::law_two_digits_read_back(seconds / 3600);
    text::law_two_digits_read_back((seconds % 3600) / 60);
    text::law_two_digits_read_back(seconds % 60);
    assert(clock_of(seconds) =~= hours + seq![':'] + minutes + seq![':'] + rest);
    (hours, minutes, rest)
}

/// The status has fourteen lines. Each number in it is the one that was counted, under its own name.
pub proof fn law_status_tells_every_number(input: StatusInput)
    ensures
        ({
            let list = status_lines(input);
            let c = input.counters;
            let n = |n: usize| text::decimal(n as nat);
            &&& list.len() == 14
            &&& list[0] == "Transcription status"@
            &&& list[1] == "Voice channel: <#"@ + text::decimal(input.voice_channel as nat) + ">"@
            &&& list[2] == "Active for: "@ + clock_of(input.elapsed_nanos as nat / 1_000_000_000)
            &&& list[3] == "Participants in voice: "@ + n(input.participants)
            &&& list[5] == "ASR in-flight: "@ + n(c.transcription_inflight)
            &&& list[6] == "Pending commits: "@ + n(c.transcript_pending_commits)
            &&& list[7] == "ASR decode errors: "@ + n(c.asr_decode_error_total)
            &&& list[13] == "Transcript utterances: "@ + n(input.utterances)
            &&& ("Queue depth: "@ + n(input.queue_depth) + "/"@ + n(
                input.queue_capacity,
            )).is_prefix_of(list[4])
            &&& ("Decode failure: "@ + input.failure_percent@).is_prefix_of(list[8])
            &&& ("RTF (decode/audio): "@ + input.rtf@).is_prefix_of(list[9])
            &&& list[10] == "Decode wait/decode ms (avg): "@ + input.average_wait_ms@ + "/"@
                + input.average_decode_ms@
            &&& ("Decode shed: "@ + n(c.decode_shed_total)).is_prefix_of(list[11])
            &&& ("Unmapped SSRC: "@ + n(c.unmapped_ssrc_activity)).is_prefix_of(list[12])
        }),
{
    reveal_strlit("");
    let list = status_lines(input);
    let c = input.counters;
    assert(list[2] =~= "Active for: "@ + clock_of(input.elapsed_nanos as nat / 1_000_000_000));
    assert(list[3] =~= "Participants in voice: "@ + num(input.participants));
    assert(list[5] =~= "ASR in-flight: "@ + num(c.transcription_inflight));
    assert(list[6] =~= "Pending commits: "@ + num(c.transcript_pending_commits));
    assert(list[7] =~= "ASR decode errors: "@ + num(c.asr_decode_error_total));
    assert(list[13] =~= "Transcript utterances: "@ + num(input.utterances));
    assert(list[10] =~= "Decode wait/decode ms (avg): "@ + input.average_wait_ms@ + "/"@
        + input.average_decode_ms@);
    let queue = "Queue depth: "@ + num(input.queue_depth) + "/"@ + num(input.queue_capacity);
    assert(queue =~= list[4].subrange(0, queue.len() as int));
    let failure = "Decode failure: "@ + input.failure_percent@;
    assert(failure =~= list[8].subrange(0, failure.len() as int));
    let rtf = "RTF (decode/audio): "@ + input.rtf@;
    assert(rtf =~= list[9].subrange(0, rtf.len() as int));
    let shed = "Decode shed: "@ + num(c.decode_shed_total);
    assert(shed =~= list[11].subrange(0, shed.len() as int));
    let unmapped = "Unmapped SSRC: "@ + num(c.unmapped_ssrc_activity);
    assert(unmapped =~= list[12].subrange(0, unmapped.len() as int));
}

/// Each line that may call for attention ends with how much it does.
pub proof fn law_status_calls_for_attention(input: StatusInput)
    ensures
        ({
            let list = status_lines(input);
            let c = input.counters;
            let says = |i: int, alert: Alert| (" ["@ + alert.label() + "]"@).is_suffix_of(list[i]);
            let level = |bad: bool, fair: bool|
                if bad {
                    Alert::Critical
                } else if fair {
                    Alert::Warn
                } else {
                    Alert::Fine
                };
            &&& says(4, level(input.queue_depth > 8, input.queue_depth > 4))
            &&& says(
                8,
                failure_alert_of(c.decoded_audio_activity, c.decode_failure_activity),
            )
            &&& says(
                9,
                rtf_alert_of(c.decode_total_ms as int, c.decode_audio_total_ms as int),
            )
            &&& says(11, shed_alert_of(c.decode_shed_total as int, input.elapsed_nanos as int))
            &&& says(
                12,
                level(
                    false,
                    input.elapsed_nanos >= 31_000_000_000 && c.unmapped_ssrc_activity > 0,
                ),
            )
            &&& Alert::Fine.label() == "ok"@
            &&& Alert::Warn.label() == "warn"@
            &&& Alert::Critical.label() == "critical"@
        }),
{
    let list = status_lines(input);
    let c = input.counters;
    reveal_strlit("% [");
    reveal_strlit(" [");
    reveal_strlit("/min) [");
    let queue = " ["@ + (if input.queue_depth > 8 {
        Alert::Critical
    } else if input.queue_depth > 4 {
        Alert::Warn
    } else {
        Alert::Fine
    }).label() + "]"@;
    assert(queue =~= list[4].subrange(list[4].len() - queue.len(), list[4].len() as int));
    let failure = " ["@ + failure_alert_of(
        c.decoded_audio_activity,
        c.decode_failure_activity,
    ).label() + "]"@;
    assert(failure =~= list[8].subrange(list[8].len() - failure.len(), list[8].len() as int));
    let rtf = " ["@ + rtf_alert_of(
        c.decode_total_ms as int,
        c.decode_audio_total_ms as int,
    ).label() + "]"@;
    assert(rtf =~= list[9].subrange(list[9].len() - rtf.len(), list[9].len() as int));
    let shed = " ["@ + shed_alert_of(
        c.decode_shed_total as int,
        input.elapsed_nanos as int,
    ).label() + "]"@;
    assert(shed =~= list[11].subrange(list[11].len() - shed.len(), list[11].len() as int));
    let unmapped = " ["@ + (if whole_seconds(input.elapsed_nanos) > 30 && c.unmapped_ssrc_activity
        > 0 {
        Alert::Warn
    } else {
        Alert::Fine
    }).label() + "]"@;
    assert(unmapped =~= list[12].subrange(
        list[12].len() - unmapped.len(),
        list[12].len() as int,
    ));
}

/// The log holds the transcript whole where it has at most 1800 characters, and its last 1752 with
/// a word on that where it has more.
pub proof fn law_log_is_whole_or_recent(requested: usize, transcript: Seq<char>)
    ensures
        LOG_DEFAULT_UTTERANCES == 40,
        ({
            let heading = "Recent transcript (last "@ + text::decimal(requested as nat)
                + " utterances):\n"@;
            let log = log_text(requested, transcript);
            &&& transcript.len() <= 1_800 ==> log == heading + transcript
            &&& transcript.len() > 1_800 ==> log == heading + "(truncated to recent text)\n"@
                + transcript.subrange(transcript.len() - 1_752, transcript.len() as int)
        }),
{
    text::law_texts_are_cut_to_size(transcript, 1_752);
    let heading = "Recent transcript (last "@ + text::decimal(requested as nat)
        + " utterances):\n"@;
    if transcript.len() > 1_800 {
        assert(log_text(requested, transcript) =~= heading + "(truncated to recent text)\n"@
            + transcript.subrange(transcript.len() - 1_752, transcript.len() as int));
    }
}

/// A summary is passed on to the letter where it says anything; where it says nothing, or could not
/// be made, that is told.
pub proof fn law_summaries_are_passed_on(s: String)
    ensures
        text::trimmed(s@).len() > 0 ==> summary_result(AiReply::Text(s)) == Ok::<
            Seq<char>,
            Seq<char>,
        >(s@),
        text::trimmed(s@).len() == 0 ==> summary_result(AiReply::Text(s)) == Err::<
            Seq<char>,
            Seq<char>,
        >("ai error: provider returned no text"@),
        summary_result(AiReply::Error(s)) == Err::<Seq<char>, Seq<char>>("ai error: "@ + s@),
{
}

/// A command is called by its own name, and by no other.
pub proof fn law_names_call_one_command(name: Seq<char>)
    ensures
        command_named(name) == Some(SlashCommand::Join) <==> name == "join"@,
        command_named(name) == Some(SlashCommand::Leave) <==> name == "leave"@,
        command_named(name) == Some(SlashCommand::Status) <==> name == "status"@,
        command_named(name) == Some(SlashCommand::Log) <==> name == "log"@,
        command_named(name) == Some(SlashCommand::Ask) <==> name == "ask"@,
        command_named(name) == Some(SlashCommand::Summary) <==> name == "summary"@,
        command_named(name) == Some(SlashCommand::Autojoin) <==> name == "autojoin"@,
{
    reveal_strlit("join");
    reveal_strlit("leave");
    reveal_strlit("status");
    reveal_strlit("log");
    reveal_strlit("ask");
    reveal_strlit("summary");
    reveal_strlit("autojoin");
    assert("join"@.len() == 4);
    assert("leave"@.len() == 5);
    assert("status"@.len() == 6);
    assert("log"@.len() == 3);
    assert("ask"@.len() == 3);
    assert("summary"@.len() == 7);
    assert("autojoin"@.len() == 8);
    assert("log"@[0] != "ask"@[0]);
}

} // verus!
