//! The command line of the bot.
use vstd::prelude::*;

use crate::json;
use crate::json::Json;
use crate::lines;
use crate::text;

verus! {

broadcast use vstd::seq::group_seq_axioms;

/// What is shown to those who ask how the bot is called.
pub const USAGE: &'static str = "Usage: transcribe-bot [init|doctor|download <owner/repo>]";

/// What the bot is called for.
#[derive(Debug, PartialEq, Eq)]
pub enum Command {
    Run,
    Init,
    Doctor,
    Download { repo_id: String },
    Help,
}

/// What a `Command` says.
pub ghost enum CommandView {
    Run,
    Init,
    Doctor,
    Download(Seq<char>),
    Help,
}

impl View for Command {
    type V = CommandView;

    open spec fn view(&self) -> CommandView {
        match self {
            Command::Run => CommandView::Run,
            Command::Init => CommandView::Init,
            Command::Doctor => CommandView::Doctor,
            Command::Download { repo_id } => CommandView::Download(repo_id@),
            Command::Help => CommandView::Help,
        }
    }
}

/// Why the bot was not called properly.
#[derive(Debug)]
pub enum CliError {
    /// There is no such call.
    Usage,
    /// A repository of models is not named like one.
    RepoId,
}

impl CliError {
    /// The text of the error.
    pub open spec fn message_view(self) -> Seq<char> {
        match self {
            CliError::Usage => "usage: transcribe-bot [init|doctor|download <owner/repo>]"@,
            CliError::RepoId => "model repository must be in owner/repo form"@,
        }
    }

    /// What is told to the operator.
    pub fn message(&self) -> (r: String)
        ensures
            r@ == self.message_view(),
    {
        match self {
            CliError::Usage => {
                "usage: transcribe-bot [init|doctor|download <owner/repo>]".to_string()
            },
            CliError::RepoId => "model repository must be in owner/repo form".to_string(),
        }
    }
}

/// What a list of arguments calls for.
pub open spec fn command_of(arguments: Seq<Seq<char>>) -> Option<CommandView> {
    if arguments.len() == 0 {
        Some(CommandView::Run)
    } else if arguments.len() == 1 {
        if arguments[0] == "init"@ {
            Some(CommandView::Init)
        } else if arguments[0] == "doctor"@ {
            Some(CommandView::Doctor)
        } else if arguments[0] == "--help"@ || arguments[0] == "-h"@ || arguments[0] == "help"@ {
            Some(CommandView::Help)
        } else {
            None
        }
    } else if arguments.len() == 2 && arguments[0] == "download"@ {
        Some(CommandView::Download(arguments[1]))
    } else {
        None
    }
}

/// What the arguments, without the name of the program, call for.
pub fn parse_command(arguments: Vec<String>) -> (r: Result<Command, CliError>)
    ensures
        match command_of(text::texts(arguments@)) {
            Some(command) => r matches Ok(called) && called@ == command,
            None => r matches Err(CliError::Usage),
        },
{
    if arguments.len() == 0 {
        return Ok(Command::Run);
    }
    let first = arguments[0].as_str();
    if arguments.len() == 1 {
        if text::same(first, "init") {
            return Ok(Command::Init);
        }
        if text::same(first, "doctor") {
            return Ok(Command::Doctor);
        }
        if text::same(first, "--help") || text::same(first, "-h") || text::same(first, "help") {
            return Ok(Command::Help);
        }
        return Err(CliError::Usage);
    }
    if arguments.len() == 2 && text::same(first, "download") {
        return Ok(Command::Download { repo_id: arguments[1].clone() });
    }
    Err(CliError::Usage)
}

// ---------------------------------------------------------------------------
// Downloading models
// ---------------------------------------------------------------------------

/// Whether a character can stand in the name of a file everywhere.
pub open spec fn safe_char(c: char) -> bool {
    !(text::control_code(c) || c == '<' || c == '>' || c == ':' || c == '"' || c == '\\'
        || c == '|' || c == '?' || c == '*')
}

/// Whether a text can name a directory everywhere, and names none but its own.
pub open spec fn safe_component(component: Seq<char>) -> bool {
    &&& component.len() > 0
    &&& component != "."@
    &&& component != ".."@
    &&& forall|i: int| 0 <= i < component.len() ==> safe_char(#[trigger] component[i])
}

/// Whether a text can name a directory everywhere, and names none but its own.
pub fn is_safe_component(component: &str) -> (r: bool)
    ensures
        r == safe_component(component@),
{
    if text::is_empty(component) || text::same(component, ".") || text::same(component, "..") {
        return false;
    }
    let chars = text::chars_of(component);
    for i in 0..chars.len()
        invariant
            chars@ == component@,
            forall|k: int| 0 <= k < i ==> safe_char(#[trigger] component@[k]),
    {
        let c: char = chars[i];
        if text::is_control(c) || c == '<' || c == '>' || c == ':' || c == '"' || c == '\\'
            || c == '|' || c == '?' || c == '*' {
            assert(!safe_char(component@[i as int]));
            return false;
        }
    }
    true
}

/// Whether a text is an owner and a repository with a slash between them.
pub open spec fn valid_repo_id(repo_id: Seq<char>) -> bool {
    let parts = text::split(repo_id, '/');
    parts.len() == 2 && safe_component(parts[0]) && safe_component(parts[1])
}

/// The owner and the name of a repository.
pub fn parse_repo_id(repo_id: &str) -> (r: Result<(String, String), CliError>)
    ensures
        r is Ok <==> valid_repo_id(repo_id@),
        r matches Ok((owner, repository)) ==> text::split(repo_id@, '/') == seq![
            owner@,
            repository@,
        ],
        r matches Err(error) ==> error is RepoId,
{
    let parts = text::str_split(repo_id, '/');
    if parts.len() != 2 {
        return Err(CliError::RepoId);
    }
    assert(text::texts(parts@)[0] == parts@[0]@);
    assert(text::texts(parts@)[1] == parts@[1]@);
    if !is_safe_component(parts[0].as_str()) || !is_safe_component(parts[1].as_str()) {
        return Err(CliError::RepoId);
    }
    assert(text::texts(parts@) =~= seq![parts@[0]@, parts@[1]@]);
    Ok((parts[0].clone(), parts[1].clone()))
}

/// Where a repository is downloaded to: a directory below `models`. A path from the root stays as
/// it is.
pub open spec fn destination(repository: Seq<char>) -> Seq<char> {
    if text::starts_with(repository, "/"@) {
        repository
    } else {
        "models/"@ + repository
    }
}

/// Where a repository is downloaded to.
pub fn model_destination(repository: &str) -> (r: String)
    ensures
        r@ == destination(repository@),
{
    if text::str_starts_with(repository, "/") {
        repository.to_string()
    } else {
        let mut out = String::new();
        out.append("models/");
        out.append(repository);
        assert(out@ =~= "models/"@ + repository@);
        out
    }
}

/// Whether an answer lets the download go on. Only a plain no does not.
pub fn is_download_confirmation(answer: &str) -> (r: bool)
    ensures
        r == ({
            let said = text::ascii_lowercase(text::trimmed(answer@));
            said != "n"@ && said != "no"@
        }),
{
    let said = text::to_ascii_lowercase(text::trim(answer).as_str());
    !text::same(said.as_str(), "n") && !text::same(said.as_str(), "no")
}

/// A repository is downloaded into a directory of its own directly below `models`, whatever it is
/// called.
pub proof fn law_downloads_stay_below_models(repo_id: Seq<char>)
    requires
        valid_repo_id(repo_id),
    ensures
        ({
            let repository = text::split(repo_id, '/')[1];
            &&& text::split(destination(repository), '/') == seq!["models"@, repository]
            &&& repository != "."@
            &&& repository != ".."@
            &&& repository.len() > 0
        }),
{
    let repository = text::split(repo_id, '/')[1];
    lemma_parts_hold_no_separator(repo_id, '/');
    reveal_strlit("/");
    reveal_strlit("models");
    reveal_strlit("models/");
    if text::starts_with(repository, "/"@) {
        assert(repository.take(1)[0] == repository[0]);
        assert("/"@[0] == '/');
        assert(repository[0] == '/');
    }
    let tail = repository;
    assert("models/"@ + tail =~= "models"@ + seq!['/'] + tail);
    lines::lemma_split_concat("models"@, '/', tail);
    assert(!"models"@.contains('/'));
    lines::lemma_split_whole("models"@, '/');
    lines::lemma_split_whole(tail, '/');
    assert(text::split(destination(repository), '/') =~= seq!["models"@, repository]);
}

/// No part of a split text holds the separator.
proof fn lemma_parts_hold_no_separator(s: Seq<char>, separator: char)
    ensures
        forall|i: int|
            0 <= i < text::split(s, separator).len() ==> !(#[trigger] text::split(
                s,
                separator,
            )[i]).contains(separator),
    decreases s.len(),
{
    text::lemma_char_position(s, separator, 0);
    let at = text::char_position(s, separator, 0);
    let parts = text::split(s, separator);
    if at < s.len() {
        let rest = s.skip(at + 1);
        lemma_parts_hold_no_separator(rest, separator);
        assert forall|i: int| 0 <= i < parts.len() implies !(#[trigger] parts[i]).contains(
            separator,
        ) by {
            if i > 0 {
                assert(parts[i] == text::split(rest, separator)[i - 1]);
            }
        }
    }
}

// ---------------------------------------------------------------------------
// Checking the setup
// ---------------------------------------------------------------------------

/// Whether a list of installed models has one of this name.
pub open spec fn has_model(payload: json::JsonView, model: Seq<char>) -> bool {
    match json::items_of(json::field(payload, "models"@)) {
        Some(models) => exists|i: int|
            0 <= i < models.len() && json::text_of(json::field(#[trigger] models[i], "name"@))
                == Some(model),
        None => false,
    }
}

/// Whether Ollama has the configured model, from the list of those that it has.
pub fn ollama_model_is_available(payload: &Json, configured_model: &str) -> (r: bool)
    ensures
        r == has_model(payload@, configured_model@),
{
    match json::as_array(json::get(Some(payload), "models")) {
        None => false,
        Some(models) => {
            let ghost all = json::items_view(models@);
            for i in 0..models.len()
                invariant
                    all == json::items_view(models@),
                    json::items_of(json::field(payload@, "models"@)) == Some(all),
                    forall|k: int|
                        0 <= k < i ==> json::text_of(json::field(#[trigger] all[k], "name"@))
                            != Some(configured_model@),
            {
                assert(all[i as int] == models@[i as int]@);
                if let Some(name) = json::as_str(json::get(Some(&models[i]), "name")) {
                    if text::same(name, configured_model) {
                        return true;
                    }
                }
            }
            false
        },
    }
}

/// Where Ollama lists its models.
pub fn ollama_tags_url(base_url: &str) -> (r: String)
    ensures
        r@ == text::without_trailing(base_url@, '/') + "/api/tags"@,
{
    let mut out = text::trim_end_char(base_url, '/');
    out.append("/api/tags");
    out
}

/// Notes whether something that has to be there is: the line to show, and the label among the
/// failures where it is not.
pub fn check(condition: bool, label: &str, failures: &mut Vec<String>) -> (r: String)
    ensures
        r@ == if condition {
            "ok: "@ + label@
        } else {
            "error: missing "@ + label@
        },
        text::texts(final(failures)@) == if condition {
            text::texts(old(failures)@)
        } else {
            text::texts(old(failures)@).push(label@)
        },
{
    let mut out = String::new();
    if condition {
        out.append("ok: ");
    } else {
        out.append("error: missing ");
        text::push_text(failures, label);
    }
    let ghost before = out@;
    out.append(label);
    assert(out@ =~= before + label@);
    assert(out@ =~= if condition {
        "ok: "@ + label@
    } else {
        "error: missing "@ + label@
    });
    out
}

/// What the check of the setup ends with: nothing where nothing failed, else the failures.
pub fn doctor_verdict(failures: &[String]) -> (r: Option<String>)
    ensures
        text::opt_text(r) == if failures@.len() == 0 {
            None
        } else {
            Some("doctor found problems: "@ + text::joined(text::texts(failures@), ", "@))
        },
{
    if failures.len() == 0 {
        return None;
    }
    let mut out = String::new();
    out.append("doctor found problems: ");
    out.append(text::join(failures, ", ").as_str());
    assert(out@ =~= "doctor found problems: "@ + text::joined(text::texts(failures@), ", "@));
    Some(out)
}

/// The command line means one thing at most: each command is called by its own words, and any other
/// words are not understood.
pub proof fn law_commands_have_their_words(arguments: Seq<Seq<char>>, repo_id: Seq<char>)
    ensures
        command_of(arguments) == Some(CommandView::Run) <==> arguments.len() == 0,
        command_of(arguments) == Some(CommandView::Init) <==> arguments == seq!["init"@],
        command_of(arguments) == Some(CommandView::Doctor) <==> arguments == seq!["doctor"@],
        command_of(arguments) == Some(CommandView::Help) <==> arguments == seq!["--help"@]
            || arguments == seq!["-h"@] || arguments == seq!["help"@],
        command_of(arguments) == Some(CommandView::Download(repo_id)) <==> arguments == seq![
            "download"@,
            repo_id,
        ],
{
    reveal_strlit("init");
    reveal_strlit("doctor");
    reveal_strlit("--help");
    reveal_strlit("-h");
    reveal_strlit("help");
    reveal_strlit("download");
    assert("init"@.len() == 4 && "help"@.len() == 4);
    assert("init"@[0] != "help"@[0]);
    assert("doctor"@.len() == 6 && "--help"@.len() == 6 && "doctor"@[0] != "--help"@[0]);
    if arguments.len() == 1 {
        let word = arguments[0];
        assert(arguments =~= seq![word]);
        assert(seq!["init"@][0] == "init"@);
        assert(seq!["doctor"@][0] == "doctor"@);
        assert(seq!["--help"@][0] == "--help"@);
        assert(seq!["-h"@][0] == "-h"@);
        assert(seq!["help"@][0] == "help"@);
    }
    if arguments.len() == 2 {
        assert(arguments =~= seq![arguments[0], arguments[1]]);
        let words = seq!["download"@, repo_id];
        assert(words[0] == "download"@ && words[1] == repo_id);
    }
}

/// A part of a repository's name is any text that is not empty, not one or two dots, and without
/// control codes and the signs that paths give a meaning to.
pub proof fn law_names_of_files_are_plain(component: Seq<char>)
    ensures
        safe_component(component) <==> {
            &&& component.len() > 0
            &&& component != seq!['.']
            &&& component != seq!['.', '.']
            &&& forall|i: int|
                0 <= i < component.len() ==> {
                    let c = #[trigger] component[i];
                    &&& c as int >= 32
                    &&& !(127 <= c as int <= 159)
                    &&& c != '<' && c != '>' && c != ':' && c != '"' && c != '\\' && c != '|' && c
                        != '?' && c != '*'
                }
        },
{
    reveal_strlit(".");
    reveal_strlit("..");
    assert("."@ =~= seq!['.']);
    assert(".."@ =~= seq!['.', '.']);
    if safe_component(component) {
        assert forall|i: int| 0 <= i < component.len() implies {
            let c = #[trigger] component[i];
            &&& c as int >= 32
            &&& !(127 <= c as int <= 159)
            &&& c != '<' && c != '>' && c != ':' && c != '"' && c != '\\' && c != '|' && c != '?'
                && c != '*'
        } by {
            assert(safe_char(component[i]));
        }
    } else if component.len() > 0 && component != "."@ && component != ".."@ {
        let i = choose|i: int| 0 <= i < component.len() && !safe_char(#[trigger] component[i]);
        assert(!safe_char(component[i]));
    }
}

/// A repository is called by its owner and its name, a slash between them: by two such parts, and by
/// no more.
pub proof fn law_repositories_have_two_parts(
    owner: Seq<char>,
    repository: Seq<char>,
    repo_id: Seq<char>,
)
    requires
        !owner.contains('/'),
        !repository.contains('/'),
    ensures
        valid_repo_id(owner + seq!['/'] + repository) <==> safe_component(owner) && safe_component(
            repository,
        ),
        text::split(owner + seq!['/'] + repository, '/') == seq![owner, repository],
        valid_repo_id(repo_id) ==> repo_id.contains('/'),
{
    lines::lemma_split_concat(owner, '/', repository);
    assert forall|i: int| 0 <= i < owner.len() implies #[trigger] owner[i] != '/' by {
        assert(owner.contains(owner[i]));
    }
    assert forall|i: int| 0 <= i < repository.len() implies #[trigger] repository[i] != '/' by {
        assert(repository.contains(repository[i]));
    }
    lines::lemma_split_whole(owner, '/');
    lines::lemma_split_whole(repository, '/');
    assert(seq![owner] + seq![repository] =~= seq![owner, repository]);
    if !repo_id.contains('/') {
        assert forall|i: int| 0 <= i < repo_id.len() implies #[trigger] repo_id[i] != '/' by {
            assert(repo_id.contains(repo_id[i]));
        }
        lines::lemma_split_whole(repo_id, '/');
    }
}

/// A model is there exactly where one of the models of the list has its name.
pub proof fn law_models_are_found_by_name(payload: json::JsonView, model: Seq<char>, i: int)
    ensures
        ({
            let models = json::field(payload, "models"@);
            &&& !(models is Array) ==> !has_model(payload, model)
            &&& models is Array && 0 <= i < models->Array_0.len() && json::field(
                models->Array_0[i],
                "name"@,
            ) == json::JsonView::Text(model) ==> has_model(payload, model)
            &&& has_model(payload, model) ==> exists|k: int|
                0 <= k < models->Array_0.len() && json::field(
                    #[trigger] models->Array_0[k],
                    "name"@,
                ) == json::JsonView::Text(model)
        }),
{
    let models = json::field(payload, "models"@);
    if models is Array {
        let list = models->Array_0;
        if 0 <= i < list.len() && json::field(list[i], "name"@) == json::JsonView::Text(model) {
            assert(json::text_of(json::field(list[i], "name"@)) == Some(model));
        }
        if has_model(payload, model) {
            let k = choose|k: int|
                0 <= k < list.len() && json::text_of(json::field(#[trigger] list[k], "name"@))
                    == Some(model);
            assert(json::field(list[k], "name"@) == json::JsonView::Text(model));
        }
    }
}

/// A command is told as it is.
pub proof fn law_commands_are_told_as_they_are(repo_id: String)
    ensures
        Command::Run@ == CommandView::Run,
        Command::Init@ == CommandView::Init,
        Command::Doctor@ == CommandView::Doctor,
        Command::Help@ == CommandView::Help,
        (Command::Download { repo_id })@ == CommandView::Download(repo_id@),
        CliError::Usage.message_view()
            == "usage: transcribe-bot [init|doctor|download <owner/repo>]"@,
        CliError::RepoId.message_view() == "model repository must be in owner/repo form"@,
{
}

} // verus!
