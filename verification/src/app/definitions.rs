//! The commands as they are offered to users.
use vstd::prelude::*;

use crate::app::commands;
use crate::app::commands::SlashCommand;

verus! {

broadcast use vstd::seq::group_seq_axioms;

/// What a member has to be allowed to do to use a command, unless a server says otherwise.
#[derive(Clone, Copy, Debug, PartialEq, Eq, Structural)]
pub enum Permission {
    MoveMembers,
    ManageChannels,
}

/// What the value of an option is.
#[derive(Clone, Copy, Debug, PartialEq, Eq, Structural)]
pub enum OptionKind {
    Text,
    Integer,
    Channel,
    Boolean,
}

/// An option of a command.
pub struct OptionDefinition {
    pub name: &'static str,
    pub description: &'static str,
    pub kind: OptionKind,
    /// The command is not accepted without it.
    pub required: bool,
    /// Values are offered while it is typed.
    pub autocomplete: bool,
}

/// What an `OptionDefinition` holds.
pub ghost struct OptionView {
    pub name: Seq<char>,
    pub description: Seq<char>,
    pub kind: OptionKind,
    pub required: bool,
    pub autocomplete: bool,
}

impl View for OptionDefinition {
    type V = OptionView;

    open spec fn view(&self) -> OptionView {
        OptionView {
            name: self.name@,
            description: self.description@,
            kind: self.kind,
            required: self.required,
            autocomplete: self.autocomplete,
        }
    }
}

/// A command: what it is called, what is said of it, who may use it, and its options.
pub struct CommandDefinition {
    pub name: &'static str,
    pub description: &'static str,
    pub permission: Option<Permission>,
    pub options: Vec<OptionDefinition>,
}

/// What a `CommandDefinition` holds.
#[verifier::ext_equal]
pub ghost struct DefinitionView {
    pub name: Seq<char>,
    pub description: Seq<char>,
    pub permission: Option<Permission>,
    pub options: Seq<OptionView>,
}

impl View for CommandDefinition {
    type V = DefinitionView;

    open spec fn view(&self) -> DefinitionView {
        DefinitionView {
            name: self.name@,
            description: self.description@,
            permission: self.permission,
            options: self.options@.map_values(|option: OptionDefinition| option@),
        }
    }
}

/// What is offered of a command.
pub open spec fn defined(command: SlashCommand) -> DefinitionView {
    match command {
        SlashCommand::Join => DefinitionView {
            name: "join"@,
            description: "Join your current voice channel in this guild"@,
            permission: Some(Permission::MoveMembers),
            options: Seq::empty(),
        },
        SlashCommand::Leave => DefinitionView {
            name: "leave"@,
            description: "Leave voice and finalize transcript export"@,
            permission: Some(Permission::MoveMembers),
            options: Seq::empty(),
        },
        SlashCommand::Status => DefinitionView {
            name: "status"@,
            description: "Show live transcription status for this guild"@,
            permission: None,
            options: Seq::empty(),
        },
        SlashCommand::Log => DefinitionView {
            name: "log"@,
            description: "Show recent committed transcript lines for the active call"@,
            permission: None,
            options: seq![
                OptionView {
                    name: "utterances"@,
                    description: "How many recent utterances to include (default: 40)"@,
                    kind: OptionKind::Integer,
                    required: false,
                    autocomplete: false,
                },
            ],
        },
        SlashCommand::Ask => DefinitionView {
            name: "ask"@,
            description: "Ask about the current call transcript"@,
            permission: None,
            options: seq![
                OptionView {
                    name: "question"@,
                    description: "Question to ask"@,
                    kind: OptionKind::Text,
                    required: true,
                    autocomplete: true,
                },
            ],
        },
        SlashCommand::Summary => DefinitionView {
            name: "summary"@,
            description: "Summarize the current call transcript"@,
            permission: None,
            options: Seq::empty(),
        },
        SlashCommand::Autojoin => DefinitionView {
            name: "autojoin"@,
            description: "Mark your current voice channel for automatic future joins"@,
            permission: Some(Permission::ManageChannels),
            options: seq![
                OptionView {
                    name: "channel"@,
                    description: "Voice channel to mark (defaults to your current voice channel)"@,
                    kind: OptionKind::Channel,
                    required: false,
                    autocomplete: false,
                },
                OptionView {
                    name: "enabled"@,
                    description: "Set true to enable, false to disable (omit to toggle)"@,
                    kind: OptionKind::Boolean,
                    required: false,
                    autocomplete: false,
                },
            ],
        },
    }
}

/// What is offered of a command.
pub fn command_definition(command: SlashCommand) -> (r: CommandDefinition)
    ensures
        r@ == defined(command),
{
    let mut options: Vec<OptionDefinition> = Vec::new();
    let r = match command {
        SlashCommand::Join => {
            CommandDefinition {
                name: "join",
                description: "Join your current voice channel in this guild",
                permission: Some(Permission::MoveMembers),
                options,
            }
        },
        SlashCommand::Leave => {
            CommandDefinition {
                name: "leave",
                description: "Leave voice and finalize transcript export",
                permission: Some(Permission::MoveMembers),
                options,
            }
        },
        SlashCommand::Status => {
            CommandDefinition {
                name: "status",
                description: "Show live transcription status for this guild",
                permission: None,
                options,
            }
        },
        SlashCommand::Log => {
            options.push(
                OptionDefinition {
                    name: "utterances",
                    description: "How many recent utterances to include (default: 40)",
                    kind: OptionKind::Integer,
                    required: false,
                    autocomplete: false,
                },
            );
            CommandDefinition {
                name: "log",
                description: "Show recent committed transcript lines for the active call",
                permission: None,
                options,
            }
        },
        SlashCommand::Ask => {
            options.push(
                OptionDefinition {
                    name: "question",
                    description: "Question to ask",
                    kind: OptionKind::Text,
                    required: true,
                    autocomplete: true,
                },
            );
            CommandDefinition {
                name: "ask",
                description: "Ask about the current call transcript",
                permission: None,
                options,
            }
        },
        SlashCommand::Summary => {
            CommandDefinition {
                name: "summary",
                description: "Summarize the current call transcript",
                permission: None,
                options,
            }
        },
        SlashCommand::Autojoin => {
            options.push(
                OptionDefinition {
                    name: "channel",
                    description: "Voice channel to mark (defaults to your current voice channel)",
                    kind: OptionKind::Channel,
                    required: false,
                    autocomplete: false,
                },
            );
            options.push(
                OptionDefinition {
                    name: "enabled",
                    description: "Set true to enable, false to disable (omit to toggle)",
                    kind: OptionKind::Boolean,
                    required: false,
                    autocomplete: false,
                },
            );
            CommandDefinition {
                name: "autojoin",
                description: "Mark your current voice channel for automatic future joins",
                permission: Some(Permission::ManageChannels),
                options,
            }
        },
    };
    assert(r@.options =~= defined(command).options);
    r
}

/// The commands, in the order in which they are offered.
pub open spec fn offered() -> Seq<SlashCommand> {
    seq![
        SlashCommand::Join,
        SlashCommand::Leave,
        SlashCommand::Status,
        SlashCommand::Log,
        SlashCommand::Ask,
        SlashCommand::Summary,
        SlashCommand::Autojoin,
    ]
}

/// All commands as they are offered.
pub fn command_table() -> (r: Vec<CommandDefinition>)
    ensures
        r@.map_values(|definition: CommandDefinition| definition@) == offered().map_values(
            |command: SlashCommand| defined(command),
        ),
{
    let mut table: Vec<CommandDefinition> = Vec::new();
    table.push(command_definition(SlashCommand::Join));
    table.push(command_definition(SlashCommand::Leave));
    table.push(command_definition(SlashCommand::Status));
    table.push(command_definition(SlashCommand::Log));
    table.push(command_definition(SlashCommand::Ask));
    table.push(command_definition(SlashCommand::Summary));
    table.push(command_definition(SlashCommand::Autojoin));
    assert(table@.map_values(|definition: CommandDefinition| definition@)
        =~= offered().map_values(|command: SlashCommand| defined(command)));
    table
}

/// Every command is offered, and is recognized by the name under which it is.
pub proof fn law_offered_commands_are_recognized(command: SlashCommand)
    ensures
        offered().contains(command),
        commands::command_named(defined(command).name) == Some(command),
{
    reveal_strlit("join");
    reveal_strlit("leave");
    reveal_strlit("status");
    reveal_strlit("log");
    reveal_strlit("ask");
    reveal_strlit("summary");
    reveal_strlit("autojoin");
    let all = offered();
    assert(all[0] == SlashCommand::Join);
    assert(all[1] == SlashCommand::Leave);
    assert(all[2] == SlashCommand::Status);
    assert(all[3] == SlashCommand::Log);
    assert(all[4] == SlashCommand::Ask);
    assert(all[5] == SlashCommand::Summary);
    assert(all[6] == SlashCommand::Autojoin);
    assert("join"@.len() == 4 && "leave"@.len() == 5 && "status"@.len() == 6);
    assert("summary"@.len() == 7 && "autojoin"@.len() == 8);
    assert("log"@.len() == 3 && "ask"@.len() == 3 && "log"@[0] != "ask"@[0]);
}

/// Starting and ending a call is for those who may move members, marking a channel for those who may
/// manage channels, and the rest for everybody. Only a question has to be given.
pub proof fn law_commands_ask_for_their_permissions(command: SlashCommand, i: int)
    ensures
        defined(command).permission == Some(Permission::MoveMembers) <==> command is Join
            || command is Leave,
        defined(command).permission == Some(Permission::ManageChannels) <==> command is Autojoin,
        defined(command).options.len() == (match command {
            SlashCommand::Log => 1nat,
            SlashCommand::Ask => 1,
            SlashCommand::Autojoin => 2,
            _ => 0,
        }),
        0 <= i < defined(command).options.len() ==> {
            let option = defined(command).options[i];
            &&& option.required <==> command is Ask
            &&& option.autocomplete <==> command is Ask
            &&& command is Ask ==> option.name == "question"@ && option.kind is Text
            &&& command is Log ==> option.name == "utterances"@ && option.kind is Integer
            &&& command is Autojoin && i == 0 ==> option.name == "channel"@ && option.kind is Channel
            &&& command is Autojoin && i == 1 ==> option.name == "enabled"@ && option.kind is Boolean
        },
        offered().len() == 7,
        forall|p: int, q: int| 0 <= p < q < 7 ==> #[trigger] offered()[p] != #[trigger] offered()[q],
{
}

} // verus!
