//! Voice channels that are joined as soon as somebody enters them.
use vstd::prelude::*;

use crate::lines;
use crate::text;

verus! {

broadcast use vstd::seq::group_seq_axioms;

/// The most characters that the name of a channel may have.
pub const CHANNEL_NAME_MAX_CHARS: usize = 100;

// ---------------------------------------------------------------------------
// The mark in a channel's name
// ---------------------------------------------------------------------------

/// The mark, with a space before it. A blank one is the standard mark.
pub open spec fn suffix_of(suffix: Seq<char>) -> Seq<char> {
    if text::trimmed(suffix).len() == 0 {
        " [Transcribe]"@
    } else {
        " "@ + text::trimmed(suffix)
    }
}

/// The mark, with a space before it.
pub fn normalized_autojoin_suffix(suffix: &str) -> (r: String)
    ensures
        r@ == suffix_of(suffix@),
        r@.len() > 0,
{
    let trimmed = text::trim(suffix);
    proof {
        reveal_strlit(" [Transcribe]");
        reveal_strlit(" ");
    }
    if text::chars_of(trimmed.as_str()).len() == 0 {
        return " [Transcribe]".to_string();
    }
    let mut out = String::new();
    out.append(" ");
    out.append(trimmed.as_str());
    assert(out@ =~= " "@ + trimmed@);
    out
}

/// A mark that was brought into its form stays as it is.
pub proof fn law_mark_is_settled(suffix: Seq<char>)
    ensures
        suffix_of(suffix_of(suffix)) == suffix_of(suffix),
{
    reveal_strlit(" [Transcribe]");
    reveal_strlit(" ");
    let mark = suffix_of(suffix);
    let inner = mark.drop_first();
    lines::lemma_trimmed_ends(suffix);
    if text::trimmed(suffix).len() == 0 {
        assert(inner[0] == '[' && inner.last() == ']');
    } else {
        assert(inner =~= text::trimmed(suffix));
    }
    assert(mark =~= " "@ + inner);
    assert(text::trim_start(inner) == inner);
    assert(text::trim_end(inner) == inner);
    assert(text::trimmed(mark) == inner);
}

/// The name without the mark, where it ends with it.
pub fn strip_known_autojoin_suffix(name: &str, suffix: &str) -> (r: Option<String>)
    ensures
        match r {
            Some(base) => text::ends_with(name@, suffix@) && base@ + suffix@ == name@,
            None => !text::ends_with(name@, suffix@),
        },
{
    text::strip_suffix(name, suffix)
}

// ---------------------------------------------------------------------------
// Marking a channel
// ---------------------------------------------------------------------------

/// What a channel is for.
#[derive(Clone, Copy, Debug, PartialEq, Eq, Structural)]
pub enum ChannelKind {
    Text,
    Voice,
    Stage,
    Other,
}

/// Why a channel cannot be marked, or its mark not be removed.
#[derive(Clone, Copy, Debug, PartialEq, Eq, Structural)]
pub enum AutojoinError {
    NotAVoiceChannel,
    NameTooLong,
    NameWouldBeEmpty,
}

impl AutojoinError {
    /// What is said about it.
    pub open spec fn text(self) -> Seq<char> {
        match self {
            AutojoinError::NotAVoiceChannel => {
                "autojoin can only be set on voice or stage channels"@
            },
            AutojoinError::NameTooLong => {
                "cannot enable autojoin because channel name would exceed Discord's 100-character limit"@
            },
            AutojoinError::NameWouldBeEmpty => {
                "cannot remove the autojoin suffix because it would leave an empty channel name"@
            },
        }
    }

    /// What is said about it.
    pub fn message(self) -> (r: &'static str)
        ensures
            r@ == self.text(),
    {
        match self {
            AutojoinError::NotAVoiceChannel => {
                "autojoin can only be set on voice or stage channels"
            },
            AutojoinError::NameTooLong => {
                "cannot enable autojoin because channel name would exceed Discord's 100-character limit"
            },
            AutojoinError::NameWouldBeEmpty => {
                "cannot remove the autojoin suffix because it would leave an empty channel name"
            },
        }
    }
}

/// Whether a channel is to be marked, and the name that it is to have.
pub struct AutojoinPlan {
    pub enable: bool,
    pub new_name: String,
}

/// Whether the channel is to be marked: as asked for, or the other way round than it is.
pub open spec fn wants_mark(name: Seq<char>, mark: Seq<char>, enabled: Option<bool>) -> bool {
    match enabled {
        Some(enabled) => enabled,
        None => !text::ends_with(name, mark),
    }
}

/// The name of the channel, marked or not.
pub open spec fn marked_name(name: Seq<char>, mark: Seq<char>, enable: bool) -> Seq<char> {
    let is_marked = text::ends_with(name, mark);
    if enable && !is_marked {
        name + mark
    } else if !enable && is_marked {
        name.take(name.len() - mark.len())
    } else {
        name
    }
}

/// The plan for a channel, or why there is none.
pub open spec fn plan_of(
    kind: ChannelKind,
    name: Seq<char>,
    mark: Seq<char>,
    enabled: Option<bool>,
) -> Result<(bool, Seq<char>), AutojoinError> {
    let enable = wants_mark(name, mark, enabled);
    let new_name = marked_name(name, mark, enable);
    if kind != ChannelKind::Voice && kind != ChannelKind::Stage {
        Err(AutojoinError::NotAVoiceChannel)
    } else if enable && new_name != name && new_name.len() > CHANNEL_NAME_MAX_CHARS {
        Err(AutojoinError::NameTooLong)
    } else if text::trimmed(new_name).len() == 0 {
        Err(AutojoinError::NameWouldBeEmpty)
    } else {
        Ok((enable, new_name))
    }
}

/// Decides how a channel is marked, or its mark removed. `suffix` is the mark as configured.
pub fn plan_autojoin(
    kind: ChannelKind,
    old_name: &str,
    suffix: &str,
    enabled: Option<bool>,
) -> (r: Result<AutojoinPlan, AutojoinError>)
    ensures
        match r {
            Ok(plan) => plan_of(kind, old_name@, suffix_of(suffix@), enabled) == Ok::<
                (bool, Seq<char>),
                AutojoinError,
            >((plan.enable, plan.new_name@)),
            Err(error) => plan_of(kind, old_name@, suffix_of(suffix@), enabled) == Err::<
                (bool, Seq<char>),
                AutojoinError,
            >(error),
        },
{
    if kind != ChannelKind::Voice && kind != ChannelKind::Stage {
        return Err(AutojoinError::NotAVoiceChannel);
    }
    let mark = normalized_autojoin_suffix(suffix);
    let stripped = strip_known_autojoin_suffix(old_name, mark.as_str());
    let is_marked = stripped.is_some();
    let enable = match enabled {
        Some(enabled) => enabled,
        None => !is_marked,
    };
    let new_name: String = if enable && !is_marked {
        let mut candidate = old_name.to_string();
        candidate.append(mark.as_str());
        assert(candidate@ =~= old_name@ + mark@);
        assert(candidate@.len() != old_name@.len());
        if text::chars_of(candidate.as_str()).len() > CHANNEL_NAME_MAX_CHARS {
            return Err(AutojoinError::NameTooLong);
        }
        candidate
    } else {
        match stripped {
            Some(base) => if enable {
                old_name.to_string()
            } else {
                assert(base@ =~= old_name@.take(old_name@.len() - mark@.len())) by {
                    assert((base@ + mark@).take(base@.len() as int) =~= base@);
                }
                base
            },
            None => old_name.to_string(),
        }
    };
    let visible = text::trim(new_name.as_str());
    if text::chars_of(visible.as_str()).len() == 0 {
        return Err(AutojoinError::NameWouldBeEmpty);
    }
    Ok(AutojoinPlan { enable, new_name })
}

/// Marking a channel and removing the mark gives the name back, and so does asking for either when
/// it is already so.
pub proof fn law_marking_is_undone(name: Seq<char>, mark: Seq<char>)
    ensures
        !text::ends_with(name, mark) ==> marked_name(
            marked_name(name, mark, true),
            mark,
            false,
        ) == name,
        text::ends_with(name, mark) ==> marked_name(
            marked_name(name, mark, false),
            mark,
            true,
        ) == name || text::ends_with(marked_name(name, mark, false), mark),
        marked_name(marked_name(name, mark, true), mark, true) == marked_name(name, mark, true),
        text::ends_with(marked_name(name, mark, true), mark),
{
    let both = name + mark;
    assert(both.subrange(name.len() as int, both.len() as int) =~= mark);
    assert(both.take(name.len() as int) =~= name);
    if text::ends_with(name, mark) {
        assert(name.take(name.len() - mark.len()) + mark =~= name);
    }
}

/// Toggling twice gives the name back, for a name that carries the mark once at most.
pub proof fn law_toggling_twice_restores(name: Seq<char>, mark: Seq<char>)
    requires
        text::ends_with(name, mark) ==> !text::ends_with(
            name.take(name.len() - mark.len()),
            mark,
        ),
    ensures
        ({
            let once = marked_name(name, mark, wants_mark(name, mark, None));
            marked_name(once, mark, wants_mark(once, mark, None)) == name
        }),
{
    law_marking_is_undone(name, mark);
}

/// What is said once a channel is marked or its mark removed.
pub open spec fn autojoin_reply_text(enable: bool, channel: u64) -> Seq<char> {
    if enable {
        "Autojoin enabled for <#"@ + text::decimal(channel as nat)
            + ">. The bot will auto-start when a non-bot user joins that channel."@
    } else {
        "Autojoin disabled for <#"@ + text::decimal(channel as nat) + ">."@
    }
}

/// What is said once a channel is marked or its mark removed.
pub fn autojoin_reply(enable: bool, channel: u64) -> (r: String)
    ensures
        r@ == autojoin_reply_text(enable, channel),
{
    let mut out = String::new();
    if enable {
        out.append("Autojoin enabled for <#");
        text::push_decimal(&mut out, channel);
        out.append(">. The bot will auto-start when a non-bot user joins that channel.");
    } else {
        out.append("Autojoin disabled for <#");
        text::push_decimal(&mut out, channel);
        out.append(">.");
    }
    assert(out@ =~= autojoin_reply_text(enable, channel));
    out
}

// ---------------------------------------------------------------------------
// Joining
// ---------------------------------------------------------------------------

/// A change of a user's voice state, as far as joining depends on it.
pub struct VoiceMove {
    /// A session already runs in the guild.
    pub session_active: bool,
    /// The user is a bot, this one or another.
    pub user_is_bot: bool,
    /// Where the user was.
    pub old_channel: Option<u64>,
    /// Where the user is.
    pub new_channel: Option<u64>,
}

/// The channel that is to be joined: one that a user who is no bot has just entered while no
/// session runs, that is for voice and that carries the mark.
pub open spec fn join_target(
    change: VoiceMove,
    kind: ChannelKind,
    name: Seq<char>,
    mark: Seq<char>,
) -> Option<u64> {
    if !change.session_active && !change.user_is_bot && change.old_channel != change.new_channel && (
    kind == ChannelKind::Voice || kind == ChannelKind::Stage) && text::ends_with(name, mark) {
        change.new_channel
    } else {
        None
    }
}

/// The channel that is to be joined. `kind` and `name` are those of the channel that the user
/// entered, `suffix` is the mark as configured.
pub fn autojoin_target(change: &VoiceMove, kind: ChannelKind, name: &str, suffix: &str) -> (r:
    Option<u64>)
    ensures
        r == join_target(*change, kind, name@, suffix_of(suffix@)),
{
    if change.session_active {
        return None;
    }
    match change.new_channel {
        None => None,
        Some(channel) => {
            let stayed = match change.old_channel {
                Some(before) => before == channel,
                None => false,
            };
            if stayed || change.user_is_bot {
                return None;
            }
            if kind != ChannelKind::Voice && kind != ChannelKind::Stage {
                return None;
            }
            let mark = normalized_autojoin_suffix(suffix);
            if !text::str_ends_with(name, mark.as_str()) {
                return None;
            }
            Some(channel)
        },
    }
}

/// What is said once a marked channel was joined.
pub open spec fn autojoined_text(channel: u64, mark: Seq<char>) -> Seq<char> {
    "Autojoined <#"@ + text::decimal(channel as nat) + "> because the channel is marked with "@
        + mark + "."@
}

/// What is said once a marked channel was joined.
pub fn autojoined_message(channel: u64, suffix: &str) -> (r: String)
    ensures
        r@ == autojoined_text(channel, suffix_of(suffix@)),
{
    let mark = normalized_autojoin_suffix(suffix);
    let mut out = String::new();
    out.append("Autojoined <#");
    text::push_decimal(&mut out, channel);
    out.append("> because the channel is marked with ");
    out.append(mark.as_str());
    out.append(".");
    assert(out@ =~= autojoined_text(channel, suffix_of(suffix@)));
    out
}

// ---------------------------------------------------------------------------
// The text channel of a session
// ---------------------------------------------------------------------------

/// A channel of a guild: its number, what it is for, its category, and its place in the list.
#[derive(Clone, Copy)]
pub struct ChannelSummary {
    pub id: u64,
    pub kind: ChannelKind,
    pub parent_id: Option<u64>,
    pub position: u16,
}

/// `a` stands above `b` in the list of channels.
pub open spec fn stands_above(a: ChannelSummary, b: ChannelSummary) -> bool {
    a.position < b.position || (a.position == b.position && a.id < b.id)
}

/// The channel is for text, and in the given category where one is given.
pub open spec fn text_channel_in(channel: ChannelSummary, category: Option<u64>) -> bool {
    channel.kind == ChannelKind::Text && (category is Some ==> channel.parent_id == category)
}

/// The topmost text channel, of the given category where one is given.
pub open spec fn topmost(channels: Seq<ChannelSummary>, category: Option<u64>) -> Option<
    ChannelSummary,
>
    decreases channels.len(),
{
    if channels.len() == 0 {
        None
    } else {
        let earlier = topmost(channels.drop_last(), category);
        let channel = channels.last();
        if !text_channel_in(channel, category) {
            earlier
        } else {
            match earlier {
                Some(best) => if stands_above(channel, best) {
                    Some(channel)
                } else {
                    earlier
                },
                None => Some(channel),
            }
        }
    }
}

/// The category of a channel, where it is known and has one.
pub open spec fn category_of(channels: Seq<ChannelSummary>, id: u64) -> Option<u64>
    decreases channels.len(),
{
    if channels.len() == 0 {
        None
    } else if channels[0].id == id {
        channels[0].parent_id
    } else {
        category_of(channels.drop_first(), id)
    }
}

/// The text channel for a voice channel: the topmost of the same category, or the guild's system
/// channel, or the topmost of all.
pub open spec fn text_channel_for(
    channels: Seq<ChannelSummary>,
    voice_channel: u64,
    system_channel: Option<u64>,
) -> Option<u64> {
    let category = category_of(channels, voice_channel);
    let beside = if category is Some {
        topmost(channels, category)
    } else {
        None
    };
    match beside {
        Some(channel) => Some(channel.id),
        None => match system_channel {
            Some(id) => Some(id),
            None => match topmost(channels, None) {
                Some(channel) => Some(channel.id),
                None => None,
            },
        },
    }
}

fn topmost_text_channel(channels: &[ChannelSummary], category: Option<u64>) -> (r: Option<
    ChannelSummary,
>)
    ensures
        r == topmost(channels@, category),
{
    let mut best: Option<ChannelSummary> = None;
    assert(channels@.take(0) =~= Seq::<ChannelSummary>::empty());
    for i in 0..channels.len()
        invariant
            best == topmost(channels@.take(i as int), category),
    {
        let channel = channels[i];
        assert(channels@.take(i + 1).drop_last() =~= channels@.take(i as int));
        let beside = match category {
            Some(wanted) => match channel.parent_id {
                Some(parent) => parent == wanted,
                None => false,
            },
            None => true,
        };
        if channel.kind == ChannelKind::Text && beside {
            let better = match best {
                Some(found) => channel.position < found.position || (channel.position
                    == found.position && channel.id < found.id),
                None => true,
            };
            if better {
                best = Some(channel);
            }
        }
    }
    assert(channels@.take(channels@.len() as int) =~= channels@);
    best
}

fn find_category(channels: &[ChannelSummary], id: u64) -> (r: Option<u64>)
    ensures
        r == category_of(channels@, id),
{
    assert(channels@.skip(0) =~= channels@);
    for i in 0..channels.len()
        invariant
            category_of(channels@, id) == category_of(channels@.skip(i as int), id),
    {
        if channels[i].id == id {
            return channels[i].parent_id;
        }
        assert(channels@.skip(i as int).drop_first() =~= channels@.skip(i + 1));
    }
    None
}

/// The text channel for a voice channel.
pub fn pick_autojoin_text_channel_from_channels(
    channels: &[ChannelSummary],
    voice_channel_id: u64,
    system_channel_id: Option<u64>,
) -> (r: Option<u64>)
    ensures
        r == text_channel_for(channels@, voice_channel_id, system_channel_id),
{
    let category = find_category(channels, voice_channel_id);
    if category.is_some() {
        if let Some(channel) = topmost_text_channel(channels, category) {
            return Some(channel.id);
        }
    }
    if let Some(id) = system_channel_id {
        return Some(id);
    }
    match topmost_text_channel(channels, None) {
        Some(channel) => Some(channel.id),
        None => None,
    }
}

/// The mark is the suffix that was set, without white space round it and one blank in front; and a
/// mark of its own where nothing was set.
pub proof fn law_mark_follows_a_blank(suffix: Seq<char>)
    ensures
        suffix_of(suffix)[0] == ' ',
        text::trimmed(suffix).len() > 0 ==> suffix_of(suffix).skip(1) == text::trimmed(suffix),
        text::trimmed(suffix).len() == 0 ==> suffix_of(suffix) == " [Transcribe]"@,
{
    reveal_strlit(" ");
    reveal_strlit(" [Transcribe]");
    if text::trimmed(suffix).len() > 0 {
        assert(suffix_of(suffix).skip(1) =~= text::trimmed(suffix));
    }
}

/// A name is marked that ends with the mark.
pub open spec fn carries(name: Seq<char>, mark: Seq<char>) -> bool {
    mark.len() <= name.len() && name.subrange(name.len() - mark.len(), name.len() as int) == mark
}

/// Marking a name makes it end with the mark, unmarking takes the mark off, and neither changes a
/// name that is as asked. Where nothing is asked, it is turned over.
pub proof fn law_names_are_marked_as_asked(
    name: Seq<char>,
    mark: Seq<char>,
    enabled: Option<bool>,
)
    ensures
        wants_mark(name, mark, enabled) <==> enabled == Some(true) || (enabled is None && !carries(
            name,
            mark,
        )),
        carries(name, mark) ==> {
            &&& marked_name(name, mark, true) == name
            &&& marked_name(name, mark, false) + mark == name
        },
        !carries(name, mark) ==> {
            &&& marked_name(name, mark, true) == name + mark
            &&& marked_name(name, mark, false) == name
        },
{
    if carries(name, mark) {
        let cut = name.take(name.len() - mark.len());
        assert(text::occurs_at(name, mark, name.len() - mark.len()));
        assert(cut + name.subrange(name.len() - mark.len(), name.len() as int) =~= name);
    }
}

/// Marking is refused for what is no voice channel, for a name that would grow beyond 100
/// characters, and for a name that would hold nothing; and done otherwise, as asked.
pub proof fn law_marking_is_refused_for_a_reason(
    kind: ChannelKind,
    name: Seq<char>,
    mark: Seq<char>,
    enabled: Option<bool>,
)
    ensures
        ({
            let enable = wants_mark(name, mark, enabled);
            let new_name = marked_name(name, mark, enable);
            let voice = kind is Voice || kind is Stage;
            let grows = enable && new_name.len() > name.len() && new_name.len() > 100;
            let blank = text::trimmed(new_name).len() == 0;
            let plan = plan_of(kind, name, mark, enabled);
            &&& !voice ==> plan == Err::<(bool, Seq<char>), AutojoinError>(
                AutojoinError::NotAVoiceChannel,
            )
            &&& voice && grows ==> plan == Err::<(bool, Seq<char>), AutojoinError>(
                AutojoinError::NameTooLong,
            )
            &&& voice && !grows && blank ==> plan == Err::<(bool, Seq<char>), AutojoinError>(
                AutojoinError::NameWouldBeEmpty,
            )
            &&& voice && !grows && !blank ==> plan == Ok::<(bool, Seq<char>), AutojoinError>(
                (enable, new_name),
            )
        }),
{
    if mark.len() == 0 {
        assert(name + mark =~= name);
    }
}

/// A channel is joined exactly where a person enters it, it is a marked voice channel, and no call
/// runs.
pub proof fn law_marked_channels_are_joined(
    change: VoiceMove,
    kind: ChannelKind,
    name: Seq<char>,
    mark: Seq<char>,
    channel: u64,
)
    ensures
        join_target(change, kind, name, mark) == Some(channel) <==> {
            &&& change.new_channel == Some(channel)
            &&& change.old_channel != Some(channel)
            &&& !change.user_is_bot
            &&& !change.session_active
            &&& kind is Voice || kind is Stage
            &&& text::ends_with(name, mark)
        },
{
}

/// The text channel that is taken is the topmost of its kind: the one with the lowest position, and
/// of those the one with the lowest id. There is none only where there is no such channel.
pub proof fn law_topmost_channel_is_found(channels: Seq<ChannelSummary>, category: Option<u64>)
    ensures
        match topmost(channels, category) {
            Some(best) => {
                &&& channels.contains(best)
                &&& best.kind is Text
                &&& category is Some ==> best.parent_id == category
                &&& forall|i: int|
                    0 <= i < channels.len() && (#[trigger] channels[i]).kind is Text && (
                    category is Some ==> channels[i].parent_id == category) ==> best.position
                        < channels[i].position || (best.position == channels[i].position && best.id
                        <= channels[i].id)
            },
            None => forall|i: int|
                0 <= i < channels.len() ==> !((#[trigger] channels[i]).kind is Text && (
                category is Some ==> channels[i].parent_id == category)),
        },
    decreases channels.len(),
{
    if channels.len() > 0 {
        let rest = channels.drop_last();
        law_topmost_channel_is_found(rest, category);
        let last = channels.len() - 1;
        assert(channels[last] == channels.last());
        if let Some(best) = topmost(rest, category) {
            let k = choose|k: int| 0 <= k < rest.len() && rest[k] == best;
            assert(channels[k] == best);
            assert forall|i: int|
                0 <= i < rest.len() && (#[trigger] channels[i]).kind is Text && (category is Some
                    ==> channels[i].parent_id == category) implies best.position
                < channels[i].position || (best.position == channels[i].position && best.id
                <= channels[i].id) by {
                assert(rest[i] == channels[i]);
            }
        } else {
            assert forall|i: int| 0 <= i < rest.len() implies !((#[trigger] channels[i]).kind is Text
                && (category is Some ==> channels[i].parent_id == category)) by {
                assert(rest[i] == channels[i]);
            }
        }
    }
}

/// Messages of a call go to a text channel beside the voice channel, in its category; else to the
/// guild's system channel; else to any text channel.
pub proof fn law_text_channel_is_near(
    channels: Seq<ChannelSummary>,
    voice_channel: u64,
    system_channel: Option<u64>,
    i: int,
)
    requires
        0 <= i < channels.len(),
        channels[i].id == voice_channel,
        forall|j: int| 0 <= j < i ==> (#[trigger] channels[j]).id != voice_channel,
    ensures
        ({
            let chosen = text_channel_for(channels, voice_channel, system_channel);
            let beside = topmost(channels, channels[i].parent_id);
            &&& channels[i].parent_id is Some && beside is Some ==> chosen == Some(
                beside.unwrap().id,
            )
            &&& (channels[i].parent_id is None || beside is None) && system_channel is Some
                ==> chosen == system_channel
            &&& (channels[i].parent_id is None || beside is None) && system_channel is None
                ==> match topmost(channels, None) {
                Some(channel) => chosen == Some(channel.id),
                None => chosen is None,
            }
        }),
{
    lemma_category_of(channels, voice_channel, i);
}

proof fn lemma_category_of(channels: Seq<ChannelSummary>, id: u64, i: int)
    requires
        0 <= i < channels.len(),
        channels[i].id == id,
        forall|j: int| 0 <= j < i ==> (#[trigger] channels[j]).id != id,
    ensures
        category_of(channels, id) == channels[i].parent_id,
    decreases i,
{
    if i > 0 {
        let rest = channels.drop_first();
        assert(channels[0].id != id);
        assert forall|j: int| 0 <= j < i - 1 implies (#[trigger] rest[j]).id != id by {
            assert(rest[j] == channels[j + 1]);
        }
        lemma_category_of(rest, id, i - 1);
    }
}

/// Messages about a channel name it by its number.
pub proof fn law_messages_name_the_channel(channel: u64, mark: Seq<char>)
    ensures
        autojoin_reply_text(true, channel) == "Autojoin enabled for <#"@ + text::decimal(
            channel as nat,
        ) + ">. The bot will auto-start when a non-bot user joins that channel."@,
        autojoin_reply_text(false, channel) == "Autojoin disabled for <#"@ + text::decimal(
            channel as nat,
        ) + ">."@,
        autojoined_text(channel, mark) == "Autojoined <#"@ + text::decimal(channel as nat)
            + "> because the channel is marked with "@ + mark + "."@,
{
}

} // verus!
