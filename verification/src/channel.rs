//! The Slack channel: its configuration and the rules that need nothing else.

use crate::json::{
    array_member, bool_member, get_array, get_bool, get_text, json_of, jsons_of, text_member, Json,
};
use crate::table::Table;
use crate::text::{
    a_tag_occurs_where_it_stands, ascending, contains, is_space, occurs, opt_str, opt_text, pairs,
    removal_keeps_the_rest, remove_all, removing_a_tag_shortens,
    removing_an_absent_tag_changes_nothing, sorted_without_repeats, texts,
    texts_hold_the_tags_that_occur, trim, trimmed, trimmed_has_no_outer_space,
    trimming_is_idempotent, trimming_shortens, trimming_takes_off_the_padding, without,
};
use vstd::prelude::*;
use vstd::string::*;

verus! {

/// A Slack channel. It listens in Socket Mode where `app_token` is configured, and by
/// polling the conversations otherwise.
pub struct SlackChannel {
    pub bot_token: String,
    pub app_token: Option<String>,
    pub channel_id: Option<String>,
    pub allowed_users: Vec<String>,
}

/// How a channel listens.
#[derive(Debug, Clone)]
pub enum ListenMode {
    /// Over a socket that is opened with this app token.
    Socket(String),
    /// By asking for new messages again and again.
    Polling,
}

/// A conversation as a list of conversations describes it.
#[derive(Debug, Clone)]
pub struct ListedChannel {
    pub id: Option<String>,
    pub is_archived: Option<bool>,
    pub is_member: Option<bool>,
}

/// What a [`ListedChannel`] holds.
pub struct ListedChannelView {
    pub id: Option<Seq<char>>,
    pub is_archived: Option<bool>,
    pub is_member: Option<bool>,
}

impl View for ListedChannel {
    type V = ListedChannelView;

    open spec fn view(&self) -> ListedChannelView {
        ListedChannelView {
            id: opt_text(self.id),
            is_archived: self.is_archived,
            is_member: self.is_member,
        }
    }
}

/// Whether the allowlist lets a user through: `"*"` stands for every user, and an
/// empty list lets nobody through.
pub open spec fn user_allowed(allowed: Seq<Seq<char>>, user: Seq<char>) -> bool {
    allowed.contains("*"@) || allowed.contains(user)
}

/// The channel that a configured id names: none where the id is blank or `"*"`.
pub open spec fn normalized(input: Option<Seq<char>>) -> Option<Seq<char>> {
    match input {
        Some(id) => if trimmed(id).len() == 0 || trimmed(id) == "*"@ {
            None
        } else {
            Some(trimmed(id))
        },
        None => None,
    }
}

/// The thread that a message belongs to: the one it names, else the one that its own
/// timestamp opens, where it has one.
pub open spec fn thread_of(thread_ts: Option<Seq<char>>, ts: Seq<char>) -> Option<Seq<char>> {
    if thread_ts is Some {
        thread_ts
    } else if ts.len() == 0 {
        None
    } else {
        Some(ts)
    }
}

/// Whether the bot can read the conversation `c`, which has the id `id`. What is not
/// said counts as not archived, and as joined.
pub open spec fn accessible(c: ListedChannelView, id: Seq<char>) -> bool {
    c.id == Some(id) && c.is_archived != Some(true) && c.is_member != Some(false)
}

/// Whether `id` is the id of one of `channels` that the bot can read.
pub open spec fn lists(channels: Seq<ListedChannelView>, id: Seq<char>) -> bool {
    exists|i: int| 0 <= i < channels.len() && accessible(#[trigger] channels[i], id)
}

/// One conversation of a list, read from its document.
pub open spec fn listed_channel(json: Json) -> ListedChannelView {
    ListedChannelView {
        id: text_member(json, "id"@),
        is_archived: bool_member(json, "is_archived"@),
        is_member: bool_member(json, "is_member"@),
    }
}

/// The conversations of a list, read from its document: those under `channels`.
pub open spec fn listed_channels(json: Json) -> Seq<ListedChannelView> {
    match array_member(json, "channels"@) {
        Some(items) => items.map_values(|j: Json| listed_channel(j)),
        None => Seq::empty(),
    }
}

/// How a text mentions the user `user`.
pub open spec fn mention(user: Seq<char>) -> Seq<char> {
    "<@"@ + user + ">"@
}

/// Whether `text` mentions the bot. A bot without an id is never mentioned.
pub open spec fn mentions(text: Seq<char>, bot: Seq<char>) -> bool {
    bot.len() > 0 && occurs(text, mention(bot))
}

/// `text` without its mentions of the bot and without the white space around the rest.
pub open spec fn stripped(text: Seq<char>, bot: Seq<char>) -> Seq<char> {
    if bot.len() == 0 {
        text
    } else {
        trimmed(without(text, mention(bot)))
    }
}

/// One line for each message: its sender and its text.
pub open spec fn context_lines(messages: Seq<(Seq<char>, Seq<char>)>) -> Seq<char>
    decreases messages.len(),
{
    if messages.len() == 0 {
        Seq::empty()
    } else {
        context_lines(messages.drop_last()) + messages.last().0 + ": "@ + messages.last().1 + "\n"@
    }
}

/// The messages of a thread as they stand in front of a message that answers them.
pub open spec fn thread_context(messages: Seq<(Seq<char>, Seq<char>)>) -> Seq<char> {
    if messages.len() == 0 {
        Seq::empty()
    } else {
        "[Thread context — recent messages in this thread]\n"@ + context_lines(messages) + "\n"@
    }
}

/// The cursor of a channel: the one that is kept for it, else the time given.
pub open spec fn cursor_or(
    cursors: Map<Seq<char>, Seq<char>>,
    channel: Seq<char>,
    now_ts: Seq<char>,
) -> Seq<char> {
    if cursors.contains_key(channel) {
        cursors[channel]
    } else {
        now_ts
    }
}

/// The mention tag of a user.
fn mention_tag(user: &str) -> (tag: String)
    ensures
        tag@ == mention(user@),
{
    let mut tag = "<@".to_owned();
    tag.append(user);
    tag.append(">");
    tag
}

/// Reads one conversation of a list.
pub fn read_listed_channel(channel: &serde_json::Value) -> (r: ListedChannel)
    ensures
        r@ == listed_channel(json_of(*channel)),
        opt_text(r.id) == text_member(json_of(*channel), "id"@),
        r.is_archived == bool_member(json_of(*channel), "is_archived"@),
        r.is_member == bool_member(json_of(*channel), "is_member"@),
{
    ListedChannel {
        id: get_text(channel, "id"),
        is_archived: get_bool(channel, "is_archived"),
        is_member: get_bool(channel, "is_member"),
    }
}

/// What each of `channels` holds.
pub open spec fn listed_views(channels: Seq<ListedChannel>) -> Seq<ListedChannelView> {
    channels.map_values(|c: ListedChannel| c@)
}

/// The ids of the conversations that the bot can read, each once, in ascending order.
pub fn accessible_ids(channels: &Vec<ListedChannel>) -> (ids: Vec<String>)
    ensures
        ascending(texts(ids@)),
        forall|id: Seq<char>| #[trigger]
            texts(ids@).contains(id) == lists(listed_views(channels@), id),
        forall|id: Seq<char>| #[trigger]
            texts(ids@).contains(id) <==> exists|i: int|
                0 <= i < channels@.len() && opt_text((#[trigger] channels@[i]).id) == Some(id)
                    && channels@[i].is_archived != Some(true) && channels@[i].is_member != Some(
                    false,
                ),
{
    let ghost views = listed_views(channels@);
    let mut ids: Vec<String> = Vec::new();
    let mut i: usize = 0;
    while i < channels.len()
        invariant
            views == listed_views(channels@),
            i <= channels.len(),
            forall|id: Seq<char>| #[trigger]
                texts(ids@).contains(id) == lists(views.take(i as int), id),
        decreases channels.len() - i,
    {
        let ghost before = texts(ids@);
        let ghost head = views.take(i as int);
        let channel = &channels[i];
        let is_archived = match channel.is_archived {
            Some(b) => b,
            None => false,
        };
        let is_member = match channel.is_member {
            Some(b) => b,
            None => true,
        };
        if !is_archived && is_member {
            match &channel.id {
                Some(id) => {
                    ids.push(id.clone());
                },
                None => {},
            }
        }
        proof {
            let next = views.take(i + 1);
            let after = texts(ids@);
            assert(next == head.push(views[i as int]));
            assert forall|id: Seq<char>| #[trigger] after.contains(id) == lists(next, id) by {
                if accessible(views[i as int], id) {
                    assert(after == before.push(id));
                    assert(after[before.len() as int] == id);
                    assert(accessible(next[i as int], id));
                } else {
                    if before.contains(id) {
                        let k = choose|k: int| 0 <= k < before.len() && before[k] == id;
                        assert(after[k] == id);
                    }
                    if after.contains(id) {
                        let k = choose|k: int| 0 <= k < after.len() && after[k] == id;
                        assert(before[k] == id);
                    }
                    assert(before.contains(id) == lists(head, id));
                    if lists(head, id) {
                        let k = choose|k: int|
                            0 <= k < head.len() && accessible(#[trigger] head[k], id);
                        assert(accessible(next[k], id));
                    }
                    if lists(next, id) {
                        let k = choose|k: int|
                            0 <= k < next.len() && accessible(#[trigger] next[k], id);
                        assert(accessible(head[k], id));
                    }
                }
            }
        }
        i += 1;
    }
    assert(views.take(i as int) == views);
    let sorted = sorted_without_repeats(ids);
    assert forall|id: Seq<char>| #[trigger] texts(sorted@).contains(id) == lists(views, id) by {
        assert(texts(sorted@).to_set().contains(id) == texts(ids@).to_set().contains(id));
    }
    assert forall|id: Seq<char>| lists(views, id) <==> exists|i: int|
        0 <= i < channels@.len() && opt_text((#[trigger] channels@[i]).id) == Some(id)
            && channels@[i].is_archived != Some(true) && channels@[i].is_member != Some(false) by {
        if lists(views, id) {
            let i = choose|i: int| 0 <= i < views.len() && accessible(#[trigger] views[i], id);
            assert(opt_text(channels@[i].id) == Some(id));
        }
        if exists|i: int|
            0 <= i < channels@.len() && opt_text((#[trigger] channels@[i]).id) == Some(id)
                && channels@[i].is_archived != Some(true) && channels@[i].is_member != Some(
                false,
            ) {
            let i = choose|i: int|
                0 <= i < channels@.len() && opt_text((#[trigger] channels@[i]).id) == Some(id)
                    && channels@[i].is_archived != Some(true) && channels@[i].is_member != Some(
                    false,
                );
            assert(accessible(views[i], id));
        }
    }
    sorted
}

impl SlackChannel {
    /// A channel with the given configuration.
    pub fn new(
        bot_token: String,
        app_token: Option<String>,
        channel_id: Option<String>,
        allowed_users: Vec<String>,
    ) -> (channel: Self)
        ensures
            channel.bot_token == bot_token,
            channel.app_token == app_token,
            channel.channel_id == channel_id,
            channel.allowed_users == allowed_users,
    {
        SlackChannel { bot_token, app_token, channel_id, allowed_users }
    }

    /// The name of the channel.
    pub fn name(&self) -> (r: &str)
        ensures
            r@ == "slack"@,
    {
        "slack"
    }

    /// How this channel listens: over a socket where it has an app token.
    pub fn listen_mode(&self) -> (mode: ListenMode)
        ensures
            match mode {
                ListenMode::Socket(token) => opt_text(self.app_token) == Some(token@),
                ListenMode::Polling => self.app_token is None,
            },
    {
        match &self.app_token {
            Some(token) => ListenMode::Socket(token.clone()),
            None => ListenMode::Polling,
        }
    }

    /// The texts of the allowlist.
    pub open spec fn allowlist(&self) -> Seq<Seq<char>> {
        texts(self.allowed_users@)
    }

    /// Whether the allowlist lets the user `user_id` through.
    pub fn is_user_allowed(&self, user_id: &str) -> (r: bool)
        ensures
            r == user_allowed(self.allowlist(), user_id@),
            r <==> exists|i: int|
                0 <= i < self.allowed_users@.len() && ((#[trigger] self.allowed_users@[i])@ == "*"@
                    || self.allowed_users@[i]@ == user_id@),
    {
        let ghost allowed = self.allowlist();
        let mut i: usize = 0;
        while i < self.allowed_users.len()
            invariant
                allowed == self.allowlist(),
                i <= self.allowed_users.len(),
                forall|k: int|
                    0 <= k < i ==> #[trigger] allowed[k] != "*"@ && allowed[k] != user_id@,
            decreases self.allowed_users.len() - i,
        {
            let user = self.allowed_users[i].as_str();
            assert(allowed[i as int] == user@);
            if user.eq("*") || user.eq(user_id) {
                return true;
            }
            i += 1;
        }
        assert forall|k: int| 0 <= k < self.allowed_users@.len() implies (
        #[trigger] self.allowed_users@[k])@ != "*"@ && self.allowed_users@[k]@ != user_id@ by {
            assert(allowed[k] == self.allowed_users@[k]@);
        }
        false
    }

    /// The thread that an inbound message belongs to. A reply names its thread under
    /// `thread_ts`; a top-level message has only its own timestamp `ts`.
    pub fn inbound_thread_ts(msg: &serde_json::Value, ts: &str) -> (r: Option<String>)
        ensures
            opt_text(r) == thread_of(text_member(json_of(*msg), "thread_ts"@), ts@),
    {
        Self::resolve_thread_ts(get_text(msg, "thread_ts"), ts)
    }

    /// The thread of a message that names `thread_ts` and has the timestamp `ts`.
    pub fn resolve_thread_ts(thread_ts: Option<String>, ts: &str) -> (r: Option<String>)
        ensures
            opt_text(r) == thread_of(opt_text(thread_ts), ts@),
            thread_ts is Some ==> r == thread_ts,
            thread_ts is None && ts@.len() > 0 ==> opt_text(r) == Some(ts@),
            thread_ts is None && ts@.len() == 0 ==> r is None,
    {
        match thread_ts {
            Some(thread) => Some(thread),
            None => if ts.is_empty() {
                None
            } else {
                Some(ts.to_owned())
            },
        }
    }

    /// The channel that a configured id names.
    pub fn normalized_channel_id(input: Option<&str>) -> (r: Option<String>)
        ensures
            opt_text(r) == normalized(opt_str(input)),
    {
        match input {
            Some(id) => {
                let id = trim(id);
                if id.as_str().is_empty() || id.as_str().eq("*") {
                    None
                } else {
                    Some(id)
                }
            },
            None => None,
        }
    }

    /// The one channel that is listened to, or none where all of them are.
    pub fn configured_channel_id(&self) -> (r: Option<String>)
        ensures
            opt_text(r) == normalized(opt_text(self.channel_id)),
    {
        match &self.channel_id {
            Some(id) => Self::normalized_channel_id(Some(id.as_str())),
            None => Self::normalized_channel_id(None),
        }
    }

    /// The ids of the conversations in a reply that the bot can read, each once, in
    /// ascending order.
    pub fn extract_channel_ids(list_payload: &serde_json::Value) -> (ids: Vec<String>)
        ensures
            ascending(texts(ids@)),
            forall|id: Seq<char>| #[trigger]
                texts(ids@).contains(id) == lists(listed_channels(json_of(*list_payload)), id),
            forall|id: Seq<char>| #[trigger]
                texts(ids@).contains(id) <==> match array_member(
                    json_of(*list_payload),
                    "channels"@,
                ) {
                    Some(items) => exists|i: int|
                        0 <= i < items.len() && text_member(#[trigger] items[i], "id"@) == Some(id)
                            && bool_member(items[i], "is_archived"@) != Some(true) && bool_member(
                            items[i],
                            "is_member"@,
                        ) != Some(false),
                    None => false,
                },
    {
        let mut channels: Vec<ListedChannel> = Vec::new();
        let ghost listed = listed_channels(json_of(*list_payload));
        match get_array(list_payload, "channels") {
            Some(items) => {
                let mut i: usize = 0;
                while i < items.len()
                    invariant
                        i <= items.len(),
                        listed == jsons_of(items@).map_values(|j: Json| listed_channel(j)),
                        listed_views(channels@) == listed.take(i as int),
                    decreases items.len() - i,
                {
                    channels.push(read_listed_channel(&items[i]));
                    assert(listed.take(i + 1) == listed.take(i as int).push(listed[i as int]));
                    assert(listed_views(channels@) == listed.take(i + 1));
                    i += 1;
                }
                assert(listed.take(i as int) == listed);
            },
            None => {},
        }
        assert(listed_views(channels@) == listed);
        let ids = accessible_ids(&channels);
        assert forall|id: Seq<char>| #[trigger] texts(ids@).contains(id) <==> match array_member(
            json_of(*list_payload),
            "channels"@,
        ) {
            Some(items) => exists|i: int|
                0 <= i < items.len() && text_member(#[trigger] items[i], "id"@) == Some(id)
                    && bool_member(items[i], "is_archived"@) != Some(true) && bool_member(
                    items[i],
                    "is_member"@,
                ) != Some(false),
            None => false,
        } by {
            readable_conversations_are_listed(json_of(*list_payload), id);
        }
        ids
    }

    /// The cursor from which a channel is polled. A channel that is polled for the first
    /// time starts at `now_ts`, so that its history is not replayed.
    pub fn ensure_poll_cursor(
        cursors: &mut Table<String, String>,
        channel_id: &str,
        now_ts: &str,
    ) -> (r: String)
        ensures
            r@ == cursor_or(old(cursors)@, channel_id@, now_ts@),
            final(cursors)@ == old(cursors)@.insert(channel_id@, r@),
            old(cursors)@.contains_key(channel_id@) ==> r@ == old(cursors)@[channel_id@],
            !old(cursors)@.contains_key(channel_id@) ==> r@ == now_ts@,
    {
        let known = match cursors.get(channel_id) {
            Some(ts) => Some(ts.clone()),
            None => None,
        };
        match known {
            Some(ts) => {
                assert(old(cursors)@ =~= old(cursors)@.insert(channel_id@, ts@));
                ts
            },
            None => {
                cursors.insert(channel_id.to_owned(), now_ts.to_owned());
                now_ts.to_owned()
            },
        }
    }

    /// Whether `text` mentions the bot, as `<@bot_user_id>`.
    pub fn contains_bot_mention(text: &str, bot_user_id: &str) -> (r: bool)
        ensures
            r == mentions(text@, bot_user_id@),
    {
        if bot_user_id.is_empty() {
            return false;
        }
        contains(text, mention_tag(bot_user_id).as_str())
    }

    /// `text` without its mentions of the bot, trimmed.
    pub fn strip_bot_mention(text: &str, bot_user_id: &str) -> (r: String)
        ensures
            r@ == stripped(text@, bot_user_id@),
    {
        if bot_user_id.is_empty() {
            return text.to_owned();
        }
        let rest = remove_all(text, mention_tag(bot_user_id).as_str());
        trim(rest.as_str())
    }

    /// The messages of a thread, formatted to stand in front of a message.
    pub fn format_thread_context(messages: &[(String, String)]) -> (r: String)
        ensures
            r@ == thread_context(pairs(messages@)),
    {
        if messages.len() == 0 {
            return String::new();
        }
        let ghost lines = pairs(messages@);
        let mut ctx = "[Thread context — recent messages in this thread]\n".to_owned();
        let ghost header = ctx@;
        let mut i: usize = 0;
        assert(context_lines(lines.take(0)) == Seq::<char>::empty());
        while i < messages.len()
            invariant
                i <= messages.len(),
                lines == pairs(messages@),
                ctx@ == header + context_lines(lines.take(i as int)),
            decreases messages.len() - i,
        {
            ctx.append(messages[i].0.as_str());
            ctx.append(": ");
            ctx.append(messages[i].1.as_str());
            ctx.append("\n");
            proof {
                let next = lines.take(i + 1);
                assert(next.drop_last() == lines.take(i as int));
                assert(next.last() == lines[i as int]);
                assert(ctx@ == header + context_lines(next));
            }
            i += 1;
        }
        assert(lines.take(i as int) == lines);
        ctx.append("\n");
        ctx
    }
}

/// An empty allowlist lets nobody through.
pub proof fn empty_allowlist_lets_nobody_through(user: Seq<char>)
    ensures
        !user_allowed(Seq::empty(), user),
{
}

/// An allowlist with `"*"` in it lets everybody through.
pub proof fn wildcard_lets_everybody_through(allowed: Seq<Seq<char>>, user: Seq<char>)
    requires
        allowed.contains("*"@),
    ensures
        user_allowed(allowed, user),
{
}

/// An allowlist without `"*"` lets those through who are on it, and nobody else.
pub proof fn allowlist_is_matched_exactly(allowed: Seq<Seq<char>>, user: Seq<char>)
    requires
        !allowed.contains("*"@),
    ensures
        user_allowed(allowed, user) <==> allowed.contains(user),
{
}

/// A normalized channel id is not blank, is not `"*"`, has no white space around it, and
/// normalizing it again changes nothing.
pub proof fn normalizing_is_idempotent(input: Option<Seq<char>>)
    ensures
        normalized(normalized(input)) == normalized(input),
        normalized(input) matches Some(id) ==> id.len() > 0 && id != "*"@ && trimmed(id) == id
            && !is_space(id.first()) && !is_space(id.last()),
{
    match input {
        Some(id) => {
            trimmed_has_no_outer_space(id);
            trimming_is_idempotent(id);
        },
        None => {},
    }
}

/// A bot without an id is never mentioned, and nothing is taken out of a text for it.
pub proof fn nameless_bot_is_never_mentioned(text: Seq<char>)
    ensures
        !mentions(text, Seq::empty()),
        stripped(text, Seq::empty()) == text,
{
}

/// Stripping a text that does not mention the bot only trims it.
pub proof fn stripping_an_unmentioned_bot_trims(text: Seq<char>, bot: Seq<char>)
    requires
        bot.len() > 0,
        !mentions(text, bot),
    ensures
        stripped(text, bot) == trimmed(text),
{
    removing_an_absent_tag_changes_nothing(text, mention(bot));
}

/// What is left of a text once the mentions of the bot are taken out has no white space
/// around it; where the bot is mentioned it is shorter than the text.
pub proof fn stripping_takes_the_mention_out(text: Seq<char>, bot: Seq<char>)
    requires
        mentions(text, bot),
    ensures
        stripped(text, bot).len() + mention(bot).len() <= text.len(),
        trimmed(stripped(text, bot)) == stripped(text, bot),
{
    reveal_strlit("<@");
    removing_a_tag_shortens(text, mention(bot));
    trimming_shortens(without(text, mention(bot)));
    trimming_is_idempotent(without(text, mention(bot)));
}

/// Once a channel has a cursor, asking for it again gives the same cursor, whatever the
/// time, and the cursors of the other channels are not touched.
pub proof fn cursors_are_kept(
    cursors: Map<Seq<char>, Seq<char>>,
    channel: Seq<char>,
    now_ts: Seq<char>,
    later_ts: Seq<char>,
    other: Seq<char>,
)
    ensures
        ({
            let cursor = cursor_or(cursors, channel, now_ts);
            let next = cursors.insert(channel, cursor);
            &&& cursor_or(next, channel, later_ts) == cursor
            &&& next.insert(channel, cursor) == next
            &&& other != channel ==> next.contains_key(other) == cursors.contains_key(other)
                && cursor_or(next, other, later_ts) == cursor_or(cursors, other, later_ts)
        }),
{
    let cursor = cursor_or(cursors, channel, now_ts);
    let next = cursors.insert(channel, cursor);
    assert(next.insert(channel, cursor) =~= next);
}

/// The whole allowlist counts, and nobody else.
pub proof fn allowlists_are_whole(channel: SlackChannel, user: Seq<char>)
    ensures
        user_allowed(channel.allowlist(), user) <==> exists|i: int|
            0 <= i < channel.allowed_users@.len() && ((#[trigger] channel.allowed_users@[i])@
                == "*"@ || channel.allowed_users@[i]@ == user),
{
    let list = channel.allowlist();
    if list.contains("*"@) {
        let i = choose|i: int| 0 <= i < list.len() && list[i] == "*"@;
        assert(channel.allowed_users@[i]@ == "*"@);
    }
    if list.contains(user) {
        let i = choose|i: int| 0 <= i < list.len() && list[i] == user;
        assert(channel.allowed_users@[i]@ == user);
    }
    if exists|i: int|
        0 <= i < channel.allowed_users@.len() && ((#[trigger] channel.allowed_users@[i])@ == "*"@
            || channel.allowed_users@[i]@ == user) {
        let i = choose|i: int|
            0 <= i < channel.allowed_users@.len() && ((#[trigger] channel.allowed_users@[i])@
                == "*"@ || channel.allowed_users@[i]@ == user);
        assert(list[i] == channel.allowed_users@[i]@);
    }
}

/// A configured id names the channel whose id it is, whatever white space stands around it; a
/// blank one and `"*"` name none.
pub proof fn configured_ids_name_their_channel(left: Seq<char>, id: Seq<char>, right: Seq<char>)
    requires
        forall|i: int| 0 <= i < left.len() ==> is_space(#[trigger] left[i]),
        forall|i: int| 0 <= i < right.len() ==> is_space(#[trigger] right[i]),
        id.len() > 0 ==> !is_space(id.first()) && !is_space(id.last()),
    ensures
        id.len() > 0 && id != "*"@ ==> normalized(Some(left + id + right)) == Some(id),
        id.len() == 0 || id == "*"@ ==> normalized(Some(left + id + right)) is None,
        normalized(None) is None,
{
    trimming_takes_off_the_padding(left, id, right);
}

/// A reply belongs to the thread that it names, and a message that names none opens its own.
pub proof fn messages_belong_to_one_thread(thread: Seq<char>, ts: Seq<char>)
    ensures
        thread_of(Some(thread), ts) == Some(thread),
        ts.len() > 0 ==> thread_of(None, ts) == Some(ts),
        ts.len() == 0 ==> thread_of(None, ts) is None,
{
}

/// An id is on a page exactly where one of the items under `channels` has it under `id`, is
/// not said to be archived and is not said to be left; no other member plays a part.
pub proof fn readable_conversations_are_listed(json: Json, id: Seq<char>)
    ensures
        lists(listed_channels(json), id) <==> match array_member(json, "channels"@) {
            Some(items) => exists|i: int|
                0 <= i < items.len() && text_member(#[trigger] items[i], "id"@) == Some(id)
                    && bool_member(items[i], "is_archived"@) != Some(true) && bool_member(
                    items[i],
                    "is_member"@,
                ) != Some(false),
            None => false,
        },
{
    let listed = listed_channels(json);
    match array_member(json, "channels"@) {
        Some(items) => {
            if lists(listed, id) {
                let i = choose|i: int|
                    0 <= i < listed.len() && accessible(#[trigger] listed[i], id);
                assert(listed[i] == listed_channel(items[i]));
            }
            if exists|i: int|
                0 <= i < items.len() && text_member(#[trigger] items[i], "id"@) == Some(id)
                    && bool_member(items[i], "is_archived"@) != Some(true) && bool_member(
                    items[i],
                    "is_member"@,
                ) != Some(false) {
                let i = choose|i: int|
                    0 <= i < items.len() && text_member(#[trigger] items[i], "id"@) == Some(id)
                        && bool_member(items[i], "is_archived"@) != Some(true) && bool_member(
                        items[i],
                        "is_member"@,
                    ) != Some(false);
                assert(accessible(listed[i], id));
            }
        },
        None => {},
    }
}

/// The bot is mentioned where its id stands between `<@` and `>`, whatever stands around.
pub proof fn mentions_are_found_anywhere(before: Seq<char>, bot: Seq<char>, behind: Seq<char>)
    requires
        bot.len() > 0,
    ensures
        mentions(before + ("<@"@ + bot + ">"@) + behind, bot),
{
    a_tag_occurs_where_it_stands(before, "<@"@ + bot + ">"@, behind);
}

/// A text that mentions the bot holds its id between `<@` and `>`.
pub proof fn mentioned_bots_are_named(text: Seq<char>, bot: Seq<char>)
    requires
        mentions(text, bot),
    ensures
        bot.len() > 0,
        exists|before: Seq<char>, behind: Seq<char>|
            text == #[trigger] (before + ("<@"@ + bot + ">"@) + behind),
{
    texts_hold_the_tags_that_occur(text, "<@"@ + bot + ">"@);
}

/// Stripping takes out each mention of the bot and keeps all the rest, but for the white
/// space around it.
pub proof fn stripping_keeps_the_rest(before: Seq<char>, bot: Seq<char>, behind: Seq<char>)
    requires
        bot.len() > 0,
        !occurs((before + ("<@"@ + bot + ">"@)).drop_last(), "<@"@ + bot + ">"@),
    ensures
        stripped(before + ("<@"@ + bot + ">"@) + behind, bot) == trimmed(
            before + without(behind, "<@"@ + bot + ">"@),
        ),
        !mentions(behind, bot) ==> stripped(before + ("<@"@ + bot + ">"@) + behind, bot) == trimmed(
            before + behind,
        ),
{
    reveal_strlit("<@");
    removal_keeps_the_rest(before, "<@"@ + bot + ">"@, behind);
    if !mentions(behind, bot) {
        removing_an_absent_tag_changes_nothing(behind, "<@"@ + bot + ">"@);
    }
}

/// The context of a thread is a heading, then a line for each message with its sender and its
/// text, in order and whole, then an empty line.
pub proof fn contexts_hold_every_message(messages: Seq<(Seq<char>, Seq<char>)>, message: (
    Seq<char>,
    Seq<char>,
))
    ensures
        thread_context(Seq::empty()) == Seq::<char>::empty(),
        thread_context(seq![message])
            == "[Thread context — recent messages in this thread]\n"@ + message.0 + ": "@
            + message.1 + "\n"@ + "\n"@,
        messages.len() > 0 ==> thread_context(messages.push(message)) == thread_context(
            messages,
        ).drop_last() + message.0 + ": "@ + message.1 + "\n"@ + "\n"@,
{
    reveal_strlit("\n");
    let one = seq![message];
    let none = Seq::<(Seq<char>, Seq<char>)>::empty();
    assert(one.drop_last() =~= none);
    assert(context_lines(none) =~= Seq::empty());
    assert(thread_context(one) =~= "[Thread context — recent messages in this thread]\n"@
        + message.0 + ": "@ + message.1 + "\n"@ + "\n"@);
    let all = messages.push(message);
    assert(all.drop_last() =~= messages);
    if messages.len() > 0 {
        assert(thread_context(messages).drop_last()
            =~= "[Thread context — recent messages in this thread]\n"@ + context_lines(messages));
        assert(thread_context(all) =~= thread_context(messages).drop_last() + message.0 + ": "@
            + message.1 + "\n"@ + "\n"@);
    }
}

/// A channel keeps the cursor that it has, and starts at the time given where it has none.
pub proof fn cursors_start_now(
    cursors: Map<Seq<char>, Seq<char>>,
    channel: Seq<char>,
    cursor: Seq<char>,
    now_ts: Seq<char>,
)
    ensures
        cursor_or(cursors.insert(channel, cursor), channel, now_ts) == cursor,
        cursor_or(cursors.remove(channel), channel, now_ts) == now_ts,
{
}

/// Each field of a conversation counts, and each conversation of a list, in its place.
pub proof fn conversations_are_viewed_field_by_field(channels: Seq<ListedChannel>, i: int)
    requires
        0 <= i < channels.len(),
    ensures
        listed_views(channels).len() == channels.len(),
        listed_views(channels)[i] == channels[i]@,
        channels[i]@.id == opt_text(channels[i].id),
        channels[i]@.is_archived == channels[i].is_archived,
        channels[i]@.is_member == channels[i].is_member,
{
}

/// The lines of a context come one behind the other: those of the first messages, then those
/// of the others, and each is the sender, a colon and the whole text.
pub proof fn context_lines_are_joined(
    first: Seq<(Seq<char>, Seq<char>)>,
    others: Seq<(Seq<char>, Seq<char>)>,
    message: (Seq<char>, Seq<char>),
)
    ensures
        context_lines(first + others) == context_lines(first) + context_lines(others),
        context_lines(seq![message]) == message.0 + ": "@ + message.1 + "\n"@,
    decreases others.len(),
{
    let none = Seq::<(Seq<char>, Seq<char>)>::empty();
    assert(seq![message].drop_last() =~= none);
    assert(context_lines(none) =~= Seq::empty());
    assert(context_lines(seq![message]) =~= message.0 + ": "@ + message.1 + "\n"@);
    if others.len() == 0 {
        assert(first + others =~= first);
        assert(context_lines(first) + context_lines(others) =~= context_lines(first));
    } else {
        let all = first + others;
        context_lines_are_joined(first, others.drop_last(), message);
        assert(all.drop_last() =~= first + others.drop_last());
        assert(all.last() == others.last());
        assert(context_lines(all) =~= context_lines(first) + context_lines(others));
    }
}

/// Each message of a thread stands in its context, with its sender and its whole text, behind
/// those that came before it and in front of those that came after it.
pub proof fn contexts_tell_each_message(messages: Seq<(Seq<char>, Seq<char>)>, i: int)
    requires
        0 <= i < messages.len(),
    ensures
        thread_context(messages) == "[Thread context — recent messages in this thread]\n"@ + (
        context_lines(messages.take(i)) + (messages[i].0 + ": "@ + messages[i].1 + "\n"@)
            + context_lines(messages.skip(i + 1))) + "\n"@,
{
    let one = seq![messages[i]];
    assert(messages =~= messages.take(i) + one + messages.skip(i + 1));
    context_lines_are_joined(messages.take(i) + one, messages.skip(i + 1), messages[i]);
    context_lines_are_joined(messages.take(i), one, messages[i]);
}

} // verus!
