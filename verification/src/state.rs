//! Chat data model: roles, tool calls, messages and conversations.
//!
//! Each executable type has a mathematical model reached through its view;
//! contracts are stated over those models.

use vstd::prelude::*;
use crate::clock::now_millis;
use crate::ids::fresh_id;
use crate::strutil::{from_chars, to_chars, trim_spec};

verus! {

/// Who authored a message.
#[derive(Clone, Debug, PartialEq, Eq, Structural)]
pub enum MessageRole {
    System,
    User,
    Assistant,
    Tool,
}

/// How far an externally executed tool call has progressed.
#[derive(Clone, Debug, PartialEq, Eq, Structural)]
pub enum ToolCallStatus {
    Pending,
    Completed,
    Failed,
}

/// A tool invocation carried inside a message. The engine only transports and
/// persists these; `arguments` and `response` stay opaque text.
#[derive(Clone, Debug)]
pub struct ToolCall {
    pub id: u128,
    pub name: String,
    pub arguments: String,
    pub status: ToolCallStatus,
    pub response: Option<String>,
}

/// The model of a [`ToolCall`].
pub ghost struct ToolCallModel {
    pub id: u128,
    pub name: Seq<char>,
    pub arguments: Seq<char>,
    pub status: ToolCallStatus,
    pub response: Option<Seq<char>>,
}

impl View for ToolCall {
    type V = ToolCallModel;

    open spec fn view(&self) -> ToolCallModel {
        ToolCallModel {
            id: self.id,
            name: self.name@,
            arguments: self.arguments@,
            status: self.status,
            response: self.response.deep_view(),
        }
    }
}

impl DeepView for ToolCall {
    type V = ToolCallModel;

    open spec fn deep_view(&self) -> ToolCallModel {
        self.view()
    }
}

impl ToolCall {
    /// Starts a pending tool call with a fresh identifier.
    pub fn new(name: &str, arguments: &str) -> (r: ToolCall)
        ensures
            r@.name == name@,
            r@.arguments == arguments@,
            r@.status == ToolCallStatus::Pending,
            r@.response is None,
    {
        ToolCall {
            id: fresh_id(),
            name: name.to_owned(),
            arguments: arguments.to_owned(),
            status: ToolCallStatus::Pending,
            response: None,
        }
    }
}

/// One chat message. Immutable once appended to a conversation.
#[derive(Clone, Debug)]
pub struct ChatMessage {
    pub id: u128,
    pub role: MessageRole,
    pub content: String,
    pub created_at: i64,
    pub tool_calls: Vec<ToolCall>,
}

/// The model of a [`ChatMessage`].
pub ghost struct MessageModel {
    pub id: u128,
    pub role: MessageRole,
    pub content: Seq<char>,
    pub created_at: i64,
    pub tool_calls: Seq<ToolCallModel>,
}

impl View for ChatMessage {
    type V = MessageModel;

    open spec fn view(&self) -> MessageModel {
        MessageModel {
            id: self.id,
            role: self.role,
            content: self.content@,
            created_at: self.created_at,
            tool_calls: self.tool_calls.deep_view(),
        }
    }
}

impl DeepView for ChatMessage {
    type V = MessageModel;

    open spec fn deep_view(&self) -> MessageModel {
        self.view()
    }
}

impl ChatMessage {
    /// Builds a message with a fresh identifier, stamped with the current
    /// clock reading and no tool calls.
    pub fn new(role: MessageRole, content: &str) -> (r: ChatMessage)
        ensures
            r@.role == role,
            r@.content == content@,
            r@.tool_calls.len() == 0,
    {
        ChatMessage {
            id: fresh_id(),
            role,
            content: content.to_owned(),
            created_at: now_millis(),
            tool_calls: Vec::new(),
        }
    }
}

/// A titled, ordered sequence of chat messages.
#[derive(Clone, Debug)]
pub struct Conversation {
    pub id: u128,
    pub title: String,
    pub created_at: i64,
    pub updated_at: i64,
    pub messages: Vec<ChatMessage>,
}

/// The model of a [`Conversation`].
pub ghost struct ConversationModel {
    pub id: u128,
    pub title: Seq<char>,
    pub created_at: i64,
    pub updated_at: i64,
    pub messages: Seq<MessageModel>,
}

impl View for Conversation {
    type V = ConversationModel;

    open spec fn view(&self) -> ConversationModel {
        ConversationModel {
            id: self.id,
            title: self.title@,
            created_at: self.created_at,
            updated_at: self.updated_at,
            messages: self.messages.deep_view(),
        }
    }
}

impl DeepView for Conversation {
    type V = ConversationModel;

    open spec fn deep_view(&self) -> ConversationModel {
        self.view()
    }
}

/// The length at which a derived title is cut.
pub open spec fn title_limit() -> int {
    42
}

/// The title derived from a first user message: the trimmed content, cut to
/// [`title_limit`] characters with an ellipsis marker appended when the
/// trimmed content reaches the limit.
pub open spec fn snippet_spec(content: Seq<char>) -> Seq<char> {
    let t = trim_spec(content);
    if t.len() < title_limit() {
        t
    } else {
        t.take(title_limit()).push('\u{2026}')
    }
}

/// Derives a conversation title from message content.
pub fn snippet(content: &str) -> (r: String)
    ensures
        r@ == snippet_spec(content@),
{
    let trimmed = crate::strutil::trim(content);
    let chars = to_chars(trimmed.as_str());
    if chars.len() < 42 {
        trimmed
    } else {
        let mut out: Vec<char> = Vec::new();
        let mut i: usize = 0;
        while i < 42
            invariant
                i <= 42,
                chars@.len() >= 42,
                chars@ == trim_spec(content@),
                out@ == chars@.take(i as int),
            decreases 42 - i,
        {
            out.push(chars[i]);
            i += 1;
            assert(chars@.take(i as int) =~= chars@.take(i as int - 1).push(chars@[i as int - 1]));
        }
        out.push('\u{2026}');
        from_chars(out.as_slice())
    }
}

/// The relation between a conversation's model before and after one append.
///
/// The message sequence grows by exactly the appended message, `updated_at`
/// never moves backwards, and the title changes only when a first user
/// message names the conversation.
pub open spec fn appended(pre: ConversationModel, post: ConversationModel, m: MessageModel) -> bool {
    &&& post.id == pre.id
    &&& post.created_at == pre.created_at
    &&& post.messages == pre.messages.push(m)
    &&& post.updated_at >= pre.updated_at
    &&& (pre.messages.len() == 0 && m.role == MessageRole::User ==> post.title == snippet_spec(
        m.content,
    ))
    &&& (!(pre.messages.len() == 0 && m.role == MessageRole::User) ==> post.title == pre.title)
}

impl Conversation {
    /// Starts an empty conversation with a fresh identifier and the default
    /// title.
    pub fn new() -> (r: Conversation)
        ensures
            r@.title == "New chat"@,
            r@.messages.len() == 0,
            r@.created_at == r@.updated_at,
    {
        let now = now_millis();
        Conversation {
            id: fresh_id(),
            title: "New chat".to_owned(),
            created_at: now,
            updated_at: now,
            messages: Vec::new(),
        }
    }

    /// Starts an empty conversation under a caller-chosen identifier and
    /// title, as used when replaying a stored transcript.
    pub fn with_id(id: u128, title: &str) -> (r: Conversation)
        ensures
            r@.id == id,
            r@.title == title@,
            r@.messages.len() == 0,
            r@.created_at == r@.updated_at,
    {
        let now = now_millis();
        Conversation {
            id,
            title: title.to_owned(),
            created_at: now,
            updated_at: now,
            messages: Vec::new(),
        }
    }

    /// Appends one message, advancing `updated_at` monotonically and deriving
    /// the title from a first user message. Returns whether the title changed.
    pub fn add_message(&mut self, message: ChatMessage) -> (title_changed: bool)
        ensures
            appended(old(self)@, final(self)@, message@),
            title_changed == (old(self)@.messages.len() == 0 && message@.role
                == MessageRole::User),
    {
        let title_changed = self.messages.len() == 0 && message.role == MessageRole::User;
        if title_changed {
            self.title = snippet(message.content.as_str());
        }
        proof {
            assert(self.messages.deep_view() =~= old(self).messages.deep_view());
        }
        let ghost pre_msgs = self.messages.deep_view();
        self.messages.push(message);
        proof {
            assert(self.messages.deep_view() =~= pre_msgs.push(self.messages@.last()@));
        }
        let now = now_millis();
        if now > self.updated_at {
            self.updated_at = now;
        }
        title_changed
    }
}

/// A read-only projection of a conversation for list display.
#[derive(Clone, Debug)]
pub struct ConversationSummary {
    pub id: u128,
    pub title: String,
    pub updated_at: i64,
    pub message_count: usize,
}

/// The model of a [`ConversationSummary`].
pub ghost struct SummaryModel {
    pub id: u128,
    pub title: Seq<char>,
    pub updated_at: i64,
    pub message_count: int,
}

impl View for ConversationSummary {
    type V = SummaryModel;

    open spec fn view(&self) -> SummaryModel {
        SummaryModel {
            id: self.id,
            title: self.title@,
            updated_at: self.updated_at,
            message_count: self.message_count as int,
        }
    }
}

impl DeepView for ConversationSummary {
    type V = SummaryModel;

    open spec fn deep_view(&self) -> SummaryModel {
        self.view()
    }
}

/// The summary a conversation model projects to.
pub open spec fn summary_of(c: ConversationModel) -> SummaryModel {
    SummaryModel { id: c.id, title: c.title, updated_at: c.updated_at, message_count: c.messages.len() as int }
}

// ---------------------------------------------------------------------------
// The conversation store
// ---------------------------------------------------------------------------

/// The first position of the conversation with identifier `id`, or `-1`.
pub open spec fn index_of(cs: Seq<ConversationModel>, id: u128) -> int
    decreases cs.len(),
{
    if cs.len() == 0 {
        -1
    } else if cs[0].id == id {
        0
    } else {
        let r = index_of(cs.drop_first(), id);
        if r < 0 {
            -1
        } else {
            1 + r
        }
    }
}

pub proof fn lemma_index_of(cs: Seq<ConversationModel>, id: u128)
    ensures
        -1 <= index_of(cs, id) < cs.len(),
        index_of(cs, id) >= 0 ==> cs[index_of(cs, id)].id == id,
        forall|j: int| 0 <= j < index_of(cs, id) ==> (#[trigger] cs[j]).id != id,
        index_of(cs, id) < 0 ==> forall|j: int| 0 <= j < cs.len() ==> (#[trigger] cs[j]).id != id,
    decreases cs.len(),
{
    if cs.len() > 0 && cs[0].id != id {
        lemma_index_of(cs.drop_first(), id);
        assert forall|j: int| 0 <= j < index_of(cs, id) implies (#[trigger] cs[j]).id != id by {
            if j > 0 {
                assert(cs.drop_first()[j - 1] == cs[j]);
            }
        }
        if index_of(cs, id) < 0 {
            assert forall|j: int| 0 <= j < cs.len() implies (#[trigger] cs[j]).id != id by {
                if j > 0 {
                    assert(cs.drop_first()[j - 1] == cs[j]);
                }
            }
        }
    }
}

/// Some conversation carries `id` exactly when `index_of` finds one.
pub proof fn lemma_index_of_exists(cs: Seq<ConversationModel>, id: u128, j: int)
    requires
        0 <= j < cs.len(),
        cs[j].id == id,
    ensures
        0 <= index_of(cs, id) <= j,
{
    lemma_index_of(cs, id);
    if index_of(cs, id) < 0 || index_of(cs, id) > j {
        assert(cs[j].id != id);
    }
}

/// The model of an [`AppState`].
pub ghost struct AppStateModel {
    pub conversations: Seq<ConversationModel>,
    pub current_session: Option<u128>,
    pub store: Seq<char>,
    pub llm: crate::llm::DriverModel,
}

/// The store invariant: a selected identifier always names a present
/// conversation, and the driver is one of this crate's.
pub open spec fn state_wf(m: AppStateModel) -> bool {
    &&& (m.current_session matches Some(id) ==> index_of(m.conversations, id) >= 0)
    &&& crate::llm::driver_wf(m.llm)
}

/// The conversation shown to the user: the selected one, falling back to the
/// newest when nothing is selected.
pub open spec fn active_of(m: AppStateModel) -> Option<ConversationModel> {
    match m.current_session {
        Some(id) => if index_of(m.conversations, id) >= 0 {
            Some(m.conversations[index_of(m.conversations, id)])
        } else {
            None
        },
        None => if m.conversations.len() > 0 {
            Some(m.conversations[0])
        } else {
            None
        },
    }
}

/// A machine limit: every conversation is short enough for the mock usage
/// arithmetic to stay inside `usize`.
pub open spec fn history_bound(m: AppStateModel) -> bool {
    forall|i: int|
        0 <= i < m.conversations.len() ==> (#[trigger] m.conversations[i]).messages.len() * 10 + 20
            <= usize::MAX
}

/// What one send returns: the persistence writes to perform, in order, and
/// the failure if the driver could not complete.
pub struct SendOutcome {
    pub actions: Vec<crate::store::PersistAction>,
    pub error: Option<crate::llm::LlmError>,
}

/// What one streamed send returns: the assistant message identifier
/// allocated up front, every chunk to relay, the persistence writes, and the
/// failure if the stream could not be opened.
pub struct StreamOutcome {
    pub assistant_id: u128,
    pub chunks: Vec<crate::llm::StreamChunk>,
    pub actions: Vec<crate::store::PersistAction>,
    pub error: Option<crate::llm::LlmError>,
}

/// Witness data for one send: which conversation received it, its state
/// before the send and after the user message.
pub ghost struct SendRecord {
    pub idx: int,
    pub base: ConversationModel,
    pub mid: ConversationModel,
    pub user: MessageModel,
}

/// Which conversation a send lands in: the selected one, else the first,
/// else a freshly created empty one.
pub open spec fn picked_base(
    pre: AppStateModel,
    post: AppStateModel,
    idx: int,
    base: ConversationModel,
) -> bool {
    if pre.conversations.len() == 0 {
        &&& idx == 0
        &&& post.conversations.len() == 1
        &&& base.messages.len() == 0
        &&& base.title == "New chat"@
    } else {
        &&& idx == (match pre.current_session {
            Some(id) => if index_of(pre.conversations, id) >= 0 {
                index_of(pre.conversations, id)
            } else {
                0
            },
            None => 0,
        })
        &&& post.conversations.len() == pre.conversations.len()
        &&& base == pre.conversations[idx]
        &&& forall|j: int|
            0 <= j < pre.conversations.len() && j != idx ==> post.conversations[j]
                == pre.conversations[j]
    }
}

/// A user message as a send constructs it.
pub open spec fn user_message_of(m: MessageModel, content: Seq<char>) -> bool {
    &&& m.role == MessageRole::User
    &&& m.content == content
    &&& m.tool_calls.len() == 0
}

/// The writes planned for appending `m` to conversation `id`: the log line,
/// plus the metadata write when the append renamed the conversation.
pub open spec fn append_actions(
    store: Seq<char>,
    id: u128,
    m: MessageModel,
    title_changed: bool,
    title: Seq<char>,
) -> Seq<crate::store::ActionModel> {
    seq![
        crate::store::ActionModel::AppendLine {
            path: crate::store::transcript_path_spec(store, id),
            line: crate::codec::enc_message(m) + "\n"@,
        },
    ] + (if title_changed {
        seq![
            crate::store::ActionModel::WriteFile {
                path: crate::store::metadata_path_spec(store, id),
                contents: crate::codec::enc_metadata(title),
            },
        ]
    } else {
        Seq::empty()
    })
}

/// The whole relation of one non-blank send: the user message is appended to
/// the picked conversation and planned for persistence; on success the
/// deterministic reply to the updated history follows it; on failure the
/// user message stays with no reply.
pub open spec fn send_shape(
    pre: AppStateModel,
    post: AppStateModel,
    content: Seq<char>,
    model: Seq<char>,
    temperature: Seq<char>,
    w: SendRecord,
    actions: Seq<crate::store::ActionModel>,
    error: Option<crate::llm::LlmError>,
    assistant_id: Option<u128>,
) -> bool {
    &&& picked_base(pre, post, w.idx, w.base)
    &&& 0 <= w.idx < post.conversations.len()
    &&& user_message_of(w.user, content)
    &&& appended(w.base, w.mid, w.user)
    &&& w.mid.id == w.base.id
    &&& post.current_session == Some(post.conversations[w.idx].id)
    &&& match error {
        None => {
            &&& pre.llm.config is Some
            &&& exists|asst: MessageModel|
                {
                    &&& appended(w.mid, post.conversations[w.idx], asst)
                    &&& asst.role == MessageRole::Assistant
                    &&& asst.content == crate::llm::mock_reply(
                        "Mock"@,
                        w.mid.messages,
                        Some(model),
                        Some(temperature),
                    )
                    &&& asst.tool_calls.len() == 0
                    &&& (assistant_id matches Some(aid) ==> asst.id == aid)
                    &&& actions == append_actions(
                        pre.store,
                        w.mid.id,
                        w.user,
                        w.base.messages.len() == 0,
                        w.mid.title,
                    ) + append_actions(pre.store, w.mid.id, asst, false, post.conversations[w.idx].title)
                }
        },
        Some(e) => {
            &&& pre.llm.config is None
            &&& pre.llm.status == crate::llm::StatusModel::Unconfigured(e.message@)
            &&& post.conversations[w.idx] == w.mid
            &&& actions == append_actions(
                pre.store,
                w.mid.id,
                w.user,
                w.base.messages.len() == 0,
                w.mid.title,
            )
        },
    }
}

/// Finds the first conversation with identifier `id`.
fn find_conversation(cs: &Vec<Conversation>, id: u128) -> (r: Option<usize>)
    ensures
        match r {
            Some(i) => i as int == index_of(cs.deep_view(), id) && i < cs@.len(),
            None => index_of(cs.deep_view(), id) < 0,
        },
{
    let ghost dv = cs.deep_view();
    let n = cs.len();
    let mut i: usize = 0;
    while i < n
        invariant
            i <= n,
            n == cs@.len(),
            dv == cs.deep_view(),
            forall|j: int| 0 <= j < i ==> (#[trigger] dv[j]).id != id,
        decreases n - i,
    {
        if cs[i].id == id {
            proof {
                assert(dv[i as int] == cs@[i as int]@);
                lemma_index_of_exists(dv, id, i as int);
                lemma_index_of(dv, id);
                if index_of(dv, id) < i as int {
                    assert(dv[index_of(dv, id)].id != id);
                }
            }
            return Some(i);
        }
        proof {
            assert(dv[i as int] == cs@[i as int]@);
        }
        i += 1;
    }
    proof {
        lemma_index_of(dv, id);
        if index_of(dv, id) >= 0 {
            assert(dv[index_of(dv, id)].id != id);
        }
    }
    None
}

/// The in-memory authoritative collection of conversations, the selection
/// pointer, and the orchestration that ties user input to persistence and to
/// the model driver. Persistence is planned as actions; the caller performs
/// them and guards the whole value with its own lock.
pub struct AppState {
    conversations: Vec<Conversation>,
    current_session: Option<u128>,
    store: crate::store::TranscriptStore,
    llm: crate::llm::LlmDriver,
}

impl View for AppState {
    type V = AppStateModel;

    closed spec fn view(&self) -> AppStateModel {
        AppStateModel {
            conversations: self.conversations.deep_view(),
            current_session: self.current_session,
            store: self.store@,
            llm: self.llm@,
        }
    }
}

impl AppState {
    /// A store over already-loaded conversations: the newest one starts out
    /// selected.
    pub fn with_store(
        store: crate::store::TranscriptStore,
        llm: crate::llm::LlmDriver,
        conversations: Vec<Conversation>,
    ) -> (r: AppState)
        requires
            crate::llm::driver_wf(llm@),
        ensures
            r@.conversations == conversations.deep_view(),
            r@.store == store@,
            r@.llm == llm@,
            r@.current_session == (if conversations.deep_view().len() > 0 {
                Some(conversations.deep_view()[0].id)
            } else {
                None::<u128>
            }),
            state_wf(r@),
    {
        let current_session = if conversations.len() > 0 {
            Some(conversations[0].id)
        } else {
            None
        };
        proof {
            let dv = conversations.deep_view();
            if dv.len() > 0 {
                assert(dv[0] == conversations@[0]@);
                lemma_index_of_exists(dv, dv[0].id, 0);
            }
        }
        AppState { conversations, current_session, store, llm }
    }

    /// A fresh projection of every conversation, newest ordering preserved.
    /// The caller sees no later updates until it asks again.
    pub fn conversation_summaries(&self) -> (r: Vec<ConversationSummary>)
        ensures
            r.deep_view().len() == self@.conversations.len(),
            forall|i: int|
                0 <= i < r@.len() ==> r.deep_view()[i] == summary_of(
                    #[trigger] self@.conversations[i],
                ),
    {
        let n = self.conversations.len();
        let mut r: Vec<ConversationSummary> = Vec::new();
        let mut i: usize = 0;
        while i < n
            invariant
                i <= n,
                n == self.conversations@.len(),
                r@.len() == i,
                forall|j: int|
                    0 <= j < i ==> r.deep_view()[j] == summary_of(
                        #[trigger] self.conversations.deep_view()[j],
                    ),
            decreases n - i,
    {
            let c = &self.conversations[i];
            let ghost prev = r.deep_view();
            r.push(
                ConversationSummary {
                    id: c.id,
                    title: c.title.clone(),
                    updated_at: c.updated_at,
                    message_count: c.messages.len(),
                },
            );
            proof {
                assert(self.conversations.deep_view()[i as int] == self.conversations@[i as int]@);
                assert forall|j: int| 0 <= j < i + 1 implies r.deep_view()[j] == summary_of(
                    #[trigger] self.conversations.deep_view()[j],
                ) by {
                    if j < i as int {
                        assert(r.deep_view()[j] == prev[j]);
                    }
                }
            }
            i += 1;
        }
        r
    }

    /// A clone of the active conversation, messages included.
    pub fn active_conversation(&self) -> (r: Option<Conversation>)
        ensures
            match r {
                Some(c) => active_of(self@) == Some(c@),
                None => active_of(self@) is None,
            },
    {
        match self.current_session {
            Some(id) => match find_conversation(&self.conversations, id) {
                Some(i) => {
                    let c = clone_conversation(&self.conversations[i]);
                    proof {
                        assert(self.conversations.deep_view()[i as int]
                            == self.conversations@[i as int]@);
                    }
                    Some(c)
                },
                None => None,
            },
            None => {
                if self.conversations.len() > 0 {
                    let c = clone_conversation(&self.conversations[0]);
                    proof {
                        assert(self.conversations.deep_view()[0] == self.conversations@[0]@);
                    }
                    Some(c)
                } else {
                    None
                }
            },
        }
    }

    /// Changes the selection; unknown identifiers are ignored.
    pub fn select_conversation(&mut self, id: u128)
        requires
            state_wf(old(self)@),
        ensures
            final(self)@.conversations == old(self)@.conversations,
            final(self)@.store == old(self)@.store,
            final(self)@.llm == old(self)@.llm,
            final(self)@.current_session == (if index_of(old(self)@.conversations, id) >= 0 {
                Some(id)
            } else {
                old(self)@.current_session
            }),
            state_wf(final(self)@),
    {
        if let Some(_) = find_conversation(&self.conversations, id) {
            self.current_session = Some(id);
        }
    }

    /// Creates an empty conversation, makes it the newest and the selected
    /// one, and plans its metadata write.
    pub fn start_new_conversation(&mut self) -> (r: (u128, crate::store::PersistAction))
        requires
            state_wf(old(self)@),
        ensures
            final(self)@.store == old(self)@.store,
            final(self)@.llm == old(self)@.llm,
            final(self)@.conversations.len() == old(self)@.conversations.len() + 1,
            final(self)@.conversations[0].id == r.0,
            final(self)@.conversations[0].messages.len() == 0,
            final(self)@.conversations[0].title == "New chat"@,
            final(self)@.conversations.skip(1) == old(self)@.conversations,
            final(self)@.current_session == Some(r.0),
            r.1@ == (crate::store::ActionModel::WriteFile {
                path: crate::store::metadata_path_spec(old(self)@.store, r.0),
                contents: crate::codec::enc_metadata("New chat"@),
            }),
            state_wf(final(self)@),
    {
        let c = Conversation::new();
        let id = c.id;
        let action = self.store.persist_metadata(&c);
        let ghost pre = self.conversations.deep_view();
        self.conversations.insert(0, c);
        self.current_session = Some(id);
        proof {
            assert(self.conversations.deep_view()[0] == self.conversations@[0]@);
            assert(self.conversations.deep_view().skip(1) =~= pre);
            lemma_index_of_exists(self.conversations.deep_view(), id, 0);
        }
        (id, action)
    }

    /// Renames a conversation in memory and plans the metadata write; an
    /// unknown identifier is a no-op, not an error.
    pub fn rename_conversation(&mut self, id: u128, title: &str) -> (r: Option<
        crate::store::PersistAction,
    >)
        requires
            state_wf(old(self)@),
        ensures
            final(self)@.store == old(self)@.store,
            final(self)@.llm == old(self)@.llm,
            final(self)@.current_session == old(self)@.current_session,
            state_wf(final(self)@),
            ({
                let idx = index_of(old(self)@.conversations, id);
                if idx >= 0 {
                    &&& final(self)@.conversations.len() == old(self)@.conversations.len()
                    &&& final(self)@.conversations[idx].id == id
                    &&& final(self)@.conversations[idx].title == title@
                    &&& final(self)@.conversations[idx].messages == old(
                        self,
                    )@.conversations[idx].messages
                    &&& final(self)@.conversations[idx].created_at == old(
                        self,
                    )@.conversations[idx].created_at
                    &&& final(self)@.conversations[idx].updated_at == old(
                        self,
                    )@.conversations[idx].updated_at
                    &&& (forall|j: int|
                        0 <= j < old(self)@.conversations.len() && j != idx
                            ==> final(self)@.conversations[j] == old(self)@.conversations[j])
                    &&& r matches Some(a) && a@ == (crate::store::ActionModel::WriteFile {
                        path: crate::store::metadata_path_spec(old(self)@.store, id),
                        contents: crate::codec::enc_metadata(title@),
                    })
                } else {
                    final(self)@ == old(self)@ && r is None
                }
            }),
    {
        match find_conversation(&self.conversations, id) {
            Some(i) => {
                let ghost pre = self.conversations.deep_view();
                let mut c = self.conversations.remove(i);
                c.title = title.to_owned();
                let action = self.store.persist_metadata(&c);
                self.conversations.insert(i, c);
                proof {
                    let post = self.conversations.deep_view();
                    assert forall|j: int|
                        0 <= j < pre.len() && j != i as int implies post[j] == pre[j] by {
                        assert(post[j] == self.conversations@[j]@);
                    }
                    assert(post[i as int] == self.conversations@[i as int]@);
                    assert(post.len() == pre.len());
                    lemma_index_of(pre, id);
                    match old(self)@.current_session {
                        Some(cid) => {
                            lemma_index_of(pre, cid);
                            let k = index_of(pre, cid);
                            assert(pre[k].id == cid);
                            assert(post[k].id == cid);
                            lemma_index_of_exists(post, cid, k);
                        },
                        None => {},
                    }
                }
                Some(action)
            },
            None => None,
        }
    }

    /// What deleting conversation `id` does to the model.
    pub open spec fn deleted_shape(pre: AppStateModel, post: AppStateModel, id: u128) -> bool {
        let idx = index_of(pre.conversations, id);
        if idx >= 0 {
            &&& post.conversations == pre.conversations.take(idx) + pre.conversations.skip(idx + 1)
            &&& post.current_session == (if pre.current_session == Some(id) {
                if post.conversations.len() > 0 {
                    Some(post.conversations[0].id)
                } else {
                    None::<u128>
                }
            } else {
                pre.current_session
            })
        } else {
            post == pre
        }
    }

    /// Deletes a conversation: the store forgets it first, then the caller
    /// performs the planned file removals. Returns whether deletion occurred.
    /// Selection falls back to the newest remaining conversation.
    pub fn delete_conversation(&mut self, id: u128) -> (r: (bool, Vec<crate::store::PersistAction>))
        requires
            state_wf(old(self)@),
        ensures
            final(self)@.store == old(self)@.store,
            final(self)@.llm == old(self)@.llm,
            Self::deleted_shape(old(self)@, final(self)@, id),
            r.0 == (index_of(old(self)@.conversations, id) >= 0),
            r.0 ==> r.1.deep_view() =~= seq![
                crate::store::ActionModel::RemoveFile {
                    path: crate::store::transcript_path_spec(old(self)@.store, id),
                },
                crate::store::ActionModel::RemoveFile {
                    path: crate::store::metadata_path_spec(old(self)@.store, id),
                },
            ],
            !r.0 ==> r.1@.len() == 0,
            state_wf(final(self)@),
    {
        match find_conversation(&self.conversations, id) {
            Some(i) => {
                let ghost pre = self.conversations.deep_view();
                let _ = self.conversations.remove(i);
                proof {
                    assert(self.conversations.deep_view() =~= pre.take(i as int) + pre.skip(
                        i as int + 1,
                    )) by {
                        assert forall|j: int|
                            0 <= j < self.conversations.deep_view().len() implies self.conversations.deep_view()[j]
                            == (pre.take(i as int) + pre.skip(i as int + 1))[j] by {
                            assert(self.conversations.deep_view()[j]
                                == self.conversations@[j]@);
                        }
                    }
                }
                let same = match self.current_session {
                    Some(cur) => cur == id,
                    None => false,
                };
                if same {
                    if self.conversations.len() > 0 {
                        self.current_session = Some(self.conversations[0].id);
                        proof {
                            assert(self.conversations.deep_view()[0]
                                == self.conversations@[0]@);
                            lemma_index_of_exists(
                                self.conversations.deep_view(),
                                self.conversations@[0]@.id,
                                0,
                            );
                        }
                    } else {
                        self.current_session = None;
                    }
                } else {
                    proof {
                        let post = self.conversations.deep_view();
                        match old(self)@.current_session {
                            Some(cid) => {
                                lemma_index_of(pre, cid);
                                let k = index_of(pre, cid);
                                assert(pre[k].id == cid);
                                lemma_index_of(pre, id);
                                assert(pre[i as int].id == id);
                                assert(k != i as int);
                                if k < i as int {
                                    assert(post[k] == pre[k]);
                                    lemma_index_of_exists(post, cid, k);
                                } else {
                                    assert(post[k - 1] == pre[k]);
                                    lemma_index_of_exists(post, cid, k - 1);
                                }
                            },
                            None => {},
                        }
                    }
                }
                (true, self.store.delete_conversation(id))
            },
            None => (false, Vec::new()),
        }
    }

    /// Moves the dragged conversation to the target's resulting position; a
    /// missing identifier or a drag onto itself is a no-op.
    pub fn reorder_conversations(&mut self, dragged: u128, target: u128)
        requires
            state_wf(old(self)@),
        ensures
            final(self)@.store == old(self)@.store,
            final(self)@.llm == old(self)@.llm,
            final(self)@.current_session == old(self)@.current_session,
            state_wf(final(self)@),
            ({
                let from = index_of(old(self)@.conversations, dragged);
                let to0 = index_of(old(self)@.conversations, target);
                if from >= 0 && to0 >= 0 && from != to0 {
                    let removed = old(self)@.conversations.take(from) + old(
                        self,
                    )@.conversations.skip(from + 1);
                    let to = if from < to0 {
                        to0 - 1
                    } else {
                        to0
                    };
                    final(self)@.conversations == removed.take(to) + seq![
                        old(self)@.conversations[from],
                    ] + removed.skip(to)
                } else {
                    final(self)@.conversations == old(self)@.conversations
                }
            }),
    {
        let from_idx = find_conversation(&self.conversations, dragged);
        let to_idx = find_conversation(&self.conversations, target);
        match (from_idx, to_idx) {
            (Some(from), Some(mut to)) => {
                if from == to {
                    return;
                }
                let ghost pre = self.conversations.deep_view();
                let c = self.conversations.remove(from);
                let ghost cm = c@;
                let ghost removed = self.conversations.deep_view();
                if from < to {
                    to = to - 1;
                }
                self.conversations.insert(to, c);
                proof {
                    assert(removed =~= pre.take(from as int) + pre.skip(from as int + 1)) by {
                        assert forall|j: int| 0 <= j < removed.len() implies removed[j] == (
                        pre.take(from as int) + pre.skip(from as int + 1))[j] by {}
                    }
                    let post = self.conversations.deep_view();
                    assert(post =~= removed.take(to as int) + seq![cm] + removed.skip(to as int))
                        by {
                        assert forall|j: int| 0 <= j < post.len() implies post[j] == (
                        removed.take(to as int) + seq![cm] + removed.skip(to as int))[j] by {
                            assert(post[j] == self.conversations@[j]@);
                        }
                    }
                    match old(self)@.current_session {
                        Some(cid) => {
                            lemma_index_of(pre, cid);
                            let k = index_of(pre, cid);
                            assert(pre[k].id == cid);
                            if k == from as int {
                                lemma_index_of_exists(post, cid, to as int);
                            } else {
                                let kr = if k < from as int {
                                    k
                                } else {
                                    k - 1
                                };
                                assert(removed[kr] == pre[k]);
                                let kp = if kr < to as int {
                                    kr
                                } else {
                                    kr + 1
                                };
                                assert(post[kp] == removed[kr]);
                                lemma_index_of_exists(post, cid, kp);
                            }
                        },
                        None => {},
                    }
                }
            },
            _ => {},
        }
    }

    /// Whether the system can send.
    pub fn llm_status(&self) -> (r: crate::llm::LlmStatus)
        ensures
            r@ == self@.llm.status,
    {
        self.llm.status()
    }

    /// Ensures a conversation is there to receive a send, per the selection
    /// fallback, and selects it. Returns its position.
    fn ensure_conversation(&mut self) -> (r: usize)
        requires
            state_wf(old(self)@),
            history_bound(old(self)@),
        ensures
            final(self)@.store == old(self)@.store,
            final(self)@.llm == old(self)@.llm,
            r < final(self)@.conversations.len(),
            picked_base(old(self)@, final(self)@, r as int, final(self)@.conversations[r as int]),
            (old(self)@.conversations.len() > 0 ==> final(self)@.conversations == old(
                self,
            )@.conversations),
            final(self)@.current_session == Some(final(self)@.conversations[r as int].id),
            final(self)@.conversations[r as int].messages.len() * 10 + 20 <= usize::MAX,
            state_wf(final(self)@),
            history_bound(final(self)@),
    {
        let ghost pre = self.conversations.deep_view();
        if let Some(id) = self.current_session {
            if let Some(i) = find_conversation(&self.conversations, id) {
                proof {
                    lemma_index_of(pre, id);
                }
                return i;
            }
        }
        if self.conversations.len() == 0 {
            let c = Conversation::new();
            let ghost cm = c@;
            self.conversations.push(c);
            proof {
                assert(self.conversations.deep_view() =~= seq![cm]);
            }
        }
        let id = self.conversations[0].id;
        self.current_session = Some(id);
        proof {
            assert(self.conversations.deep_view()[0] == self.conversations@[0]@);
            lemma_index_of_exists(self.conversations.deep_view(), id, 0);
        }
        0
    }

    /// One whole non-streaming send, as spec'd by [`send_shape`]: a blank
    /// message is a complete no-op; otherwise the user message is appended
    /// and planned for persistence, the driver answers the updated history,
    /// and on success the reply is appended and planned too. On failure the
    /// user message stays, unreverted, as the visible failure signal.
    #[verifier::rlimit(100)]
    #[verifier::spinoff_prover]
    pub fn send_user_message(&mut self, content: &str, model: &str, temperature: &str) -> (r:
        SendOutcome)
        requires
            state_wf(old(self)@),
            history_bound(old(self)@),
        ensures
            final(self)@.store == old(self)@.store,
            final(self)@.llm == old(self)@.llm,
            state_wf(final(self)@),
            crate::strutil::is_blank(content@) ==> final(self)@ == old(self)@ && r.actions@.len()
                == 0 && r.error is None,
            !crate::strutil::is_blank(content@) ==> exists|w: SendRecord|
                send_shape(
                    old(self)@,
                    final(self)@,
                    content@,
                    model@,
                    temperature@,
                    w,
                    r.actions.deep_view(),
                    r.error,
                    None,
                ),
    {
        if crate::strutil::blank(content) {
            return SendOutcome { actions: Vec::new(), error: None };
        }
        let idx = self.ensure_conversation();
        let ghost base = self@.conversations[idx as int];
        let message = ChatMessage::new(MessageRole::User, content);
        let ghost user_m = message@;
        let mut actions: Vec<crate::store::PersistAction> = Vec::new();
        let ghost pre_all = self.conversations.deep_view();
        let mut conv = self.conversations.remove(idx);
        proof {
            assert(conv@ == pre_all[idx as int]);
            assert(conv@ == base);
        }
        actions.push(self.store.append_message(conv.id, &message));
        let title_changed = conv.add_message(message);
        if title_changed {
            actions.push(self.store.persist_metadata(&conv));
        }
        let ghost mid = conv@;
        let ghost acts1 = actions.deep_view();
        proof {
            assert(acts1 =~= append_actions(
                self@.store,
                mid.id,
                user_m,
                base.messages.len() == 0,
                mid.title,
            ));
            assert(conv@.messages == base.messages.push(user_m));
            assert(conv.messages.deep_view().len() == base.messages.len() + 1);
        }
        let ghost mut asst_m: MessageModel = vstd::pervasive::arbitrary();
        let result = self.llm.respond(&conv.messages, Some(model), Some(temperature));
        let outcome = match result {
            Ok(response) => {
                actions.push(self.store.append_message(conv.id, &response.message));
                proof {
                    asst_m = response.message@;
                }
                let t2 = conv.add_message(response.message);
                if t2 {
                    actions.push(self.store.persist_metadata(&conv));
                }
                proof {
                    assert(actions.deep_view() =~= acts1 + append_actions(
                        self@.store,
                        mid.id,
                        asst_m,
                        false,
                        conv@.title,
                    ));
                }
                SendOutcome { actions, error: None }
            },
            Err(e) => SendOutcome { actions, error: Some(e) },
        };
        let ghost fin = conv@;
        self.conversations.insert(idx, conv);
        proof {
            let post = self.conversations.deep_view();
            assert(post.len() == pre_all.len());
            assert(post[idx as int] == fin);
            assert forall|j: int| 0 <= j < post.len() && j != idx as int implies post[j]
                == pre_all[j] by {
                assert(post[j] == self.conversations@[j]@);
            }
            lemma_index_of_exists(post, fin.id, idx as int);
            let w = SendRecord { idx: idx as int, base, mid, user: user_m };
            assert(picked_base(old(self)@, self@, idx as int, base));
            assert(user_message_of(w.user, content@));
            assert(appended(w.base, w.mid, w.user));
            assert(self@.current_session == Some(self@.conversations[w.idx].id));
            if outcome.error is None {
                assert(appended(w.mid, post[idx as int], asst_m));
                assert(old(self)@.llm.config is Some);
                assert(exists|asst: MessageModel|
                    {
                        &&& appended(w.mid, post[idx as int], asst)
                        &&& asst.role == MessageRole::Assistant
                        &&& asst.content == crate::llm::mock_reply(
                            "Mock"@,
                            w.mid.messages,
                            Some(model@),
                            Some(temperature@),
                        )
                        &&& asst.tool_calls.len() == 0
                        &&& (None::<u128> matches Some(aid) ==> asst.id == aid)
                        &&& outcome.actions.deep_view() == append_actions(
                            old(self)@.store,
                            w.mid.id,
                            w.user,
                            w.base.messages.len() == 0,
                            w.mid.title,
                        ) + append_actions(
                            old(self)@.store,
                            w.mid.id,
                            asst,
                            false,
                            post[idx as int].title,
                        )
                    });
            } else {
                assert(old(self)@.llm.config is None);
                assert(post[idx as int] == w.mid);
                assert(outcome.actions.deep_view() == append_actions(
                    old(self)@.store,
                    w.mid.id,
                    w.user,
                    w.base.messages.len() == 0,
                    w.mid.title,
                ));
            }
            assert(send_shape(
                old(self)@,
                self@,
                content@,
                model@,
                temperature@,
                w,
                outcome.actions.deep_view(),
                outcome.error,
                None,
            ));
        }
        outcome
    }

    /// One whole streamed send: the same persistence and reply as
    /// [`Self::send_user_message`], but the reply is also handed back as the
    /// chunk stream the caller relays, and the assistant message carries the
    /// identifier allocated before the stream so the caller can correlate
    /// them. A blank message returns only the terminal chunk.
    #[verifier::rlimit(100)]
    #[verifier::spinoff_prover]
    pub fn send_user_message_streaming(&mut self, content: &str, model: &str, temperature: &str)
        -> (r: StreamOutcome)
        requires
            state_wf(old(self)@),
            history_bound(old(self)@),
        ensures
            final(self)@.store == old(self)@.store,
            final(self)@.llm == old(self)@.llm,
            state_wf(final(self)@),
            crate::strutil::is_blank(content@) ==> final(self)@ == old(self)@ && r.actions@.len()
                == 0 && r.error is None && r.chunks.deep_view() =~= seq![
                crate::llm::ChunkModel { delta: Seq::empty(), done: true },
            ],
            !crate::strutil::is_blank(content@) ==> exists|w: SendRecord|
                {
                    &&& send_shape(
                        old(self)@,
                        final(self)@,
                        content@,
                        model@,
                        temperature@,
                        w,
                        r.actions.deep_view(),
                        r.error,
                        Some(r.assistant_id),
                    )
                    &&& (r.error is None ==> r.chunks.deep_view() == crate::llm::mock_stream(
                        crate::llm::mock_reply(
                            "Mock"@,
                            w.mid.messages,
                            Some(model@),
                            Some(temperature@),
                        ),
                    ))
                },
    {
        if crate::strutil::blank(content) {
            let mut chunks: Vec<crate::llm::StreamChunk> = Vec::new();
            chunks.push(crate::llm::StreamChunk { delta: String::new(), done: true });
            return StreamOutcome {
                assistant_id: crate::ids::fresh_id(),
                chunks,
                actions: Vec::new(),
                error: None,
            };
        }
        let idx = self.ensure_conversation();
        let ghost base = self@.conversations[idx as int];
        let message = ChatMessage::new(MessageRole::User, content);
        let ghost user_m = message@;
        let mut actions: Vec<crate::store::PersistAction> = Vec::new();
        let ghost pre_all = self.conversations.deep_view();
        let mut conv = self.conversations.remove(idx);
        proof {
            assert(conv@ == pre_all[idx as int]);
            assert(conv@ == base);
        }
        actions.push(self.store.append_message(conv.id, &message));
        let title_changed = conv.add_message(message);
        if title_changed {
            actions.push(self.store.persist_metadata(&conv));
        }
        let ghost mid = conv@;
        let ghost acts1 = actions.deep_view();
        proof {
            assert(acts1 =~= append_actions(
                self@.store,
                mid.id,
                user_m,
                base.messages.len() == 0,
                mid.title,
            ));
            assert(conv@.messages == base.messages.push(user_m));
            assert(conv.messages.deep_view().len() == base.messages.len() + 1);
        }
        let ghost mut asst_m: MessageModel = vstd::pervasive::arbitrary();
        let assistant_id = crate::ids::fresh_id();
        let result = self.llm.respond_streaming(&conv.messages, Some(model), Some(temperature));
        let outcome = match result {
            Ok(chunks) => {
                let ghost reply = crate::llm::mock_reply(
                    "Mock"@,
                    mid.messages,
                    Some(model@),
                    Some(temperature@),
                );
                let mut acc = crate::stream::StreamAccumulator::new(conv.id, assistant_id);
                acc.drain(&chunks);
                proof {
                    crate::llm::lemma_stream_terminal(reply);
                    let dv = chunks.deep_view();
                    crate::stream::lemma_first_done_bounds(dv);
                    if crate::stream::first_done(dv) < 0 {
                        assert(dv.last().done);
                        assert(false);
                    }
                    assert(crate::stream::first_done(dv) == dv.len() - 1) by {
                        if crate::stream::first_done(dv) < dv.len() - 1 {
                            assert(!dv[crate::stream::first_done(dv)].done);
                        }
                    }
                    assert(dv.take(dv.len() - 1) =~= crate::llm::chunks_of(reply)) by {
                        assert(dv =~= crate::llm::chunks_of(reply).push(
                            crate::llm::ChunkModel { delta: Seq::empty(), done: true },
                        ));
                    }
                    crate::llm::lemma_streaming_equivalence(reply);
                    assert(crate::llm::accumulated(dv.take(dv.len() - 1)) =~= reply) by {
                        crate::llm::lemma_streaming_equivalence(reply);
                        assert(crate::llm::mock_stream(reply).take(
                            crate::llm::mock_stream(reply).len() - 1,
                        ) =~= crate::llm::chunks_of(reply));
                        lemma_accumulated_of_chunks_only(reply);
                    }
                    assert(Seq::<char>::empty() + reply =~= reply);
                }
                match acc.finalize() {
                    Some(assistant_message) => {
                        actions.push(self.store.append_message(conv.id, &assistant_message));
                        proof {
                            asst_m = assistant_message@;
                        }
                        let t2 = conv.add_message(assistant_message);
                        if t2 {
                            actions.push(self.store.persist_metadata(&conv));
                        }
                        proof {
                            assert(actions.deep_view() =~= acts1 + append_actions(
                                self@.store,
                                mid.id,
                                asst_m,
                                false,
                                conv@.title,
                            ));
                        }
                        StreamOutcome { assistant_id, chunks, actions, error: None }
                    },
                    None => {
                        proof {
                            assert(false);
                        }
                        StreamOutcome { assistant_id, chunks, actions, error: None }
                    },
                }
            },
            Err(e) => {
                let chunks: Vec<crate::llm::StreamChunk> = Vec::new();
                StreamOutcome { assistant_id, chunks, actions, error: Some(e) }
            },
        };
        let ghost fin = conv@;
        self.conversations.insert(idx, conv);
        proof {
            let post = self.conversations.deep_view();
            assert(post.len() == pre_all.len());
            assert(post[idx as int] == fin);
            assert forall|j: int| 0 <= j < post.len() && j != idx as int implies post[j]
                == pre_all[j] by {
                assert(post[j] == self.conversations@[j]@);
            }
            lemma_index_of_exists(post, fin.id, idx as int);
            let w = SendRecord { idx: idx as int, base, mid, user: user_m };
            assert(picked_base(old(self)@, self@, idx as int, base));
            if outcome.error is None {
                assert(appended(w.mid, post[idx as int], asst_m));
                assert(asst_m.id == outcome.assistant_id);
                assert(exists|asst: MessageModel|
                    {
                        &&& appended(w.mid, post[idx as int], asst)
                        &&& asst.role == MessageRole::Assistant
                        &&& asst.content == crate::llm::mock_reply(
                            "Mock"@,
                            w.mid.messages,
                            Some(model@),
                            Some(temperature@),
                        )
                        &&& asst.tool_calls.len() == 0
                        &&& (Some(outcome.assistant_id) matches Some(aid) ==> asst.id == aid)
                        &&& outcome.actions.deep_view() == append_actions(
                            old(self)@.store,
                            w.mid.id,
                            w.user,
                            w.base.messages.len() == 0,
                            w.mid.title,
                        ) + append_actions(
                            old(self)@.store,
                            w.mid.id,
                            asst,
                            false,
                            post[idx as int].title,
                        )
                    });
            } else {
                assert(old(self)@.llm.config is None);
                assert(post[idx as int] == w.mid);
                assert(outcome.actions.deep_view() == append_actions(
                    old(self)@.store,
                    w.mid.id,
                    w.user,
                    w.base.messages.len() == 0,
                    w.mid.title,
                ));
            }
            assert(user_message_of(w.user, content@));
            assert(appended(w.base, w.mid, w.user));
            assert(self@.current_session == Some(self@.conversations[w.idx].id));
            assert(send_shape(
                old(self)@,
                self@,
                content@,
                model@,
                temperature@,
                w,
                outcome.actions.deep_view(),
                outcome.error,
                Some(outcome.assistant_id),
            ));
        }
        outcome
    }
}

/// Accumulating the whole mock stream without its final marker also yields
/// the reply.
proof fn lemma_accumulated_of_chunks_only(s: Seq<char>)
    ensures
        crate::llm::accumulated(crate::llm::chunks_of(s)) == s,
{
    crate::llm::lemma_streaming_equivalence(s);
    let done = crate::llm::ChunkModel { delta: Seq::empty(), done: true };
    assert(crate::llm::mock_stream(s) =~= crate::llm::chunks_of(s) + seq![done]);
    crate::llm::lemma_accumulated_concat_pub(crate::llm::chunks_of(s), seq![done]);
    assert(crate::llm::accumulated(seq![done]) =~= Seq::<char>::empty()) by {
        assert(seq![done].drop_first() =~= Seq::<crate::llm::ChunkModel>::empty());
        assert(Seq::<char>::empty() + crate::llm::accumulated(
            Seq::<crate::llm::ChunkModel>::empty(),
        ) =~= Seq::<char>::empty());
    }
    assert(crate::llm::accumulated(crate::llm::chunks_of(s)) + Seq::<char>::empty()
        =~= crate::llm::accumulated(crate::llm::chunks_of(s)));
}

/// Cloning a conversation preserves its model.
fn clone_conversation(c: &Conversation) -> (r: Conversation)
    ensures
        r@ == c@,
{
    let mut messages: Vec<ChatMessage> = Vec::new();
    let n = c.messages.len();
    let mut i: usize = 0;
    while i < n
        invariant
            i <= n,
            n == c.messages@.len(),
            messages.deep_view() == c.messages.deep_view().take(i as int),
        decreases n - i,
    {
        let ghost prev = messages.deep_view();
        messages.push(clone_message(&c.messages[i]));
        proof {
            assert(messages.deep_view() =~= prev.push(c.messages@[i as int]@));
            assert(c.messages.deep_view().take(i as int + 1) =~= c.messages.deep_view().take(
                i as int,
            ).push(c.messages.deep_view()[i as int]));
        }
        i += 1;
    }
    proof {
        assert(c.messages.deep_view().take(n as int) =~= c.messages.deep_view());
    }
    Conversation {
        id: c.id,
        title: c.title.clone(),
        created_at: c.created_at,
        updated_at: c.updated_at,
        messages,
    }
}

/// Cloning a message preserves its model.
fn clone_message(m: &ChatMessage) -> (r: ChatMessage)
    ensures
        r@ == m@,
{
    let mut tool_calls: Vec<ToolCall> = Vec::new();
    let n = m.tool_calls.len();
    let mut i: usize = 0;
    while i < n
        invariant
            i <= n,
            n == m.tool_calls@.len(),
            tool_calls.deep_view() == m.tool_calls.deep_view().take(i as int),
        decreases n - i,
    {
        let t = &m.tool_calls[i];
        let ghost prev = tool_calls.deep_view();
        tool_calls.push(
            ToolCall {
                id: t.id,
                name: t.name.clone(),
                arguments: t.arguments.clone(),
                status: match t.status {
                    ToolCallStatus::Pending => ToolCallStatus::Pending,
                    ToolCallStatus::Completed => ToolCallStatus::Completed,
                    ToolCallStatus::Failed => ToolCallStatus::Failed,
                },
                response: match &t.response {
                    Some(v) => Some(v.clone()),
                    None => None,
                },
            },
        );
        proof {
            assert(tool_calls.deep_view() =~= prev.push(m.tool_calls@[i as int]@));
            assert(m.tool_calls.deep_view().take(i as int + 1)
                =~= m.tool_calls.deep_view().take(i as int).push(
                m.tool_calls.deep_view()[i as int],
            ));
        }
        i += 1;
    }
    proof {
        assert(m.tool_calls.deep_view().take(n as int) =~= m.tool_calls.deep_view());
    }
    ChatMessage {
        id: m.id,
        role: match m.role {
            MessageRole::System => MessageRole::System,
            MessageRole::User => MessageRole::User,
            MessageRole::Assistant => MessageRole::Assistant,
            MessageRole::Tool => MessageRole::Tool,
        },
        content: m.content.clone(),
        created_at: m.created_at,
        tool_calls,
    }
}

// ---------------------------------------------------------------------------
// Laws
// ---------------------------------------------------------------------------

/// Appending any sequence of messages to one conversation keeps them in the
/// exact append order — the final message sequence is the original followed
/// by the appended messages — and `updated_at` never decreases along the way.
#[verifier::rlimit(100)]
#[verifier::spinoff_prover]
pub proof fn lemma_append_ordering(states: Seq<ConversationModel>, msgs: Seq<MessageModel>)
    requires
        states.len() == msgs.len() + 1,
        forall|i: int|
            0 <= i < msgs.len() ==> appended(#[trigger] states[i], states[i + 1], msgs[i]),
    ensures
        states.last().messages == states[0].messages + msgs,
        forall|i: int, j: int|
            0 <= i <= j < states.len() ==> states[i].updated_at <= states[j].updated_at,
    decreases msgs.len(),
{
    if msgs.len() == 0 {
        assert(states[0].messages + msgs =~= states[0].messages);
    } else {
        let pre = states.drop_last();
        let pmsgs = msgs.drop_last();
        assert forall|i: int|
            0 <= i < pmsgs.len() implies appended(#[trigger] pre[i], pre[i + 1], pmsgs[i]) by {
            assert(pre[i] == states[i]);
            assert(pre[i + 1] == states[i + 1]);
            assert(pmsgs[i] == msgs[i]);
            assert(appended(states[i], states[i + 1], msgs[i]));
        }
        lemma_append_ordering(pre, pmsgs);
        let n = msgs.len() as int;
        assert(appended(states[n - 1], states[n], msgs[n - 1]));
        assert(pre.last() == states[n - 1]);
        assert(states[n].messages == (states[0].messages + pmsgs).push(msgs[n - 1]));
        assert((states[0].messages + pmsgs).push(msgs[n - 1]) =~= states[0].messages + msgs);
        assert forall|i: int, j: int|
            0 <= i <= j < states.len() implies states[i].updated_at <= states[j].updated_at by {
            if j < n {
                assert(pre[i] == states[i]);
                assert(pre[j] == states[j]);
            } else if i < j {
                assert(pre[i] == states[i]);
                assert(pre[n - 1] == states[n - 1]);
                assert(states[i].updated_at <= states[n - 1].updated_at);
            }
        }
    }
}

/// The first user message on an empty conversation names it with the derived
/// snippet of that message, and no later append ever changes the title
/// again.
pub proof fn lemma_title_stability(
    c0: ConversationModel,
    c1: ConversationModel,
    c2: ConversationModel,
    m1: MessageModel,
    m2: MessageModel,
)
    requires
        c0.messages.len() == 0,
        m1.role == MessageRole::User,
        appended(c0, c1, m1),
        appended(c1, c2, m2),
    ensures
        c1.title == snippet_spec(m1.content),
        c2.title == c1.title,
{
    assert(c1.messages.len() == 1);
}

/// Deleting the active conversation keeps the selection well defined: with
/// at least two conversations some remaining one becomes active — never the
/// deleted one — and deleting the only conversation leaves nothing active.
/// Conversation identifiers are assumed distinct, as fresh identifiers make
/// them.
pub proof fn lemma_delete_selection(pre: AppStateModel, post: AppStateModel, id: u128)
    requires
        state_wf(pre),
        AppState::deleted_shape(pre, post, id),
        index_of(pre.conversations, id) >= 0,
        forall|i: int, j: int|
            0 <= i < j < pre.conversations.len() ==> (#[trigger] pre.conversations[i]).id != (
            #[trigger] pre.conversations[j]).id,
        active_of(pre) matches Some(a) && a.id == id,
    ensures
        pre.conversations.len() >= 2 ==> (active_of(post) matches Some(c) && c.id != id),
        pre.conversations.len() == 1 ==> active_of(post) is None,
{
    let cs = pre.conversations;
    let idx = index_of(cs, id);
    lemma_index_of(cs, id);
    assert(cs[idx].id == id);
    // Only position idx carries the deleted identifier.
    assert forall|k: int| 0 <= k < cs.len() && k != idx implies (#[trigger] cs[k]).id != id by {
        if k < idx {
            assert(cs[k].id != cs[idx].id);
        } else {
            assert(cs[idx].id != cs[k].id);
        }
    }
    let ps = post.conversations;
    assert(ps == cs.take(idx) + cs.skip(idx + 1));
    assert(ps.len() == cs.len() - 1);
    assert forall|k: int| 0 <= k < ps.len() implies (#[trigger] ps[k]).id != id by {
        if k < idx {
            assert(ps[k] == cs[k]);
        } else {
            assert(ps[k] == cs[k + 1]);
        }
    }
    // The active conversation of `pre` carries `id`, so the selection either
    // named it or fell back to position zero carrying it.
    match pre.current_session {
        Some(cid) => {
            lemma_index_of(cs, cid);
            assert(cs[index_of(cs, cid)].id == cid);
            assert(cid == id);
            if ps.len() > 0 {
                assert(post.current_session == Some(ps[0].id));
                lemma_index_of_exists(ps, ps[0].id, 0);
                lemma_index_of(ps, ps[0].id);
                let j = index_of(ps, ps[0].id);
                assert(ps[j].id == ps[0].id);
                assert(active_of(post) == Some(ps[j]));
                assert(ps[j].id != id);
            } else {
                assert(active_of(post) is None);
            }
        },
        None => {
            assert(active_of(pre) == Some(cs[0]));
            assert(cs[0].id == id);
            lemma_index_of_exists(cs, id, 0);
            assert(idx == 0);
            assert(post.current_session is None);
            if ps.len() > 0 {
                assert(active_of(post) == Some(ps[0]));
                assert(ps[0].id != id);
            }
        },
    }
}

} // verus!
