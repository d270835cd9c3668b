//! The language-model driver: provider configuration, the deterministic mock
//! backend, completion conversion, and the chunked form of a streamed reply.

use vstd::prelude::*;
use crate::state::{ChatMessage, MessageModel, MessageRole};

verus! {

/// Which backend a driver talks to.
#[derive(Clone, Copy, Debug, PartialEq, Eq, Structural)]
pub enum LlmProviderKind {
    OpenAi,
    AzureOpenAi,
    Mock,
}

/// A driver's resolved configuration. The temperature is carried as the text
/// the caller supplied and forwarded as-is; the driver neither parses nor
/// clamps it.
#[derive(Clone, Debug)]
pub struct LlmConfig {
    pub provider: LlmProviderKind,
    pub model: Option<String>,
    pub temperature: Option<String>,
}

/// The model of an [`LlmConfig`].
pub ghost struct ConfigModel {
    pub provider: LlmProviderKind,
    pub model: Option<Seq<char>>,
    pub temperature: Option<Seq<char>>,
}

impl View for LlmConfig {
    type V = ConfigModel;

    open spec fn view(&self) -> ConfigModel {
        ConfigModel {
            provider: self.provider,
            model: self.model.deep_view(),
            temperature: self.temperature.deep_view(),
        }
    }
}

impl LlmConfig {
    /// A configuration with no temperature set.
    pub fn new(provider: LlmProviderKind, model: Option<String>) -> (r: LlmConfig)
        ensures
            r@.provider == provider,
            r@.model == model.deep_view(),
            r@.temperature is None,
    {
        LlmConfig { provider, model, temperature: None }
    }
}

/// Token counters reported by a backend.
#[derive(Clone, Debug, PartialEq, Eq, Structural)]
pub struct ModelUsage {
    pub prompt_tokens: usize,
    pub completion_tokens: usize,
}

/// One completed reply plus optional usage counters.
#[derive(Clone, Debug)]
pub struct ChatResponse {
    pub message: ChatMessage,
    pub usage: Option<ModelUsage>,
}

/// Whether the system can send at all.
#[derive(Clone, Debug)]
pub enum LlmStatus {
    Ready,
    Unconfigured(String),
}

/// The model of an [`LlmStatus`].
pub ghost enum StatusModel {
    Ready,
    Unconfigured(Seq<char>),
}

impl View for LlmStatus {
    type V = StatusModel;

    open spec fn view(&self) -> StatusModel {
        match self {
            LlmStatus::Ready => StatusModel::Ready,
            LlmStatus::Unconfigured(msg) => StatusModel::Unconfigured(msg@),
        }
    }
}

/// One increment of a streamed assistant reply. A `done` chunk carries no
/// payload and terminates the stream.
#[derive(Clone, Debug)]
pub struct StreamChunk {
    pub delta: String,
    pub done: bool,
}

/// The model of a [`StreamChunk`].
pub ghost struct ChunkModel {
    pub delta: Seq<char>,
    pub done: bool,
}

impl View for StreamChunk {
    type V = ChunkModel;

    open spec fn view(&self) -> ChunkModel {
        ChunkModel { delta: self.delta@, done: self.done }
    }
}

impl DeepView for StreamChunk {
    type V = ChunkModel;

    open spec fn deep_view(&self) -> ChunkModel {
        self.view()
    }
}

/// A driver failure: either the unconfigured message or a backend error.
#[derive(Clone, Debug)]
pub struct LlmError {
    pub message: String,
}

// ---------------------------------------------------------------------------
// The deterministic mock backend
// ---------------------------------------------------------------------------

/// The prompt the mock answers: the content of the last user message, or a
/// fixed greeting when there is none.
pub open spec fn mock_prompt(history: Seq<MessageModel>) -> Seq<char>
    decreases history.len(),
{
    if history.len() == 0 {
        "How can I help you today?"@
    } else if history.last().role == MessageRole::User {
        history.last().content
    } else {
        mock_prompt(history.drop_last())
    }
}

/// The model name as the mock reply displays it: quoted, defaulted.
pub open spec fn shown_model(model: Option<Seq<char>>) -> Seq<char> {
    match model {
        Some(m) => seq!['"'] + (m + seq!['"']),
        None => "\"default\""@,
    }
}

/// The temperature as the mock reply displays it.
pub open spec fn shown_temperature(temperature: Option<Seq<char>>) -> Seq<char> {
    match temperature {
        Some(t) => "Some("@ + (t + ")"@),
        None => "None"@,
    }
}

/// The full text of a synthesized reply. It depends on nothing but its
/// arguments, which is what makes the mock deterministic.
pub open spec fn mock_reply(
    provider_name: Seq<char>,
    history: Seq<MessageModel>,
    model: Option<Seq<char>>,
    temperature: Option<Seq<char>>,
) -> Seq<char> {
    seq!['['] + (provider_name + ("] Model "@ + (shown_model(model) + (" (temp "@ + (
    shown_temperature(temperature) + ("): received '"@ + (mock_prompt(history) + "'."@)))))))
}

/// Finds the prompt for the mock reply.
fn last_user_content(messages: &Vec<ChatMessage>) -> (r: String)
    ensures
        r@ == mock_prompt(messages.deep_view()),
{
    let ghost dv = messages.deep_view();
    let mut i: usize = messages.len();
    proof {
        assert(dv.take(i as int) =~= dv);
    }
    while i > 0
        invariant
            i <= messages@.len(),
            dv == messages.deep_view(),
            mock_prompt(dv) == mock_prompt(dv.take(i as int)),
        decreases i,
    {
        proof {
            assert(dv.take(i as int).last() == dv[i as int - 1]);
            assert(dv[i as int - 1] == messages@[i as int - 1]@);
            assert(dv.take(i as int).drop_last() =~= dv.take(i as int - 1));
        }
        if messages[i - 1].role == MessageRole::User {
            return messages[i - 1].content.clone();
        }
        i -= 1;
    }
    proof {
        assert(dv.take(0).len() == 0);
    }
    "How can I help you today?".to_owned()
}

/// Synthesizes the deterministic reply of a fake backend: it embeds the
/// provider name, the shown model and temperature, and the prompt.
pub fn synthetic_response(
    provider_name: &str,
    messages: &Vec<ChatMessage>,
    config: &LlmConfig,
) -> (r: ChatResponse)
    requires
        messages@.len() * 10 <= usize::MAX,
    ensures
        r.message@.role == MessageRole::Assistant,
        r.message@.content == mock_reply(
            provider_name@,
            messages.deep_view(),
            config@.model,
            config@.temperature,
        ),
        r.message@.tool_calls.len() == 0,
        r.usage == Some(
            ModelUsage { prompt_tokens: (messages@.len() * 10) as usize, completion_tokens: 25 },
        ),
{
    let prompt = last_user_content(messages);
    let mut out: Vec<char> = Vec::new();
    out.push('[');
    crate::codec::push_str(&mut out, provider_name);
    let ghost g1 = out@;
    crate::codec::push_str(&mut out, "] Model ");
    match &config.model {
        Some(m) => {
            out.push('"');
            crate::codec::push_str(&mut out, m.as_str());
            out.push('"');
        },
        None => {
            crate::codec::push_str(&mut out, "\"default\"");
        },
    }
    let ghost g2 = out@;
    crate::codec::push_str(&mut out, " (temp ");
    match &config.temperature {
        Some(t) => {
            crate::codec::push_str(&mut out, "Some(");
            crate::codec::push_str(&mut out, t.as_str());
            crate::codec::push_str(&mut out, ")");
        },
        None => {
            crate::codec::push_str(&mut out, "None");
        },
    }
    let ghost g3 = out@;
    crate::codec::push_str(&mut out, "): received '");
    crate::codec::push_str(&mut out, prompt.as_str());
    crate::codec::push_str(&mut out, "'.");
    proof {
        let pn = provider_name@;
        let sm = shown_model(config@.model);
        let st = shown_temperature(config@.temperature);
        let mp = mock_prompt(messages.deep_view());
        assert(g1 =~= seq!['['] + pn);
        assert(g2 =~= g1 + ("] Model "@ + sm)) by {
            match config@.model {
                Some(m) => {
                    assert(g2 =~= g1 + "] Model "@ + (seq!['"'] + (m + seq!['"'])));
                },
                None => {},
            }
        }
        assert(g3 =~= g2 + (" (temp "@ + st)) by {
            match config@.temperature {
                Some(t) => {
                    assert(g3 =~= g2 + " (temp "@ + ("Some("@ + (t + ")"@)));
                },
                None => {},
            }
        }
        assert(out@ =~= g3 + ("): received '"@ + (mp + "'."@)));
        assert(out@ =~= mock_reply(pn, messages.deep_view(), config@.model, config@.temperature));
    }
    let content = crate::strutil::from_chars(out.as_slice());
    let message = ChatMessage::new(MessageRole::Assistant, content.as_str());
    ChatResponse {
        message,
        usage: Some(ModelUsage { prompt_tokens: messages.len() * 10, completion_tokens: 25 }),
    }
}

// ---------------------------------------------------------------------------
// The chunked form of a streamed reply
// ---------------------------------------------------------------------------

/// The reply text cut into at-most-five-character deltas, in order.
pub open spec fn chunks_of(s: Seq<char>) -> Seq<ChunkModel>
    decreases s.len(),
{
    if s.len() == 0 {
        Seq::empty()
    } else {
        let m = if s.len() < 5 {
            s.len() as int
        } else {
            5
        };
        seq![ChunkModel { delta: s.take(m), done: false }] + chunks_of(s.skip(m))
    }
}

/// The full stream for a reply: its deltas followed by the one `done` marker.
pub open spec fn mock_stream(s: Seq<char>) -> Seq<ChunkModel> {
    chunks_of(s).push(ChunkModel { delta: Seq::empty(), done: true })
}

/// The text a consumer accumulates: the deltas of the non-`done` chunks, in
/// order.
pub open spec fn accumulated(chunks: Seq<ChunkModel>) -> Seq<char>
    decreases chunks.len(),
{
    if chunks.len() == 0 {
        Seq::empty()
    } else {
        (if !chunks[0].done {
            chunks[0].delta
        } else {
            Seq::empty()
        }) + accumulated(chunks.drop_first())
    }
}

proof fn lemma_chunks_not_done(s: Seq<char>)
    ensures
        forall|i: int| 0 <= i < chunks_of(s).len() ==> !(#[trigger] chunks_of(s)[i]).done,
    decreases s.len(),
{
    if s.len() > 0 {
        let m = if s.len() < 5 {
            s.len() as int
        } else {
            5
        };
        lemma_chunks_not_done(s.skip(m));
        assert forall|i: int| 0 <= i < chunks_of(s).len() implies !(#[trigger] chunks_of(s)[i]).done by {
            if i > 0 {
                assert(chunks_of(s)[i] == chunks_of(s.skip(m))[i - 1]);
            }
        }
    }
}

/// The stream emits zero or more non-`done` chunks followed by exactly one
/// `done` chunk, and nothing after it.
pub proof fn lemma_stream_terminal(s: Seq<char>)
    ensures
        mock_stream(s).len() >= 1,
        mock_stream(s).last().done,
        forall|i: int| 0 <= i < mock_stream(s).len() - 1 ==> !(#[trigger] mock_stream(s)[i]).done,
{
    lemma_chunks_not_done(s);
    assert forall|i: int|
        0 <= i < mock_stream(s).len() - 1 implies !(#[trigger] mock_stream(s)[i]).done by {
        assert(mock_stream(s)[i] == chunks_of(s)[i]);
    }
}

pub proof fn lemma_accumulated_concat_pub(a: Seq<ChunkModel>, b: Seq<ChunkModel>)
    ensures
        accumulated(a + b) == accumulated(a) + accumulated(b),
    decreases a.len(),
{
    if a.len() == 0 {
        assert(a + b =~= b);
        assert(accumulated(a) + accumulated(b) =~= accumulated(b));
    } else {
        assert((a + b).drop_first() =~= a.drop_first() + b);
        lemma_accumulated_concat_pub(a.drop_first(), b);
        assert((a + b)[0] == a[0]);
        let h = if !a[0].done {
            a[0].delta
        } else {
            Seq::<char>::empty()
        };
        assert(h + (accumulated(a.drop_first()) + accumulated(b)) =~= (h + accumulated(
            a.drop_first(),
        )) + accumulated(b));
    }
}

proof fn lemma_accumulated_chunks(s: Seq<char>)
    ensures
        accumulated(chunks_of(s)) == s,
    decreases s.len(),
{
    if s.len() == 0 {
    } else {
        let m = if s.len() < 5 {
            s.len() as int
        } else {
            5
        };
        lemma_accumulated_chunks(s.skip(m));
        let c = ChunkModel { delta: s.take(m), done: false };
        assert(chunks_of(s).drop_first() =~= chunks_of(s.skip(m)));
        assert(chunks_of(s)[0] == c);
        assert(s.take(m) + s.skip(m) =~= s);
    }
}

/// Accumulating every non-`done` delta of a reply's stream reproduces the
/// reply exactly: the streamed and one-shot paths agree.
pub proof fn lemma_streaming_equivalence(s: Seq<char>)
    ensures
        accumulated(mock_stream(s)) == s,
{
    lemma_accumulated_chunks(s);
    let done = ChunkModel { delta: Seq::empty(), done: true };
    assert(mock_stream(s) =~= chunks_of(s) + seq![done]);
    lemma_accumulated_concat_pub(chunks_of(s), seq![done]);
    assert(accumulated(seq![done]) =~= Seq::<char>::empty()) by {
        assert(seq![done].drop_first() =~= Seq::<ChunkModel>::empty());
        assert(Seq::<char>::empty() + accumulated(Seq::<ChunkModel>::empty())
            =~= Seq::<char>::empty());
    }
    assert(s + Seq::<char>::empty() =~= s);
}

/// Cuts a reply into its stream of chunks.
pub fn chunk_reply(reply: &str) -> (r: Vec<StreamChunk>)
    ensures
        r.deep_view() == mock_stream(reply@),
{
    let chars = crate::strutil::to_chars(reply);
    let n = chars.len();
    let mut out: Vec<StreamChunk> = Vec::new();
    let mut i: usize = 0;
    proof {
        assert(chars@.skip(0) =~= chars@);
        assert(out.deep_view() =~= Seq::<ChunkModel>::empty());
        assert(Seq::<ChunkModel>::empty() + chunks_of(chars@) =~= chunks_of(chars@));
    }
    while i < n
        invariant
            i <= n,
            n == chars@.len(),
            chars@ == reply@,
            chunks_of(reply@) == out.deep_view() + chunks_of(chars@.skip(i as int)),
        decreases n - i,
    {
        let step: usize = if n - i < 5 {
            n - i
        } else {
            5
        };
        let mut delta: Vec<char> = Vec::new();
        let mut k: usize = 0;
        while k < step
            invariant
                i + step <= n,
                n == chars@.len(),
                k <= step,
                delta@ == chars@.subrange(i as int, i as int + k as int),
            decreases step - k,
        {
            delta.push(chars[i + k]);
            k += 1;
            proof {
                assert(chars@.subrange(i as int, i as int + k as int) =~= chars@.subrange(
                    i as int,
                    i as int + k as int - 1,
                ).push(chars@[i + k as int - 1]));
            }
        }
        let ghost rest = chars@.skip(i as int);
        let ghost m = if rest.len() < 5 {
            rest.len() as int
        } else {
            5int
        };
        let ghost prev = out.deep_view();
        out.push(
            StreamChunk { delta: crate::strutil::from_chars(delta.as_slice()), done: false },
        );
        proof {
            assert(m == step as int);
            assert(rest.take(m) =~= chars@.subrange(i as int, i as int + step as int));
            assert(rest.skip(m) =~= chars@.skip(i as int + step as int));
            assert(out.deep_view() =~= prev.push(
                ChunkModel { delta: rest.take(m), done: false },
            ));
            assert(prev + (seq![ChunkModel { delta: rest.take(m), done: false }] + chunks_of(
                rest.skip(m),
            )) =~= out.deep_view() + chunks_of(rest.skip(m)));
        }
        i += step;
    }
    let ghost prev = out.deep_view();
    out.push(StreamChunk { delta: String::new(), done: true });
    proof {
        assert(chars@.skip(n as int).len() == 0);
        assert(chunks_of(chars@.skip(n as int)) == Seq::<ChunkModel>::empty());
        assert(prev + Seq::<ChunkModel>::empty() =~= prev);
        assert(out.deep_view() =~= mock_stream(reply@));
    }
    out
}

// ---------------------------------------------------------------------------
// The driver
// ---------------------------------------------------------------------------

/// The model of an [`LlmDriver`].
pub ghost struct DriverModel {
    pub config: Option<ConfigModel>,
    pub status: StatusModel,
}

/// A driver well-formed the way this crate's constructors build one: a
/// configured driver is ready and carries the mock backend; an unconfigured
/// one carries its reason.
pub open spec fn driver_wf(d: DriverModel) -> bool {
    match d.config {
        Some(c) => c.provider == LlmProviderKind::Mock && d.status is Ready,
        None => d.status is Unconfigured,
    }
}

/// Hides provider differences behind one-shot and streamed completion. This
/// crate's driver computes the mock backend itself; network-backed providers
/// are layered on top of it by the shell.
#[derive(Clone)]
pub struct LlmDriver {
    config: Option<LlmConfig>,
    status: LlmStatus,
}

impl View for LlmDriver {
    type V = DriverModel;

    closed spec fn view(&self) -> DriverModel {
        DriverModel {
            config: match self.config {
                Some(c) => Some(c@),
                None => None,
            },
            status: self.status@,
        }
    }
}

impl LlmDriver {
    /// A ready driver over the mock backend.
    pub fn configured_mock(model: Option<String>) -> (r: LlmDriver)
        ensures
            driver_wf(r@),
            r@.config == Some(
                ConfigModel {
                    provider: LlmProviderKind::Mock,
                    model: model.deep_view(),
                    temperature: None,
                },
            ),
            r@.status is Ready,
    {
        LlmDriver {
            config: Some(LlmConfig::new(LlmProviderKind::Mock, model)),
            status: LlmStatus::Ready,
        }
    }

    /// The mock driver under its usual test name.
    pub fn fake() -> (r: LlmDriver)
        ensures
            driver_wf(r@),
            r@.config == Some(
                ConfigModel {
                    provider: LlmProviderKind::Mock,
                    model: Some("mock"@),
                    temperature: None,
                },
            ),
    {
        LlmDriver::configured_mock(Some("mock".to_owned()))
    }

    /// A driver that cannot send, remembering why.
    pub fn unconfigured(message: &str) -> (r: LlmDriver)
        ensures
            driver_wf(r@),
            r@.config is None,
            r@.status == StatusModel::Unconfigured(message@),
    {
        LlmDriver { config: None, status: LlmStatus::Unconfigured(message.to_owned()) }
    }

    /// Which backend this driver is configured for.
    pub fn provider_kind(&self) -> (r: Option<LlmProviderKind>)
        ensures
            r == (match self@.config {
                Some(c) => Some(c.provider),
                None => None::<LlmProviderKind>,
            }),
    {
        match &self.config {
            Some(c) => Some(c.provider),
            None => None,
        }
    }

    /// Whether the system is usable. Cheap and side-effect free.
    pub fn status(&self) -> (r: LlmStatus)
        ensures
            r@ == self@.status,
    {
        match &self.status {
            LlmStatus::Ready => LlmStatus::Ready,
            LlmStatus::Unconfigured(msg) => LlmStatus::Unconfigured(msg.clone()),
        }
    }

    /// The effective configuration of one send: the caller's model override
    /// replaces the configured model when present, and the caller's
    /// temperature always replaces the configured one.
    pub open spec fn effective(
        c: ConfigModel,
        model_override: Option<Seq<char>>,
        temperature: Option<Seq<char>>,
    ) -> ConfigModel {
        ConfigModel {
            provider: c.provider,
            model: match model_override {
                Some(m) => Some(m),
                None => c.model,
            },
            temperature,
        }
    }

    /// One-shot completion. Succeeds exactly when the driver is configured;
    /// the reply is the deterministic mock text for the effective
    /// configuration. An unconfigured driver fails with its stored reason.
    pub fn respond(
        &self,
        history: &Vec<ChatMessage>,
        model_override: Option<&str>,
        temperature: Option<&str>,
    ) -> (r: Result<ChatResponse, LlmError>)
        requires
            driver_wf(self@),
            history@.len() * 10 <= usize::MAX,
        ensures
            match r {
                Ok(resp) => {
                    &&& self@.config is Some
                    &&& resp.message@.role == MessageRole::Assistant
                    &&& resp.message@.content == mock_reply(
                        "Mock"@,
                        history.deep_view(),
                        Self::effective(
                            self@.config->Some_0,
                            model_override.deep_view(),
                            temperature.deep_view(),
                        ).model,
                        temperature.deep_view(),
                    )
                    &&& resp.message@.tool_calls.len() == 0
                },
                Err(e) => {
                    &&& self@.config is None
                    &&& self@.status == StatusModel::Unconfigured(e.message@)
                },
            },
    {
        match &self.config {
            Some(config) => {
                let model = match model_override {
                    Some(m) => Some(m.to_owned()),
                    None => match &config.model {
                        Some(m) => Some(m.clone()),
                        None => None,
                    },
                };
                let temperature = match temperature {
                    Some(t) => Some(t.to_owned()),
                    None => None,
                };
                let effective = LlmConfig { provider: config.provider, model, temperature };
                Ok(synthetic_response("Mock", history, &effective))
            },
            None => {
                let message = match &self.status {
                    LlmStatus::Ready => "AI driver not initialized".to_owned(),
                    LlmStatus::Unconfigured(msg) => msg.clone(),
                };
                Err(LlmError { message })
            },
        }
    }

    /// Streamed completion: the same reply as [`Self::respond`], cut into
    /// chunks and terminated by one `done` marker. Succeeds exactly when the
    /// driver is configured.
    pub fn respond_streaming(
        &self,
        history: &Vec<ChatMessage>,
        model_override: Option<&str>,
        temperature: Option<&str>,
    ) -> (r: Result<Vec<StreamChunk>, LlmError>)
        requires
            driver_wf(self@),
            history@.len() * 10 <= usize::MAX,
        ensures
            match r {
                Ok(chunks) => {
                    &&& self@.config is Some
                    &&& chunks.deep_view() == mock_stream(
                        mock_reply(
                            "Mock"@,
                            history.deep_view(),
                            Self::effective(
                                self@.config->Some_0,
                                model_override.deep_view(),
                                temperature.deep_view(),
                            ).model,
                            temperature.deep_view(),
                        ),
                    )
                },
                Err(e) => {
                    &&& self@.config is None
                    &&& self@.status == StatusModel::Unconfigured(e.message@)
                },
            },
    {
        match self.respond(history, model_override, temperature) {
            Ok(resp) => Ok(chunk_reply(resp.message.content.as_str())),
            Err(e) => Err(e),
        }
    }
}

// ---------------------------------------------------------------------------
// Completion payload conversion
// ---------------------------------------------------------------------------

/// One history entry as a completion API carries it.
#[derive(Clone, Debug)]
pub struct CompletionRequestMessage {
    pub role: String,
    pub content: String,
}

/// One choice of a completion response.
#[derive(Clone, Debug)]
pub struct CompletionChoice {
    pub message: CompletionResponseMessage,
}

/// The message inside a completion choice.
#[derive(Clone, Debug)]
pub struct CompletionResponseMessage {
    pub role: String,
    pub content: Option<String>,
}

/// Usage counters of a completion response.
#[derive(Clone, Debug)]
pub struct CompletionUsage {
    pub prompt_tokens: Option<usize>,
    pub completion_tokens: Option<usize>,
}

/// A decoded completion response.
#[derive(Clone, Debug)]
pub struct ChatCompletionResponse {
    pub choices: Vec<CompletionChoice>,
    pub usage: Option<CompletionUsage>,
}

/// The wire name of a role.
pub open spec fn api_role_spec(role: MessageRole) -> Seq<char> {
    match role {
        MessageRole::System => "system"@,
        MessageRole::User => "user"@,
        MessageRole::Assistant => "assistant"@,
        MessageRole::Tool => "tool"@,
    }
}

/// Names a role the way the completion API spells it.
pub fn api_role(role: &MessageRole) -> (r: String)
    ensures
        r@ == api_role_spec(*role),
{
    match role {
        MessageRole::System => "system".to_owned(),
        MessageRole::User => "user".to_owned(),
        MessageRole::Assistant => "assistant".to_owned(),
        MessageRole::Tool => "tool".to_owned(),
    }
}

/// Projects a history onto role and content only: tool calls are not re-sent
/// as structured context.
pub fn map_messages(messages: &Vec<ChatMessage>) -> (r: Vec<CompletionRequestMessage>)
    ensures
        r@.len() == messages@.len(),
        forall|i: int|
            0 <= i < r@.len() ==> (#[trigger] r@[i]).role@ == api_role_spec(
                messages.deep_view()[i].role,
            ) && r@[i].content@ == messages.deep_view()[i].content,
{
    let n = messages.len();
    let mut r: Vec<CompletionRequestMessage> = Vec::new();
    let mut i: usize = 0;
    while i < n
        invariant
            n == messages@.len(),
            i <= n,
            r@.len() == i,
            forall|k: int|
                0 <= k < i ==> (#[trigger] r@[k]).role@ == api_role_spec(
                    messages.deep_view()[k].role,
                ) && r@[k].content@ == messages.deep_view()[k].content,
        decreases n - i,
    {
        let m = &messages[i];
        r.push(
            CompletionRequestMessage { role: api_role(&m.role), content: m.content.clone() },
        );
        proof {
            assert(messages.deep_view()[i as int] == messages@[i as int]@);
        }
        i += 1;
    }
    r
}

/// Turns a decoded completion response into a chat reply: the first choice's
/// content (or a placeholder when the backend sent none), with usage counts
/// defaulted to zero. Fails exactly when the response has no choices.
pub fn completion_to_chat(payload: ChatCompletionResponse) -> (r: Result<ChatResponse, LlmError>)
    ensures
        match r {
            Ok(resp) => {
                &&& payload.choices@.len() > 0
                &&& resp.message@.role == MessageRole::Assistant
                &&& resp.message@.content == (match payload.choices@[0].message.content {
                    Some(c) => c@,
                    None => "[empty response]"@,
                })
                &&& resp.message@.tool_calls.len() == 0
                &&& resp.usage == (match payload.usage {
                    Some(u) => Some(
                        ModelUsage {
                            prompt_tokens: (match u.prompt_tokens {
                                Some(p) => p,
                                None => 0,
                            }),
                            completion_tokens: (match u.completion_tokens {
                                Some(c) => c,
                                None => 0,
                            }),
                        },
                    ),
                    None => None::<ModelUsage>,
                })
            },
            Err(e) => payload.choices@.len() == 0 && e.message@ == "response contained no choices"@,
        },
{
    if payload.choices.len() == 0 {
        return Err(LlmError { message: "response contained no choices".to_owned() });
    }
    let choice = &payload.choices[0];
    let content = match &choice.message.content {
        Some(c) => c.clone(),
        None => "[empty response]".to_owned(),
    };
    let message = ChatMessage::new(MessageRole::Assistant, content.as_str());
    let usage = match &payload.usage {
        Some(u) => Some(
            ModelUsage {
                prompt_tokens: (match u.prompt_tokens {
                    Some(p) => p,
                    None => 0,
                }),
                completion_tokens: (match u.completion_tokens {
                    Some(c) => c,
                    None => 0,
                }),
            },
        ),
        None => None,
    };
    Ok(ChatResponse { message, usage })
}

} // verus!
