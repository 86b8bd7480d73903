use vstd::prelude::*;
use crate::agent::context::ExecutionContext;
use crate::agent::event::{ContentItem, Event, ToolResultStatus};
use crate::json::opt_view;
use crate::text::same_text;

verus! {

/// A tool call as the model asked for it, or as it is sent back to the model.
pub struct ToolCallRecord {
    pub id: String,
    pub name: String,
    pub arguments: String,
}

impl View for ToolCallRecord {
    type V = (Seq<char>, Seq<char>, Seq<char>);

    open spec fn view(&self) -> (Seq<char>, Seq<char>, Seq<char>) {
        (self.id@, self.name@, self.arguments@)
    }
}

/// The mathematical form of a chat message.
pub enum ChatMessageView {
    System(Seq<char>),
    User(Seq<char>),
    Assistant(Option<Seq<char>>, Seq<(Seq<char>, Seq<char>, Seq<char>)>),
    Tool(Seq<char>, Seq<char>),
}

/// One message of a chat-completion request.
#[allow(inconsistent_fields)]
pub enum ChatMessage {
    System { content: String },
    User { content: String },
    Assistant { content: Option<String>, tool_calls: Vec<ToolCallRecord> },
    Tool { tool_call_id: String, content: String },
}

pub open spec fn calls_view(v: Seq<ToolCallRecord>) -> Seq<(Seq<char>, Seq<char>, Seq<char>)> {
    v.map_values(|t: ToolCallRecord| t@)
}

impl View for ChatMessage {
    type V = ChatMessageView;

    open spec fn view(&self) -> ChatMessageView {
        match self {
            ChatMessage::System { content } => ChatMessageView::System(content@),
            ChatMessage::User { content } => ChatMessageView::User(content@),
            ChatMessage::Assistant { content, tool_calls } => ChatMessageView::Assistant(
                opt_view(*content),
                calls_view(tool_calls@),
            ),
            ChatMessage::Tool { tool_call_id, content } => ChatMessageView::Tool(
                tool_call_id@,
                content@,
            ),
        }
    }
}

pub open spec fn messages_view(v: Seq<ChatMessage>) -> Seq<ChatMessageView> {
    v.map_values(|m: ChatMessage| m@)
}

/// The messages after one more content item: a user message for role
/// `user`, an assistant message for any other role, a tool call joins the
/// last message when that one is an assistant message (else it opens a new
/// assistant message), and a tool result becomes a tool message.
pub open spec fn with_item(msgs: Seq<ChatMessageView>, item: ContentItem) -> Seq<ChatMessageView> {
    match item {
        ContentItem::Message { role, content } => {
            if role@ == "user"@ {
                msgs.push(ChatMessageView::User(content@))
            } else {
                msgs.push(ChatMessageView::Assistant(Some(content@), Seq::empty()))
            }
        },
        ContentItem::ToolCall { tool_call_id, name, arguments } => {
            let call = (tool_call_id@, name@, arguments@);
            if msgs.len() > 0 && msgs.last() is Assistant {
                match msgs.last() {
                    ChatMessageView::Assistant(c, calls) => msgs.update(
                        msgs.len() - 1,
                        ChatMessageView::Assistant(c, calls.push(call)),
                    ),
                    _ => msgs,
                }
            } else {
                msgs.push(ChatMessageView::Assistant(None, seq![call]))
            }
        },
        ContentItem::ToolResult { tool_call_id, content, .. } => msgs.push(
            ChatMessageView::Tool(tool_call_id@, content@),
        ),
    }
}

/// The messages after the given content items, in order.
pub open spec fn with_items(msgs: Seq<ChatMessageView>, items: Seq<ContentItem>) -> Seq<
    ChatMessageView,
>
    decreases items.len(),
{
    if items.len() == 0 {
        msgs
    } else {
        with_item(with_items(msgs, items.drop_last()), items.last())
    }
}

/// Replaying one item never rewrites the past: every message but the last
/// stays as it was, and the last one too whenever a message is appended. A
/// tool call joins the last message only when that message is an assistant
/// message, adding itself at the end of its calls; after a user, system or
/// tool message, or with no message at all, it opens a new assistant message
/// holding just that call. Any other item appends one message.
pub proof fn lemma_replay_keeps_earlier_messages(msgs: Seq<ChatMessageView>, item: ContentItem)
    ensures
        ({
            let r = with_item(msgs, item);
            &&& r.len() == msgs.len() || r.len() == msgs.len() + 1
            &&& forall|i: int| 0 <= i < msgs.len() - 1 ==> #[trigger] r[i] == msgs[i]
            &&& r.len() == msgs.len() + 1 ==> r.take(msgs.len() as int) == msgs
            &&& !(item is ToolCall) ==> r.len() == msgs.len() + 1
            &&& item matches ContentItem::ToolCall { tool_call_id, name, arguments } ==> {
                let call = (tool_call_id@, name@, arguments@);
                if msgs.len() > 0 && msgs.last() is Assistant {
                    &&& r.len() == msgs.len()
                    &&& msgs.last() matches ChatMessageView::Assistant(c, calls)
                    &&& r.last() == ChatMessageView::Assistant(c, calls.push(call))
                } else {
                    r == msgs.push(ChatMessageView::Assistant(None, seq![call]))
                }
            }
        }),
{
    let r = with_item(msgs, item);
    if r.len() == msgs.len() + 1 {
        assert(r.take(msgs.len() as int) =~= msgs);
    }
}

/// The content items of the events, event after event.
pub open spec fn event_items(events: Seq<Event>) -> Seq<ContentItem>
    decreases events.len(),
{
    if events.len() == 0 {
        Seq::empty()
    } else {
        event_items(events.drop_last()) + events.last().content@
    }
}

/// The items of two runs of events are the items of the first followed by
/// the items of the second: events are replayed in the order they happened,
/// each with its items in order.
pub proof fn lemma_event_items_in_order(a: Seq<Event>, b: Seq<Event>)
    ensures
        event_items(a + b) == event_items(a) + event_items(b),
    decreases b.len(),
{
    if b.len() == 0 {
        assert(a + b =~= a);
        assert(event_items(b) =~= Seq::<ContentItem>::empty());
        assert(event_items(a) + event_items(b) =~= event_items(a));
    } else {
        lemma_event_items_in_order(a, b.drop_last());
        assert((a + b).drop_last() =~= a + b.drop_last());
        assert((a + b).last() == b.last());
        assert(event_items(a) + event_items(b) =~= event_items(a) + event_items(b.drop_last()) + b.last().content@);
    }
}

pub open spec fn opt_str_view(o: Option<&str>) -> Option<Seq<char>> {
    match o {
        Some(s) => Some(s@),
        None => None,
    }
}

/// The system message, when there are instructions.
pub open spec fn initial_messages(instructions: Option<Seq<char>>) -> Seq<ChatMessageView> {
    match instructions {
        Some(s) => seq![ChatMessageView::System(s)],
        None => Seq::empty(),
    }
}

fn push_item(messages: &mut Vec<ChatMessage>, item: &ContentItem)
    ensures
        messages_view(final(messages)@) == with_item(messages_view(old(messages)@), *item),
{
    let ghost before = messages_view(messages@);
    match item {
        ContentItem::Message { role, content } => {
            if same_text(role, "user") {
                messages.push(ChatMessage::User { content: content.clone() });
            } else {
                let no_calls: Vec<ToolCallRecord> = Vec::new();
                assert(calls_view(no_calls@) =~= Seq::empty());
                messages.push(ChatMessage::Assistant { content: Some(content.clone()), tool_calls: no_calls });
            }
            assert(messages_view(messages@) =~= with_item(before, *item));
        },
        ContentItem::ToolCall { tool_call_id, name, arguments } => {
            let call = ToolCallRecord {
                id: tool_call_id.clone(),
                name: name.clone(),
                arguments: arguments.clone(),
            };
            let len = messages.len();
            let last_is_assistant = len > 0 && match &messages[len - 1] {
                ChatMessage::Assistant { .. } => true,
                _ => false,
            };
            if last_is_assistant {
                let last = messages.pop().unwrap();
                assert(messages_view(messages@) =~= before.drop_last());
                match last {
                    ChatMessage::Assistant { content, mut tool_calls } => {
                        let ghost old_calls = tool_calls@;
                        tool_calls.push(call);
                        assert(calls_view(tool_calls@) =~= calls_view(old_calls).push(
                            (tool_call_id@, name@, arguments@),
                        ));
                        messages.push(ChatMessage::Assistant { content, tool_calls });
                    },
                    _ => {},
                }
                assert(messages_view(messages@) =~= with_item(before, *item));
            } else {
                let mut calls: Vec<ToolCallRecord> = Vec::new();
                calls.push(call);
                assert(calls_view(calls@) =~= seq![(tool_call_id@, name@, arguments@)]);
                messages.push(ChatMessage::Assistant { content: None, tool_calls: calls });
                assert(messages_view(messages@) =~= with_item(before, *item));
            }
        },
        ContentItem::ToolResult { tool_call_id, content, .. } => {
            messages.push(ChatMessage::Tool { tool_call_id: tool_call_id.clone(), content: content.clone() });
            assert(messages_view(messages@) =~= with_item(before, *item));
        },
    }
}

/// The chat messages that replay an execution: the instructions as a system
/// message, then every content item of every event in order (see `with_item`).
pub fn build_messages(instructions: Option<&str>, context: &ExecutionContext) -> (r: Vec<ChatMessage>)
    ensures
        messages_view(r@) == with_items(
            initial_messages(opt_str_view(instructions)),
            event_items(context.event@),
        ),
{
    let mut messages: Vec<ChatMessage> = Vec::new();
    match instructions {
        Some(s) => {
            messages.push(ChatMessage::System { content: s.to_owned() });
        },
        None => {},
    }
    let ghost init = initial_messages(opt_str_view(instructions));
    assert(messages_view(messages@) =~= init);
    let n = context.event.len();
    let mut i: usize = 0;
    assert(context.event@.take(0) =~= Seq::<Event>::empty());
    while i < n
        invariant
            i <= n,
            n == context.event@.len(),
            init == initial_messages(opt_str_view(instructions)),
            messages_view(messages@) == with_items(init, event_items(context.event@.take(i as int))),
        decreases n - i,
    {
        let ev = &context.event[i];
        let ghost prefix = event_items(context.event@.take(i as int));
        let m = ev.content.len();
        let mut j: usize = 0;
        assert(prefix + ev.content@.take(0) =~= prefix);
        while j < m
            invariant
                j <= m,
                m == ev.content@.len(),
                messages_view(messages@) == with_items(init, prefix + ev.content@.take(j as int)),
            decreases m - j,
        {
            push_item(&mut messages, &ev.content[j]);
            assert((prefix + ev.content@.take(j + 1)).drop_last() =~= prefix + ev.content@.take(j as int));
            assert((prefix + ev.content@.take(j + 1)).last() == ev.content@[j as int]);
            j = j + 1;
        }
        assert(context.event@.take(i + 1).drop_last() =~= context.event@.take(i as int));
        assert(ev.content@.take(m as int) =~= ev.content@);
        assert(event_items(context.event@.take(i + 1)) == prefix + ev.content@);
        i = i + 1;
    }
    assert(context.event@.take(n as int) =~= context.event@);
    messages
}

} // verus!

verus! {

/// An owned copy of a tool-call record.
pub fn copy_record(r: &ToolCallRecord) -> (c: ToolCallRecord)
    ensures
        c == *r,
{
    ToolCallRecord { id: r.id.clone(), name: r.name.clone(), arguments: r.arguments.clone() }
}

/// The content item that records a tool call the model asked for; its
/// arguments are kept as serde_json prints them.
pub open spec fn recorded_call(call: ToolCallRecord, item: ContentItem) -> bool {
    match item {
        ContentItem::ToolCall { tool_call_id, name, arguments } => {
            &&& tool_call_id == call.id
            &&& name == call.name
            &&& arguments@ == crate::json::canonical_json(call.arguments@)
        },
        _ => false,
    }
}

/// Records the tool calls of a model reply as one event written by `agent`,
/// one tool-call item per call, in order.
pub fn record_tool_calls(context: &mut ExecutionContext, calls: &Vec<ToolCallRecord>)
    ensures
        final(context).event@.len() == old(context).event@.len() + 1,
        final(context).event@.drop_last() == old(context).event@,
        final(context).event@.last().execution_id == old(context).execution_id,
        final(context).event@.last().author@ == "agent"@,
        final(context).event@.last().content@.len() == calls@.len(),
        forall|i: int|
            0 <= i < calls@.len() ==> recorded_call(
                calls@[i],
                #[trigger] final(context).event@.last().content@[i],
            ),
        final(context).execution_id == old(context).execution_id,
        final(context).current_step == old(context).current_step,
        final(context).state == old(context).state,
        final(context).final_result == old(context).final_result,
{
    let mut items: Vec<ContentItem> = Vec::new();
    let n = calls.len();
    let mut i: usize = 0;
    while i < n
        invariant
            i <= n,
            n == calls@.len(),
            items@.len() == i,
            forall|k: int| 0 <= k < i ==> recorded_call(calls@[k], #[trigger] items@[k]),
        decreases n - i,
    {
        let call = &calls[i];
        items.push(
            ContentItem::ToolCall {
                tool_call_id: call.id.clone(),
                name: call.name.clone(),
                arguments: crate::json::canonicalize_json(call.arguments.as_str()),
            },
        );
        i = i + 1;
    }
    let author = crate::text::owned("agent");
    let event = Event::new(context.execution_id.clone(), author, items);
    context.add_event(event);
    assert(context.event@.drop_last() =~= old(context).event@);
}

/// What the runtime has to do next while it runs the tool calls of one reply.
#[derive(PartialEq, Eq, Structural)]
pub enum ToolAction {
    /// Ask before-tool callback number `callback` about call number `call`.
    AskBefore { call: usize, callback: usize },
    /// Run the tool named by call number `call` with its arguments.
    Execute { call: usize },
    /// Ask after-tool callback number `callback` about call number `call`,
    /// with the current status and content.
    AskAfter { call: usize, callback: usize },
    /// Every call has its result.
    Done,
}

/// Where a round of tool calls stands.
#[derive(PartialEq, Eq, Structural)]
pub enum RoundPhase {
    Before(usize),
    Run,
    After(usize),
    Finished,
}

/// What running a tool gave.
pub enum ToolOutcome {
    /// The tool returned this text.
    Output(String),
    /// The tool failed with this error text.
    Failed(String),
    /// No tool of that name is in the toolbox.
    Unknown,
}

/// The phase in which call `index` of `len` starts.
pub open spec fn start_phase(n_before: usize, index: int, len: int) -> RoundPhase {
    if index >= len {
        RoundPhase::Finished
    } else if n_before > 0 {
        RoundPhase::Before(0)
    } else {
        RoundPhase::Run
    }
}

/// The action that a phase asks for, for call `index`.
pub open spec fn action_of(phase: RoundPhase, index: usize) -> ToolAction {
    match phase {
        RoundPhase::Before(k) => ToolAction::AskBefore { call: index, callback: k },
        RoundPhase::Run => ToolAction::Execute { call: index },
        RoundPhase::After(k) => ToolAction::AskAfter { call: index, callback: k },
        RoundPhase::Finished => ToolAction::Done,
    }
}

/// Whether a result item answers a call: same id, same tool name.
pub open spec fn answers_call(item: ContentItem, call: ToolCallRecord) -> bool {
    item matches ContentItem::ToolResult { tool_call_id, name, .. } && tool_call_id == call.id
        && name == call.name
}

/// The result item of a call.
pub open spec fn result_item(call: ToolCallRecord, status: ToolResultStatus, content: String) -> ContentItem {
    ContentItem::ToolResult { tool_call_id: call.id, name: call.name, status, content }
}

/// The status and text that a tool outcome gives before the after-tool
/// callbacks see it.
pub open spec fn outcome_result(name: Seq<char>, outcome: ToolOutcome) -> (ToolResultStatus, Seq<char>) {
    match outcome {
        ToolOutcome::Output(s) => (ToolResultStatus::Success, s@),
        ToolOutcome::Failed(e) => (ToolResultStatus::Error, "TOOL execute error"@ + e@),
        ToolOutcome::Unknown => (ToolResultStatus::Error, "TOOL execute error:unknow tool"@ + name),
    }
}

/// How far a call has got: its before-tool callbacks, then the tool, then
/// its after-tool callbacks.
pub open spec fn stage(phase: RoundPhase, n_before: usize) -> int {
    match phase {
        RoundPhase::Before(k) => k as int,
        RoundPhase::Run => n_before as int,
        RoundPhase::After(k) => n_before + 1 + k,
        RoundPhase::Finished => 0,
    }
}

/// The tool calls of one model reply, run one after another: the before-tool
/// callbacks are asked in order until one answers (its answer then stands for
/// the tool, which is not run, with status `Success`); otherwise the tool runs.
/// The after-tool callbacks are then asked in order until one replaces the
/// status and content.
pub struct ToolRound {
    calls: Vec<ToolCallRecord>,
    n_before: usize,
    n_after: usize,
    index: usize,
    phase: RoundPhase,
    status: ToolResultStatus,
    content: String,
    results: Vec<ContentItem>,
}

impl ToolRound {
    pub closed spec fn calls_spec(&self) -> Seq<ToolCallRecord> {
        self.calls@
    }

    pub closed spec fn n_before_spec(&self) -> usize {
        self.n_before
    }

    pub closed spec fn n_after_spec(&self) -> usize {
        self.n_after
    }

    /// The number of the call in progress (the number of calls when done).
    pub closed spec fn index_spec(&self) -> usize {
        self.index
    }

    pub closed spec fn phase_spec(&self) -> RoundPhase {
        self.phase
    }

    pub closed spec fn status_spec(&self) -> ToolResultStatus {
        self.status
    }

    pub closed spec fn content_spec(&self) -> String {
        self.content
    }

    /// The result items of the calls finished so far.
    pub closed spec fn results_spec(&self) -> Seq<ContentItem> {
        self.results@
    }

    /// Whether this round is further on than `before`: a later call, or the
    /// same call at a later stage.
    pub open spec fn advanced_from(&self, before: &ToolRound) -> bool {
        ||| self.index_spec() > before.index_spec()
        ||| self.index_spec() == before.index_spec() && stage(self.phase_spec(), self.n_before_spec())
            > stage(before.phase_spec(), before.n_before_spec())
    }

    /// The round's invariant.
    pub closed spec fn wf(&self) -> bool {
        &&& self.index <= self.calls@.len()
        &&& self.results@.len() == self.index
        &&& forall|k: int| 0 <= k < self.index ==> answers_call(#[trigger] self.results@[k], self.calls@[k])
        &&& (self.phase == RoundPhase::Finished <==> self.index == self.calls@.len())
        &&& (self.phase matches RoundPhase::Before(k) ==> k < self.n_before)
        &&& (self.phase matches RoundPhase::After(k) ==> k < self.n_after)
    }

    /// A round over the given calls with the given numbers of before-tool and
    /// after-tool callbacks.
    pub fn new(calls: Vec<ToolCallRecord>, n_before: usize, n_after: usize) -> (r: ToolRound)
        ensures
            r.wf(),
            r.calls_spec() == calls@,
            r.n_before_spec() == n_before,
            r.n_after_spec() == n_after,
            r.index_spec() == 0,
            r.results_spec() == Seq::<ContentItem>::empty(),
            r.phase_spec() == start_phase(n_before, 0, calls@.len() as int),
    {
        let phase = if calls.len() == 0 {
            RoundPhase::Finished
        } else if n_before > 0 {
            RoundPhase::Before(0)
        } else {
            RoundPhase::Run
        };
        ToolRound {
            calls,
            n_before,
            n_after,
            index: 0,
            phase,
            status: ToolResultStatus::Success,
            content: String::new(),
            results: Vec::new(),
        }
    }

    /// What to do next.
    pub fn next_action(&self) -> (a: ToolAction)
        requires
            self.wf(),
        ensures
            a == action_of(self.phase_spec(), self.index_spec()),
    {
        match self.phase {
            RoundPhase::Before(k) => ToolAction::AskBefore { call: self.index, callback: k },
            RoundPhase::Run => ToolAction::Execute { call: self.index },
            RoundPhase::After(k) => ToolAction::AskAfter { call: self.index, callback: k },
            RoundPhase::Finished => ToolAction::Done,
        }
    }

    /// The call in progress.
    pub fn current_call(&self) -> (c: &ToolCallRecord)
        requires
            self.wf(),
            self.phase_spec() != RoundPhase::Finished,
        ensures
            *c == self.calls_spec()[self.index_spec() as int],
    {
        &self.calls[self.index]
    }

    /// The status of the call in progress.
    pub fn current_status(&self) -> (s: ToolResultStatus)
        ensures
            s == self.status_spec(),
    {
        self.status
    }

    /// The content of the call in progress.
    pub fn current_content(&self) -> (c: &String)
        ensures
            *c == self.content_spec(),
    {
        &self.content
    }

    fn finish_call(&mut self)
        requires
            old(self).wf(),
            old(self).index < old(self).calls@.len(),
        ensures
            final(self).wf(),
            final(self).calls@ == old(self).calls@,
            final(self).n_before == old(self).n_before,
            final(self).n_after == old(self).n_after,
            final(self).index == old(self).index + 1,
            final(self).results@ == old(self).results@.push(
                result_item(old(self).calls@[old(self).index as int], old(self).status, old(self).content),
            ),
            final(self).phase == start_phase(
                old(self).n_before,
                old(self).index + 1,
                old(self).calls@.len() as int,
            ),
    {
        let idx = self.index;
        let n = self.calls.len();
        let call = &self.calls[idx];
        let mut content = String::new();
        std::mem::swap(&mut content, &mut self.content);
        self.results.push(
            ContentItem::ToolResult {
                tool_call_id: call.id.clone(),
                name: call.name.clone(),
                status: self.status,
                content,
            },
        );
        self.index = idx + 1;
        self.phase = if idx + 1 == n {
            RoundPhase::Finished
        } else if self.n_before > 0 {
            RoundPhase::Before(0)
        } else {
            RoundPhase::Run
        };
    }

    /// Sets the status and content of the call in progress and moves on to
    /// its after-tool callbacks, or finishes it when there are none.
    fn settle(&mut self, status: ToolResultStatus, content: String)
        requires
            old(self).wf(),
            old(self).index < old(self).calls@.len(),
        ensures
            final(self).wf(),
            final(self).calls@ == old(self).calls@,
            final(self).n_before == old(self).n_before,
            final(self).n_after == old(self).n_after,
            old(self).n_after > 0 ==> {
                &&& final(self).index == old(self).index
                &&& final(self).results@ == old(self).results@
                &&& final(self).phase == RoundPhase::After(0)
                &&& final(self).status == status
                &&& final(self).content == content
            },
            old(self).n_after == 0 ==> {
                &&& final(self).index == old(self).index + 1
                &&& final(self).results@ == old(self).results@.push(
                    result_item(old(self).calls@[old(self).index as int], status, content),
                )
                &&& final(self).phase == start_phase(
                    old(self).n_before,
                    old(self).index + 1,
                    old(self).calls@.len() as int,
                )
            },
    {
        self.status = status;
        self.content = content;
        if self.n_after > 0 {
            self.phase = RoundPhase::After(0);
        } else {
            self.finish_call();
        }
    }

    /// Takes the answer of the before-tool callback that was asked: an answer
    /// stands for the tool's output with status `Success`; no answer moves on
    /// to the next callback, or to running the tool after the last one.
    pub fn on_before(&mut self, reply: Option<String>)
        requires
            old(self).wf(),
            old(self).phase_spec() is Before,
        ensures
            final(self).advanced_from(&*old(self)),
            final(self).wf(),
            final(self).calls_spec() == old(self).calls_spec(),
            final(self).n_before_spec() == old(self).n_before_spec(),
            final(self).n_after_spec() == old(self).n_after_spec(),
            ({
                let k = old(self).phase_spec()->Before_0;
                match reply {
                    Some(s) => if old(self).n_after_spec() > 0 {
                        &&& final(self).index_spec() == old(self).index_spec()
                        &&& final(self).results_spec() == old(self).results_spec()
                        &&& final(self).phase_spec() == RoundPhase::After(0)
                        &&& final(self).status_spec() == ToolResultStatus::Success
                        &&& final(self).content_spec() == s
                    } else {
                        &&& final(self).index_spec() == old(self).index_spec() + 1
                        &&& final(self).results_spec() == old(self).results_spec().push(
                            result_item(
                                old(self).calls_spec()[old(self).index_spec() as int],
                                ToolResultStatus::Success,
                                s,
                            ),
                        )
                        &&& final(self).phase_spec() == start_phase(
                            old(self).n_before_spec(),
                            old(self).index_spec() + 1,
                            old(self).calls_spec().len() as int,
                        )
                    },
                    None => {
                        &&& final(self).index_spec() == old(self).index_spec()
                        &&& final(self).results_spec() == old(self).results_spec()
                        &&& final(self).phase_spec() == if k + 1 < old(self).n_before_spec() {
                            RoundPhase::Before((k + 1) as usize)
                        } else {
                            RoundPhase::Run
                        }
                    },
                }
            }),
    {
        let k = match self.phase {
            RoundPhase::Before(k) => k,
            _ => 0,
        };
        match reply {
            Some(s) => {
                self.settle(ToolResultStatus::Success, s);
            },
            None => {
                if k + 1 < self.n_before {
                    self.phase = RoundPhase::Before(k + 1);
                } else {
                    self.phase = RoundPhase::Run;
                }
            },
        }
    }

    /// Takes what running the tool gave (see `outcome_result`).
    pub fn on_executed(&mut self, outcome: ToolOutcome)
        requires
            old(self).wf(),
            old(self).phase_spec() == RoundPhase::Run,
        ensures
            final(self).advanced_from(&*old(self)),
            final(self).wf(),
            final(self).calls_spec() == old(self).calls_spec(),
            final(self).n_before_spec() == old(self).n_before_spec(),
            final(self).n_after_spec() == old(self).n_after_spec(),
            ({
                let call = old(self).calls_spec()[old(self).index_spec() as int];
                let (st, text) = outcome_result(call.name@, outcome);
                if old(self).n_after_spec() > 0 {
                    &&& final(self).index_spec() == old(self).index_spec()
                    &&& final(self).results_spec() == old(self).results_spec()
                    &&& final(self).phase_spec() == RoundPhase::After(0)
                    &&& final(self).status_spec() == st
                    &&& final(self).content_spec()@ == text
                } else {
                    &&& final(self).index_spec() == old(self).index_spec() + 1
                    &&& final(self).results_spec().drop_last() == old(self).results_spec()
                    &&& final(self).results_spec().last() matches ContentItem::ToolResult {
                        tool_call_id,
                        name,
                        status,
                        content,
                    }
                    &&& tool_call_id == call.id && name == call.name && status == st && content@ == text
                    &&& final(self).phase_spec() == start_phase(
                        old(self).n_before_spec(),
                        old(self).index_spec() + 1,
                        old(self).calls_spec().len() as int,
                    )
                }
            }),
    {
        let (status, content) = match outcome {
            ToolOutcome::Output(s) => (ToolResultStatus::Success, s),
            ToolOutcome::Failed(e) => (ToolResultStatus::Error, crate::text::join2("TOOL execute error", e.as_str())),
            ToolOutcome::Unknown => {
                let name = &self.calls[self.index].name;
                (ToolResultStatus::Error, crate::text::join2("TOOL execute error:unknow tool", name.as_str()))
            },
        };
        self.settle(status, content);
        proof {
            if self.n_after == 0 {
                assert(self.results@.drop_last() =~= old(self).results@);
            }
        }
    }

    /// Takes the answer of the after-tool callback that was asked: an answer
    /// replaces status and content and ends the call; no answer moves on to
    /// the next callback, or ends the call after the last one.
    pub fn on_after(&mut self, reply: Option<(ToolResultStatus, String)>)
        requires
            old(self).wf(),
            old(self).phase_spec() is After,
        ensures
            final(self).advanced_from(&*old(self)),
            final(self).wf(),
            final(self).calls_spec() == old(self).calls_spec(),
            final(self).n_before_spec() == old(self).n_before_spec(),
            final(self).n_after_spec() == old(self).n_after_spec(),
            ({
                let k = old(self).phase_spec()->After_0;
                let call = old(self).calls_spec()[old(self).index_spec() as int];
                let ends = reply is Some || k + 1 >= old(self).n_after_spec();
                let (st, c) = match reply {
                    Some(p) => p,
                    None => (old(self).status_spec(), old(self).content_spec()),
                };
                if ends {
                    &&& final(self).index_spec() == old(self).index_spec() + 1
                    &&& final(self).results_spec() == old(self).results_spec().push(result_item(call, st, c))
                    &&& final(self).phase_spec() == start_phase(
                        old(self).n_before_spec(),
                        old(self).index_spec() + 1,
                        old(self).calls_spec().len() as int,
                    )
                } else {
                    &&& final(self).index_spec() == old(self).index_spec()
                    &&& final(self).results_spec() == old(self).results_spec()
                    &&& final(self).phase_spec() == RoundPhase::After((k + 1) as usize)
                    &&& final(self).status_spec() == old(self).status_spec()
                    &&& final(self).content_spec() == old(self).content_spec()
                }
            }),
    {
        let k = match self.phase {
            RoundPhase::After(k) => k,
            _ => 0,
        };
        match reply {
            Some((st, c)) => {
                self.status = st;
                self.content = c;
                self.finish_call();
            },
            None => {
                if k + 1 < self.n_after {
                    self.phase = RoundPhase::After(k + 1);
                } else {
                    self.finish_call();
                }
            },
        }
    }

    /// The result items, one per call, once every call is done.
    pub fn into_results(self) -> (r: Vec<ContentItem>)
        requires
            self.wf(),
            self.phase_spec() == RoundPhase::Finished,
        ensures
            r@ == self.results_spec(),
            r@.len() == self.calls_spec().len(),
            forall|k: int| 0 <= k < r@.len() ==> answers_call(#[trigger] r@[k], self.calls_spec()[k]),
    {
        self.results
    }
}

} // verus!

verus! {

/// Why an agent run stopped without an answer.
#[derive(Debug, PartialEq, Eq, Structural)]
pub enum AgentError {
    /// The step limit was reached before the model answered.
    MaxStepExceeded,
    /// The model's reply held no message.
    NoMessage,
}

/// What the model replied.
pub enum ModelReply {
    /// The reply had no choice.
    NoChoice,
    /// The first choice asked for these tool calls (arguments as sent).
    ToolCalls(Vec<ToolCallRecord>),
    /// The first choice asked for no tool call; this is its text.
    Text(Option<String>),
}

/// What a run does after a model reply.
pub enum RunStep {
    /// Run these tool calls, then ask the model again.
    Tools(Vec<ToolCallRecord>),
    /// The run is over with this answer.
    Answer(String),
}

/// The answer of a run and the execution that led to it.
pub struct AgentResult {
    pub output: String,
    pub context: ExecutionContext,
}

/// Whether an item is a message with the given role and content.
pub open spec fn is_message(item: ContentItem, role: Seq<char>, content: Seq<char>) -> bool {
    item matches ContentItem::Message { role: r, content: c } && r@ == role && c@ == content
}

/// The step limit of an agent unless another is set.
pub const DEFAULT_MAX_STEPS: u32 = 10;

/// A fresh execution whose only event is the user's input, written by `user`.
pub fn start_run(user_input: &str) -> (c: ExecutionContext)
    ensures
        c.event@.len() == 1,
        c.event@[0].author@ == "user"@,
        c.event@[0].execution_id == c.execution_id,
        c.event@[0].content@.len() == 1,
        is_message(c.event@[0].content@[0], "user"@, user_input@),
        c.current_step == 0,
        c.state@ == Map::<String, serde_json::Value>::empty(),
        c.final_result is None,
{
    let mut context = ExecutionContext::new();
    let mut items: Vec<ContentItem> = Vec::new();
    items.push(ContentItem::Message { role: crate::text::owned("user"), content: user_input.to_owned() });
    let event = Event::new(context.execution_id.clone(), crate::text::owned("user"), items);
    context.add_event(event);
    context
}

/// The messages of the next request, or `MaxStepExceeded` once the step
/// limit is reached.
pub fn next_request(context: &ExecutionContext, max_steps: u32, instructions: Option<&str>) -> (r: Result<
    Vec<ChatMessage>,
    AgentError,
>)
    ensures
        r is Err <==> context.current_step >= max_steps,
        r matches Err(e) ==> e == AgentError::MaxStepExceeded,
        r matches Ok(m) ==> messages_view(m@) == with_items(
            initial_messages(opt_str_view(instructions)),
            event_items(context.event@),
        ),
{
    if context.current_step >= max_steps {
        return Err(AgentError::MaxStepExceeded);
    }
    Ok(build_messages(instructions, context))
}

/// Takes a model reply: tool calls are recorded (see `record_tool_calls`) and
/// handed back to be run; a text ends the run, recorded as an `agent` event
/// holding an `assistant` message and as the final result; a reply without a
/// message is `NoMessage` and changes nothing.
pub fn on_model_reply(context: &mut ExecutionContext, reply: ModelReply) -> (r: Result<RunStep, AgentError>)
    ensures
        final(context).execution_id == old(context).execution_id,
        final(context).current_step == old(context).current_step,
        final(context).state == old(context).state,
        match reply {
            ModelReply::NoChoice => r == Err::<RunStep, AgentError>(AgentError::NoMessage)
                && *final(context) == *old(context),
            ModelReply::Text(None) => r == Err::<RunStep, AgentError>(AgentError::NoMessage)
                && *final(context) == *old(context),
            ModelReply::Text(Some(text)) => {
                &&& r matches Ok(RunStep::Answer(a)) && a == text
                &&& final(context).event@.len() == old(context).event@.len() + 1
                &&& final(context).event@.drop_last() == old(context).event@
                &&& final(context).event@.last().author@ == "agent"@
                &&& final(context).event@.last().execution_id == old(context).execution_id
                &&& final(context).event@.last().content@.len() == 1
                &&& is_message(final(context).event@.last().content@[0], "assistant"@, text@)
                &&& final(context).final_result == Some(text)
            },
            ModelReply::ToolCalls(calls) => {
                &&& r matches Ok(RunStep::Tools(t)) && t@ == calls@
                &&& final(context).event@.len() == old(context).event@.len() + 1
                &&& final(context).event@.drop_last() == old(context).event@
                &&& final(context).event@.last().author@ == "agent"@
                &&& final(context).event@.last().execution_id == old(context).execution_id
                &&& final(context).event@.last().content@.len() == calls@.len()
                &&& forall|i: int|
                    0 <= i < calls@.len() ==> recorded_call(
                        calls@[i],
                        #[trigger] final(context).event@.last().content@[i],
                    )
                &&& final(context).final_result == old(context).final_result
            },
        },
{
    match reply {
        ModelReply::NoChoice => Err(AgentError::NoMessage),
        ModelReply::Text(None) => Err(AgentError::NoMessage),
        ModelReply::Text(Some(text)) => {
            let mut items: Vec<ContentItem> = Vec::new();
            items.push(ContentItem::Message { role: crate::text::owned("assistant"), content: text.clone() });
            let event = Event::new(context.execution_id.clone(), crate::text::owned("agent"), items);
            context.add_event(event);
            context.final_result = Some(text.clone());
            assert(context.event@.drop_last() =~= old(context).event@);
            Ok(RunStep::Answer(text))
        },
        ModelReply::ToolCalls(calls) => {
            record_tool_calls(context, &calls);
            Ok(RunStep::Tools(calls))
        },
    }
}

/// Records the results of a finished round of tool calls as one event
/// written by `tool`, one result per call in the order of the calls, and
/// counts the step.
pub fn finish_tool_round(context: &mut ExecutionContext, round: ToolRound)
    requires
        old(context).current_step < u32::MAX,
        round.wf(),
        round.phase_spec() == RoundPhase::Finished,
    ensures
        final(context).event@.len() == old(context).event@.len() + 1,
        final(context).event@.drop_last() == old(context).event@,
        final(context).event@.last().author@ == "tool"@,
        final(context).event@.last().execution_id == old(context).execution_id,
        final(context).event@.last().content@ == round.results_spec(),
        final(context).event@.last().content@.len() == round.calls_spec().len(),
        forall|k: int|
            0 <= k < round.calls_spec().len() ==> answers_call(
                #[trigger] final(context).event@.last().content@[k],
                round.calls_spec()[k],
            ),
        final(context).current_step == old(context).current_step + 1,
        final(context).execution_id == old(context).execution_id,
        final(context).state == old(context).state,
        final(context).final_result == old(context).final_result,
{
    let results = round.into_results();
    let event = Event::new(context.execution_id.clone(), crate::text::owned("tool"), results);
    context.add_event(event);
    context.increment_step();
    assert(context.event@.drop_last() =~= old(context).event@);
}

} // verus!
