//! The agent loop: model, tools, model, until the run answers, signals that it
//! is done, is cancelled, or exhausts its tool-call budget.
//!
//! The loop decides; its host does the work. The host polls the run, performs
//! what the run asks for next, and hands back what came of it.

use crate::agent_runtime::context;
use crate::agent_runtime::context::MessageTokens;
use crate::agent_runtime::tools::ToolResult;
use crate::agent_runtime::tools::ToolResultView;
use crate::json;
use crate::json::Json;
use crate::json::JsonTree;
use crate::outside;
use crate::providers::error::ProviderError;
use crate::providers::types;
use crate::providers::types::CompletionResponse;
use crate::providers::types::CompletionView;
use crate::providers::types::DeltaView;
use crate::providers::types::GenerationParams;
use crate::providers::types::Message;
use crate::providers::types::MessageRole;
use crate::providers::types::MessageView;
use crate::providers::types::StreamDelta;
use crate::providers::types::ToolCall;
use crate::providers::types::ToolCallView;
use crate::text;
use vstd::prelude::*;

verus! {

/// Progress that a run makes while it is still in flight.
#[derive(Debug, PartialEq)]
pub enum RunEvent {
    /// A chunk of model text, as the provider produced it. Only streaming runs
    /// emit these.
    Delta { text: String },
    /// A tool is about to execute.
    ToolStart { tool_call_id: String, tool_name: String, input: Json },
    /// A tool finished. `failed` mirrors the status that is recorded.
    ToolComplete { tool_call_id: String, tool_name: String, results_count: i32, failed: bool },
}

/// How a run decides that it is finished.
#[derive(Debug, PartialEq)]
pub enum Termination {
    /// The first model turn that asks for no tools is the answer.
    NoToolCalls,
    /// The model calls this tool to say that research is over. The run stops
    /// after that round without an answer of its own. A turn without tool
    /// calls still ends the run.
    Sentinel(String),
}

impl Termination {
    /// Whether calling the tool `name` ends the run.
    pub open spec fn ends_with(&self, name: Seq<char>) -> bool {
        match self {
            Termination::NoToolCalls => false,
            Termination::Sentinel(sentinel) => sentinel@ == name,
        }
    }

    pub fn is_sentinel(&self, tool_name: &str) -> (yes: bool)
        ensures
            yes == self.ends_with(tool_name@),
            yes <==> (self matches Termination::Sentinel(sentinel) && sentinel@ == tool_name@),
    {
        match self {
            Termination::NoToolCalls => false,
            Termination::Sentinel(name) => text::same_text(name.as_str(), tool_name),
        }
    }
}

/// Why the loop stopped.
#[derive(Debug, Clone, Copy, PartialEq, Eq, Structural)]
pub enum StopReason {
    /// The model answered without asking for more tools.
    Answered,
    /// The run's sentinel tool was called.
    Sentinel,
    /// The run was cancelled.
    Cancelled,
    /// The tool-call budget ran out.
    IterationCap,
}

/// Everything about a run that is policy rather than content.
pub struct RunConfig {
    pub model: String,
    pub params: GenerationParams,
    /// Tool-calling rounds that the run may take before it gives up.
    pub max_iterations: usize,
    pub termination: Termination,
    /// Whether the model's text is streamed as it arrives.
    pub streaming: bool,
    /// Whether one more completion, with no tools offered, is spent when the
    /// budget runs out with nothing said yet.
    pub salvage_on_cap: bool,
    /// The prompt budget of each call: the oldest tool rounds are trimmed to
    /// about 70% of this many tokens. `None` sends the history as it is.
    pub context_length: Option<usize>,
}

/// One tool call as it happened.
#[derive(Debug, PartialEq)]
pub struct ToolCallRecord {
    pub id: String,
    pub name: String,
    pub input: Json,
    pub output: String,
    pub failed: bool,
    pub started_at: String,
    pub completed_at: String,
}

/// One tool call as it happened.
pub struct RecordView {
    pub id: Seq<char>,
    pub name: Seq<char>,
    pub input: JsonTree,
    pub output: Seq<char>,
    pub failed: bool,
    pub started_at: Seq<char>,
    pub completed_at: Seq<char>,
}

impl View for ToolCallRecord {
    type V = RecordView;

    open spec fn view(&self) -> RecordView {
        RecordView {
            id: self.id@,
            name: self.name@,
            input: self.input@,
            output: self.output@,
            failed: self.failed,
            started_at: self.started_at@,
            completed_at: self.completed_at@,
        }
    }
}

/// The views of a list of records.
pub open spec fn records_view(records: Seq<ToolCallRecord>) -> Seq<RecordView> {
    Seq::new(records.len(), |i: int| records[i]@)
}

/// What a run produced.
pub struct RunOutcome {
    /// The model's answer where it gave one; the text so far where the run was
    /// cut short; empty where the run ended on its sentinel.
    pub content: String,
    /// The full message history, every tool round included. Where the run was
    /// cancelled, tool calls of its last round may be unanswered.
    pub messages: Vec<Message>,
    /// Every tool call made, in order.
    pub tool_calls: Vec<ToolCallRecord>,
    pub stop: StopReason,
}

/// Why a run could not produce anything. The variants carry the raw text of
/// the provider.
#[derive(Debug, PartialEq)]
pub enum RunError {
    /// The provider could not be built from the run's configuration.
    Setup(String),
    /// A model call failed.
    Provider(String),
}

impl RunError {
    /// How the error reads.
    pub open spec fn rendering(&self) -> Seq<char> {
        match self {
            RunError::Setup(error) => error@,
            RunError::Provider(error) => error@,
        }
    }

    pub fn to_string(&self) -> (text: String)
        ensures
            text@ == self.rendering(),
            self matches RunError::Setup(error) ==> text@ == error@,
            self matches RunError::Provider(error) ==> text@ == error@,
    {
        match self {
            RunError::Setup(error) => error.clone(),
            RunError::Provider(error) => error.clone(),
        }
    }

    /// The error of a run whose provider could not be built.
    pub fn setup(error: &ProviderError) -> (run_error: RunError)
        ensures
            run_error matches RunError::Setup(text) && text@ == error.rendering(),
    {
        RunError::Setup(error.to_string())
    }

    /// The error of a run one of whose model calls failed.
    pub fn provider(error: &ProviderError) -> (run_error: RunError)
        ensures
            run_error matches RunError::Provider(text) && text@ == error.rendering(),
    {
        RunError::Provider(error.to_string())
    }
}

// ==================== Balance ====================

/// Whether a message of the history answers the tool call `id`.
pub open spec fn answered(messages: Seq<MessageView>, id: Seq<char>) -> bool {
    exists|i: int| 0 <= i < messages.len() && (#[trigger] messages[i]).tool_call_id == Some(id)
}

/// Whether every tool call that the history requests is answered, except for
/// those of `pending`.
pub open spec fn balanced_but(messages: Seq<MessageView>, pending: Seq<ToolCallView>) -> bool {
    forall|i: int, k: int|
        0 <= i < messages.len() && 0 <= k < requested_by(messages[i]).len() ==> answered(
            messages,
            (#[trigger] requested_by(messages[i])[k]).id,
        ) || pending.contains(requested_by(messages[i])[k])
}

/// Whether every tool call that the history requests is answered.
pub open spec fn balanced(messages: Seq<MessageView>) -> bool {
    balanced_but(messages, Seq::empty())
}

/// The tool calls that a message requests.
pub open spec fn requested_by(message: MessageView) -> Seq<ToolCallView> {
    match message.tool_calls {
        Some(calls) => calls,
        None => Seq::empty(),
    }
}

fn is_answered(messages: &Vec<Message>, id: &str) -> (yes: bool)
    ensures
        yes == answered(types::messages_view(messages@), id@),
{
    let ghost view = types::messages_view(messages@);
    let mut at: usize = 0;
    while at < messages.len()
        invariant
            at <= messages.len(),
            view == types::messages_view(messages@),
            forall|i: int| 0 <= i < at ==> (#[trigger] view[i]).tool_call_id != Some(id@),
        decreases messages.len() - at,
    {
        assert(view[at as int] == messages@[at as int]@);
        if let Some(answers) = &messages[at].tool_call_id {
            if text::same_text(answers.as_str(), id) {
                return true;
            }
        }
        at = at + 1;
    }
    false
}

/// Whether every tool call requested in `messages` has a `tool` result: what
/// providers ask of a history that is replayed.
pub fn messages_are_balanced(messages: &Vec<Message>) -> (yes: bool)
    ensures
        yes == balanced(types::messages_view(messages@)),
{
    let ghost view = types::messages_view(messages@);
    let mut at: usize = 0;
    while at < messages.len()
        invariant
            at <= messages.len(),
            view == types::messages_view(messages@),
            forall|i: int, k: int|
                0 <= i < at && 0 <= k < requested_by(view[i]).len() ==> answered(
                    view,
                    (#[trigger] requested_by(view[i])[k]).id,
                ),
        decreases messages.len() - at,
    {
        assert(view[at as int] == messages@[at as int]@);
        if let Some(calls) = &messages[at].tool_calls {
            let mut next: usize = 0;
            assert(requested_by(view[at as int]) == types::calls_view(calls@));
            while next < calls.len()
                invariant
                    next <= calls.len(),
                    at < messages@.len(),
                    view == types::messages_view(messages@),
                    requested_by(view[at as int]) == types::calls_view(calls@),
                    forall|k: int|
                        0 <= k < next ==> answered(
                            view,
                            (#[trigger] requested_by(view[at as int])[k]).id,
                        ),
                decreases calls.len() - next,
            {
                assert(requested_by(view[at as int])[next as int] == calls@[next as int]@);
                if !is_answered(messages, calls[next].id.as_str()) {
                    return false;
                }
                next = next + 1;
            }
        }
        at = at + 1;
    }
    true
}

// ==================== The loop ====================

/// Where a run stands.
pub enum Stage {
    /// Between two model turns.
    Ready,
    /// A model call is in flight.
    Calling,
    /// In a round of tool calls, of which the first `next` are answered.
    /// `sentinel` says whether one of those ends the run.
    Round { calls: Seq<ToolCallView>, next: int, sentinel: bool },
    /// In such a round, with the tool call at `next` in execution.
    Executing { calls: Seq<ToolCallView>, next: int, sentinel: bool },
    /// The call that is to salvage an answer is in flight.
    Salvaging,
    /// The run is over.
    Stopped { stop: StopReason, content: Seq<char> },
}

/// What a run has come to.
pub struct RunState {
    pub messages: Seq<MessageView>,
    /// The text that the model has produced so far, over all turns.
    pub produced: Seq<char>,
    pub records: Seq<RecordView>,
    /// The model calls made, the salvaging one not counted.
    pub rounds: nat,
    pub stage: Stage,
}

/// The input of a tool call: what its arguments hold as JSON, and null where
/// they do not hold JSON.
pub open spec fn call_input(call: ToolCallView) -> JsonTree {
    match outside::json_value(types::or_empty(call.called_arguments())) {
        Some(tree) => tree,
        None => JsonTree::Null,
    }
}

impl RunState {
    /// A run that has not started.
    pub open spec fn start(messages: Seq<MessageView>) -> RunState {
        RunState {
            messages,
            produced: Seq::empty(),
            records: Seq::empty(),
            rounds: 0,
            stage: Stage::Ready,
        }
    }

    /// The run stopped, with the text so far as its content.
    pub open spec fn cut_short(self, stop: StopReason) -> RunState {
        RunState { stage: Stage::Stopped { stop, content: self.produced }, ..self }
    }

    /// The run goes on as far as it can without its host. The budget is looked
    /// at before the cancel flag, a round is over when its last call is
    /// answered, and only then does a sentinel count. A run out of budget with
    /// nothing said may salvage an answer.
    pub open spec fn polled(self, config: RunConfig, cancelled: bool) -> RunState {
        match self.stage {
            Stage::Ready => if self.rounds >= config.max_iterations {
                if config.salvage_on_cap && text::blank(self.produced) {
                    RunState { stage: Stage::Salvaging, ..self }
                } else {
                    self.cut_short(StopReason::IterationCap)
                }
            } else if cancelled {
                self.cut_short(StopReason::Cancelled)
            } else {
                RunState { stage: Stage::Calling, rounds: self.rounds + 1, ..self }
            },
            Stage::Round { calls, next, sentinel } => if next >= calls.len() {
                if sentinel {
                    RunState {
                        stage: Stage::Stopped {
                            stop: StopReason::Sentinel,
                            content: Seq::empty(),
                        },
                        ..self
                    }
                } else {
                    RunState { stage: Stage::Ready, ..self }
                }
            } else if cancelled {
                self.cut_short(StopReason::Cancelled)
            } else {
                RunState { stage: Stage::Executing { calls, next, sentinel }, ..self }
            },
            _ => self,
        }
    }

    /// A chunk of text has arrived. Once the run is cancelled no text counts.
    pub open spec fn with_delta(self, delta: DeltaView, cancelled: bool) -> RunState {
        match delta {
            DeltaView::Content(text) => if cancelled {
                self
            } else {
                RunState { produced: self.produced + text, ..self }
            },
            _ => self,
        }
    }

    /// The model has answered the call in flight. A turn without tool calls is
    /// the run's answer; one with tool calls opens a round. Text that was not
    /// streamed is taken in here.
    pub open spec fn with_response(self, config: RunConfig, response: CompletionView) -> RunState {
        if self.stage is Calling {
            let calls = match response.tool_calls {
                Some(calls) => calls,
                None => Seq::empty(),
            };
            if calls.len() == 0 {
                RunState {
                    stage: Stage::Stopped {
                        stop: StopReason::Answered,
                        content: response.content,
                    },
                    ..self
                }
            } else {
                RunState {
                    messages: self.messages.push(
                        MessageView::tool_request(response.content, calls),
                    ),
                    produced: if config.streaming {
                        self.produced
                    } else {
                        self.produced + response.content
                    },
                    stage: Stage::Round { calls, next: 0, sentinel: false },
                    ..self
                }
            }
        } else {
            self
        }
    }

    /// The call in flight was dropped because the run was cancelled.
    pub open spec fn interrupted(self) -> RunState {
        if self.stage is Calling {
            self.cut_short(StopReason::Cancelled)
        } else {
            self
        }
    }

    /// The tool in execution has finished.
    pub open spec fn with_result(
        self,
        config: RunConfig,
        result: ToolResultView,
        started_at: Seq<char>,
        completed_at: Seq<char>,
    ) -> RunState {
        match self.stage {
            Stage::Executing { calls, next, sentinel } => {
                let call = calls[next];
                let name = types::or_empty(call.called_name());
                RunState {
                    messages: self.messages.push(MessageView::tool_result(call.id, result.output)),
                    records: self.records.push(
                        RecordView {
                            id: call.id,
                            name,
                            input: call_input(call),
                            output: result.output,
                            failed: result.failed,
                            started_at,
                            completed_at,
                        },
                    ),
                    stage: Stage::Round {
                        calls,
                        next: next + 1,
                        sentinel: sentinel || config.termination.ends_with(name),
                    },
                    ..self
                }
            },
            _ => self,
        }
    }

    /// The salvaging call has come back, with nothing where it failed.
    pub open spec fn salvaged(self, content: Option<Seq<char>>) -> RunState {
        if self.stage is Salvaging {
            RunState {
                stage: Stage::Stopped {
                    stop: StopReason::IterationCap,
                    content: types::or_empty(content),
                },
                ..self
            }
        } else {
            self
        }
    }
}

/// What a run asks of its host.
#[derive(Debug, PartialEq)]
pub enum Next {
    /// Poll again, with a fresh look at the cancel flag.
    Continue,
    /// Call the model with the prompt, offering the tools.
    Call,
    /// Report the event, which starts a tool, and execute that tool.
    Execute(RunEvent),
    /// Call the model with the prompt, offering no tools.
    Salvage,
    /// Take the outcome.
    Finished,
}

#[derive(Debug, Clone, Copy, PartialEq, Eq, Structural)]
enum Phase {
    Ready,
    Calling,
    Round,
    Executing,
    Salvaging,
    Stopped(StopReason),
}

/// One agent run, executed once.
pub struct AgentRun {
    config: RunConfig,
    messages: Vec<Message>,
    produced: String,
    records: Vec<ToolCallRecord>,
    rounds: usize,
    phase: Phase,
    calls: Vec<ToolCall>,
    next: usize,
    sentinel: bool,
    content: String,
}

fn input_of(call: &ToolCall) -> (input: Json)
    ensures
        input@ == call_input(call@),
{
    let arguments = call.arguments_or_empty();
    match json::parse(arguments.as_str()) {
        Some(input) => input,
        None => Json::Null,
    }
}

/// The result of a call for a tool that the run does not have: a failed call
/// and not an empty result.
pub fn unknown_tool(name: &str) -> (result: ToolResult)
    ensures
        result@ == ToolResultView::failure("Unknown tool: "@ + name@),
{
    let error = String::from_str("Unknown tool: ").concat(name);
    ToolResult::failed(error.as_str())
}

/// The turn of the model that requests tool calls, with the text it said
/// alongside.
fn assistant_turn(content: &str, calls: Vec<ToolCall>) -> (message: Message)
    ensures
        message@ == MessageView::tool_request(content@, types::calls_view(calls@)),
{
    if content.is_empty() {
        Message::assistant_with_tool_calls(calls)
    } else {
        let mut message = Message::assistant(content);
        message.tool_calls = Some(calls);
        message
    }
}

impl AgentRun {
    /// The run's policy.
    pub closed spec fn config(&self) -> RunConfig {
        self.config
    }

    /// What the run has come to.
    pub closed spec fn state(&self) -> RunState {
        RunState {
            messages: types::messages_view(self.messages@),
            produced: self.produced@,
            records: records_view(self.records@),
            rounds: self.rounds as nat,
            stage: match self.phase {
                Phase::Ready => Stage::Ready,
                Phase::Calling => Stage::Calling,
                Phase::Round => Stage::Round {
                    calls: types::calls_view(self.calls@),
                    next: self.next as int,
                    sentinel: self.sentinel,
                },
                Phase::Executing => Stage::Executing {
                    calls: types::calls_view(self.calls@),
                    next: self.next as int,
                    sentinel: self.sentinel,
                },
                Phase::Salvaging => Stage::Salvaging,
                Phase::Stopped(stop) => Stage::Stopped { stop, content: self.content@ },
            },
        }
    }

    /// A tool is in execution only while there is one to execute.
    pub closed spec fn well_formed(&self) -> bool {
        &&& self.phase == Phase::Executing ==> self.next < self.calls@.len()
        &&& self.rounds <= self.config.max_iterations
    }

    pub fn new(config: RunConfig, messages: Vec<Message>) -> (run: AgentRun)
        ensures
            run.well_formed(),
            run.config() == config,
            run.state() == RunState::start(types::messages_view(messages@)),
    {
        let run = AgentRun {
            config,
            messages,
            produced: String::new(),
            records: Vec::new(),
            rounds: 0,
            phase: Phase::Ready,
            calls: Vec::new(),
            next: 0,
            sentinel: false,
            content: String::new(),
        };
        assert(records_view(run.records@) =~= Seq::empty());
        run
    }

    fn stop_short(&mut self, stop: StopReason)
        requires
            old(self).well_formed(),
        ensures
            final(self).well_formed(),
            final(self).config() == old(self).config(),
            final(self).state() == old(self).state().cut_short(stop),
    {
        self.content = self.produced.clone();
        self.phase = Phase::Stopped(stop);
    }

    /// Lets the run go on as far as it can without its host, and says what it
    /// needs next.
    pub fn poll(&mut self, cancelled: bool) -> (next: Next)
        requires
            old(self).well_formed(),
        ensures
            final(self).well_formed(),
            final(self).config() == old(self).config(),
            final(self).state() == old(self).state().polled(old(self).config(), cancelled),
            match final(self).state().stage {
                Stage::Ready => next is Continue,
                Stage::Round { .. } => next is Continue,
                Stage::Calling => next is Call,
                Stage::Salvaging => next is Salvage,
                Stage::Stopped { .. } => next is Finished,
                Stage::Executing { calls, next: at, .. } => {
                    &&& 0 <= at < calls.len()
                    &&& next matches Next::Execute(RunEvent::ToolStart {
                        tool_call_id,
                        tool_name,
                        input,
                    })
                    &&& tool_call_id@ == calls[at].id
                    &&& tool_name@ == types::or_empty(calls[at].called_name())
                    &&& input@ == call_input(calls[at])
                    &&& input@ == (match outside::json_value(
                        types::or_empty(calls[at].called_arguments()),
                    ) {
                        Some(tree) => tree,
                        None => JsonTree::Null,
                    })
                },
            },
    {
        match self.phase {
            Phase::Ready => {
                if self.rounds >= self.config.max_iterations {
                    if self.config.salvage_on_cap && text::is_blank(self.produced.as_str()) {
                        self.phase = Phase::Salvaging;
                    } else {
                        self.stop_short(StopReason::IterationCap);
                    }
                } else if cancelled {
                    self.stop_short(StopReason::Cancelled);
                } else {
                    self.rounds = self.rounds + 1;
                    self.phase = Phase::Calling;
                }
            },
            Phase::Round => {
                if self.next >= self.calls.len() {
                    if self.sentinel {
                        self.content = String::new();
                        self.phase = Phase::Stopped(StopReason::Sentinel);
                    } else {
                        self.phase = Phase::Ready;
                    }
                } else if cancelled {
                    self.stop_short(StopReason::Cancelled);
                } else {
                    self.phase = Phase::Executing;
                }
            },
            _ => {},
        }
        match self.phase {
            Phase::Ready => Next::Continue,
            Phase::Round => Next::Continue,
            Phase::Calling => Next::Call,
            Phase::Salvaging => Next::Salvage,
            Phase::Stopped(_) => Next::Finished,
            Phase::Executing => {
                let call = &self.calls[self.next];
                Next::Execute(
                    RunEvent::ToolStart {
                        tool_call_id: call.id.clone(),
                        tool_name: call.name_or_empty(),
                        input: input_of(call),
                    },
                )
            },
        }
    }

    /// The messages of the run so far.
    pub fn messages(&self) -> (messages: &Vec<Message>)
        ensures
            types::messages_view(messages@) == self.state().messages,
    {
        &self.messages
    }

    /// The prompt of the next model call: the history, trimmed to the context
    /// window. `counts` are the tokens of the messages so far.
    pub fn prompt(&self, counts: &Vec<MessageTokens>) -> (prompt: Vec<Message>)
        requires
            counts@.len() == self.state().messages.len(),
            context::sum(context::totals(counts@), 0, counts@.len() as int) <= usize::MAX,
        ensures
            types::messages_view(prompt@) == (match self.config().context_length {
                Some(context_length) => context::trimmed_history(
                    self.state().messages,
                    context::totals(counts@),
                    context::prompt_budget(context_length),
                ),
                None => self.state().messages,
            }),
    {
        context::truncate_messages_to_context(
            types::copy_messages(&self.messages),
            counts,
            self.config.context_length,
        )
    }

    /// Takes in an increment of the call in flight. What comes back is the
    /// event to report: text that is not empty, as long as the run is not
    /// cancelled.
    pub fn on_delta(&mut self, delta: &StreamDelta, cancelled: bool) -> (event: Option<RunEvent>)
        requires
            old(self).well_formed(),
        ensures
            final(self).well_formed(),
            final(self).config() == old(self).config(),
            final(self).state() == old(self).state().with_delta(delta@, cancelled),
            match event {
                Some(event) => event matches RunEvent::Delta { text } && delta@
                    == DeltaView::Content(text@) && text@.len() > 0 && !cancelled,
                None => cancelled || !(delta@ matches DeltaView::Content(text) && text.len() > 0),
            },
    {
        match delta {
            StreamDelta::Content(text) => {
                if cancelled {
                    return None;
                }
                self.produced.append(text.as_str());
                if text.as_str().is_empty() {
                    return None;
                }
                Some(RunEvent::Delta { text: text.clone() })
            },
            _ => None,
        }
    }

    /// Takes in the model's answer to the call in flight.
    pub fn on_response(&mut self, response: CompletionResponse)
        requires
            old(self).well_formed(),
        ensures
            final(self).well_formed(),
            final(self).config() == old(self).config(),
            final(self).state() == old(self).state().with_response(old(self).config(), response@),
    {
        if self.phase != Phase::Calling {
            return;
        }
        let ghost before = self.messages@;
        match response.tool_calls {
            Some(calls) if calls.len() > 0 => {
                if !self.config.streaming {
                    self.produced.append(response.content.as_str());
                }
                let turn = assistant_turn(response.content.as_str(), types::copy_calls(&calls));
                self.messages.push(turn);
                assert(types::messages_view(self.messages@) =~= types::messages_view(before).push(
                    turn@,
                ));
                self.calls = calls;
                self.next = 0;
                self.sentinel = false;
                self.phase = Phase::Round;
            },
            _ => {
                self.content = response.content;
                self.phase = Phase::Stopped(StopReason::Answered);
            },
        }
    }

    /// Notes that the call in flight was dropped because the run was
    /// cancelled.
    pub fn on_interrupt(&mut self)
        requires
            old(self).well_formed(),
        ensures
            final(self).well_formed(),
            final(self).config() == old(self).config(),
            final(self).state() == old(self).state().interrupted(),
    {
        if self.phase == Phase::Calling {
            self.stop_short(StopReason::Cancelled);
        }
    }

    /// Takes in the result of the tool in execution, with the times at which
    /// it started and finished. What comes back is the event to report.
    pub fn on_result(&mut self, result: ToolResult, started_at: &str, completed_at: &str) -> (event:
        Option<RunEvent>)
        requires
            old(self).well_formed(),
        ensures
            final(self).well_formed(),
            final(self).config() == old(self).config(),
            final(self).state() == old(self).state().with_result(
                old(self).config(),
                result@,
                started_at@,
                completed_at@,
            ),
            match old(self).state().stage {
                Stage::Executing { calls, next, .. } => {
                    &&& event matches Some(RunEvent::ToolComplete {
                        tool_call_id,
                        tool_name,
                        results_count,
                        failed,
                    })
                    &&& tool_call_id@ == calls[next].id
                    &&& tool_name@ == types::or_empty(calls[next].called_name())
                    &&& results_count == result.results_count
                    &&& failed == result.failed
                },
                _ => event is None,
            },
    {
        if self.phase != Phase::Executing {
            return None;
        }
        assert(self.next < self.calls.len());
        let call = self.calls[self.next].clone();
        let name = call.name_or_empty();
        let ends = self.config.termination.is_sentinel(name.as_str());
        let ghost before = self.messages@;
        let ghost before_records = self.records@;
        let message = Message::tool_result(call.id.as_str(), result.output.as_str());
        let record = ToolCallRecord {
            id: call.id.clone(),
            name: name.clone(),
            input: input_of(&call),
            output: result.output,
            failed: result.failed,
            started_at: started_at.to_owned(),
            completed_at: completed_at.to_owned(),
        };
        self.records.push(record);
        self.messages.push(message);
        proof {
            assert(records_view(self.records@) =~= records_view(before_records).push(record@));
            assert(types::messages_view(self.messages@) =~= types::messages_view(before).push(
                message@,
            ));
        }
        self.sentinel = self.sentinel || ends;
        self.next = self.next + 1;
        self.phase = Phase::Round;
        Some(
            RunEvent::ToolComplete {
                tool_call_id: call.id,
                tool_name: name,
                results_count: result.results_count,
                failed: result.failed,
            },
        )
    }

    /// Takes in what the salvaging call came back with, which is nothing where
    /// it failed.
    pub fn on_salvage(&mut self, content: Option<String>)
        requires
            old(self).well_formed(),
        ensures
            final(self).well_formed(),
            final(self).config() == old(self).config(),
            final(self).state() == old(self).state().salvaged(text::optional(content)),
    {
        if self.phase == Phase::Salvaging {
            self.content = match content {
                Some(content) => content,
                None => String::new(),
            };
            self.phase = Phase::Stopped(StopReason::IterationCap);
        }
    }

    /// The outcome of a run that is over.
    pub fn outcome(self) -> (outcome: Option<RunOutcome>)
        ensures
            match self.state().stage {
                Stage::Stopped { stop, content } => {
                    &&& outcome matches Some(outcome)
                    &&& outcome.stop == stop
                    &&& outcome.content@ == content
                    &&& types::messages_view(outcome.messages@) == self.state().messages
                    &&& records_view(outcome.tool_calls@) == self.state().records
                },
                _ => outcome is None,
            },
    {
        match self.phase {
            Phase::Stopped(stop) => Some(
                RunOutcome {
                    content: self.content,
                    messages: self.messages,
                    tool_calls: self.records,
                    stop,
                },
            ),
            _ => None,
        }
    }
}

// ==================== What holds of every run ====================

/// What the host hands to a run.
pub enum Input {
    Poll { cancelled: bool },
    Delta { delta: DeltaView, cancelled: bool },
    Response(CompletionView),
    Interrupt,
    Result { result: ToolResultView, started_at: Seq<char>, completed_at: Seq<char> },
    Salvage(Option<Seq<char>>),
}

impl RunState {
    /// What the run has come to once `input` has been handed to it.
    pub open spec fn after(self, config: RunConfig, input: Input) -> RunState {
        match input {
            Input::Poll { cancelled } => self.polled(config, cancelled),
            Input::Delta { delta, cancelled } => self.with_delta(delta, cancelled),
            Input::Response(response) => self.with_response(config, response),
            Input::Interrupt => self.interrupted(),
            Input::Result { result, started_at, completed_at } => self.with_result(
                config,
                result,
                started_at,
                completed_at,
            ),
            Input::Salvage(content) => self.salvaged(content),
        }
    }

    /// What the run has come to once all `inputs` have been handed to it.
    pub open spec fn after_all(self, config: RunConfig, inputs: Seq<Input>) -> RunState
        decreases inputs.len(),
    {
        if inputs.len() == 0 {
            self
        } else {
            self.after_all(config, inputs.drop_last()).after(config, inputs.last())
        }
    }

    /// The tool calls that are still to be answered.
    pub open spec fn pending(self) -> Seq<ToolCallView> {
        match self.stage {
            Stage::Round { calls, next, .. } => calls.skip(next),
            Stage::Executing { calls, next, .. } => calls.skip(next),
            _ => Seq::empty(),
        }
    }

    /// Whether the run was cancelled.
    pub open spec fn cancelled(self) -> bool {
        self.stage matches Stage::Stopped { stop, .. } && stop == StopReason::Cancelled
    }

    /// Whether every requested tool call is answered, except for the ones that
    /// are still to be.
    pub open spec fn keeps_balance(self) -> bool {
        self.cancelled() || balanced_but(self.messages, self.pending())
    }

    /// Whether the round that a run is in is within its bounds.
    pub open spec fn in_bounds(self) -> bool {
        match self.stage {
            Stage::Round { calls, next, .. } => 0 <= next <= calls.len(),
            Stage::Executing { calls, next, .. } => 0 <= next < calls.len(),
            _ => true,
        }
    }
}

/// The tool results in a history, in order: which call each answers, and what
/// with.
pub open spec fn results_in(messages: Seq<MessageView>) -> Seq<(Seq<char>, Seq<char>)>
    decreases messages.len(),
{
    if messages.len() == 0 {
        Seq::empty()
    } else {
        let before = results_in(messages.drop_last());
        match messages.last().tool_call_id {
            Some(id) => before.push((id, types::or_empty(messages.last().content))),
            None => before,
        }
    }
}

/// What records say was answered, in order.
pub open spec fn answers_in(records: Seq<RecordView>) -> Seq<(Seq<char>, Seq<char>)> {
    Seq::new(records.len(), |i: int| (records[i].id, records[i].output))
}

proof fn lemma_answered_grows(messages: Seq<MessageView>, message: MessageView, id: Seq<char>)
    requires
        answered(messages, id),
    ensures
        answered(messages.push(message), id),
{
    let i = choose|i: int| 0 <= i < messages.len() && (#[trigger] messages[i]).tool_call_id == Some(id);
    assert(messages.push(message)[i] == messages[i]);
}

proof fn lemma_balance_step(state: RunState, config: RunConfig, input: Input)
    requires
        state.keeps_balance(),
        state.in_bounds(),
    ensures
        state.after(config, input).keeps_balance(),
        state.after(config, input).in_bounds(),
{
    let next = state.after(config, input);
    match (input, state.stage) {
        (Input::Response(response), Stage::Calling) => {
            if next.stage is Round {
                let calls = response.tool_calls->0;
                let turn = MessageView::tool_request(response.content, calls);
                assert(next.messages == state.messages.push(turn));
                assert(calls.skip(0) =~= calls);
                assert forall|i: int, k: int|
                    0 <= i < next.messages.len() && 0 <= k < requested_by(
                        next.messages[i],
                    ).len() implies answered(
                    next.messages,
                    (#[trigger] requested_by(next.messages[i])[k]).id,
                ) || next.pending().contains(requested_by(next.messages[i])[k]) by {
                    if i < state.messages.len() {
                        assert(next.messages[i] == state.messages[i]);
                        assert(answered(state.messages, requested_by(state.messages[i])[k].id));
                        lemma_answered_grows(
                            state.messages,
                            turn,
                            requested_by(state.messages[i])[k].id,
                        );
                    } else {
                        assert(next.pending()[k] == calls[k]);
                    }
                }
            }
        },
        (Input::Result { result, .. }, Stage::Executing { calls, next: at, .. }) => {
            let message = MessageView::tool_result(calls[at].id, result.output);
            assert(next.messages == state.messages.push(message));
            assert(next.messages[state.messages.len() as int] == message);
            assert(answered(next.messages, calls[at].id));
            assert forall|i: int, k: int|
                0 <= i < next.messages.len() && 0 <= k < requested_by(
                    next.messages[i],
                ).len() implies answered(
                next.messages,
                (#[trigger] requested_by(next.messages[i])[k]).id,
            ) || next.pending().contains(requested_by(next.messages[i])[k]) by {
                if i < state.messages.len() {
                    assert(next.messages[i] == state.messages[i]);
                    let call = requested_by(state.messages[i])[k];
                    if answered(state.messages, call.id) {
                        lemma_answered_grows(state.messages, message, call.id);
                    } else {
                        let j = choose|j: int|
                            0 <= j < state.pending().len() && state.pending()[j] == call;
                        assert(state.pending()[j] == calls[at + j]);
                        if j > 0 {
                            assert(next.pending()[j - 1] == call);
                        }
                    }
                }
            }
        },
        (Input::Poll { .. }, Stage::Round { calls, next: at, .. }) => {
            if at >= calls.len() {
                assert(calls.skip(at) =~= Seq::empty());
            }
        },
        _ => {},
    }
}

/// A run that starts on a balanced history and is not cancelled leaves every
/// requested tool call answered.
pub proof fn lemma_uncancelled_run_is_balanced(
    messages: Seq<MessageView>,
    config: RunConfig,
    inputs: Seq<Input>,
)
    requires
        balanced(messages),
    ensures
        ({
            let end = RunState::start(messages).after_all(config, inputs);
            &&& end.keeps_balance()
            &&& end.in_bounds()
            &&& end.stage is Stopped && !end.cancelled() ==> balanced(end.messages)
        }),
    decreases inputs.len(),
{
    if inputs.len() > 0 {
        lemma_uncancelled_run_is_balanced(messages, config, inputs.drop_last());
        lemma_balance_step(
            RunState::start(messages).after_all(config, inputs.drop_last()),
            config,
            inputs.last(),
        );
    }
}

/// Whatever a run is handed, it makes no more model calls than its budget
/// allows, salvaging aside, keeps the history that it started with, and
/// records each tool call that it answers, in order and with the answer that
/// the model gets to see.
pub proof fn lemma_run_keeps_its_books(
    messages: Seq<MessageView>,
    config: RunConfig,
    inputs: Seq<Input>,
)
    ensures
        ({
            let end = RunState::start(messages).after_all(config, inputs);
            &&& end.rounds <= config.max_iterations
            &&& messages.len() <= end.messages.len()
            &&& end.messages.take(messages.len() as int) == messages
            &&& results_in(end.messages) == results_in(messages) + answers_in(end.records)
        }),
    decreases inputs.len(),
{
    let start = RunState::start(messages);
    if inputs.len() == 0 {
        assert(messages.take(messages.len() as int) =~= messages);
        assert(answers_in(start.records) =~= Seq::empty());
        assert(results_in(messages) + Seq::<(Seq<char>, Seq<char>)>::empty() =~= results_in(
            messages,
        ));
    } else {
        lemma_run_keeps_its_books(messages, config, inputs.drop_last());
        let before = start.after_all(config, inputs.drop_last());
        let end = before.after(config, inputs.last());
        if end.messages.len() > before.messages.len() {
            assert(end.messages.drop_last() =~= before.messages);
            assert(end.messages.take(messages.len() as int) =~= before.messages.take(
                messages.len() as int,
            ));
        }
        if end.records.len() > before.records.len() {
            let record = end.records.last();
            assert(answers_in(end.records) =~= answers_in(before.records).push(
                (record.id, record.output),
            ));
            assert(results_in(end.messages) =~= results_in(messages) + answers_in(end.records));
        } else {
            assert(end.records == before.records);
        }
    }
}

/// A run that is over stays over, with the content it ended with.
pub proof fn lemma_stopped_stays_stopped(state: RunState, config: RunConfig, input: Input)
    requires
        state.stage is Stopped,
    ensures
        state.after(config, input).stage == state.stage,
        state.after(config, input).messages == state.messages,
        state.after(config, input).records == state.records,
{
}

/// A run with a salvaging call in flight is out of budget and had said
/// nothing: what it had streamed by then was blank.
pub proof fn lemma_salvage_only_from_silence(state: RunState, config: RunConfig, input: Input)
    requires
        !(state.stage is Salvaging),
    ensures
        state.after(config, input).stage is Salvaging ==> config.salvage_on_cap
            && state.rounds >= config.max_iterations && text::blank(state.produced),
{
}

// ==================== What a run comes to, by what it is handed ====================

/// What a run on `messages` has come to once all `inputs` have been handed to
/// it.
pub open spec fn run_after(
    messages: Seq<MessageView>,
    config: RunConfig,
    inputs: Seq<Input>,
) -> RunState {
    RunState::start(messages).after_all(config, inputs)
}

/// Whether the model asks for tools in a response.
pub open spec fn asks_for_tools(response: CompletionView) -> bool {
    response.tool_calls matches Some(calls) && calls.len() > 0
}

/// Whether a model call is in flight once all `inputs` have been handed over.
pub open spec fn awaits_response(
    messages: Seq<MessageView>,
    config: RunConfig,
    inputs: Seq<Input>,
) -> bool {
    run_after(messages, config, inputs).stage is Calling
}

/// The text of the increments among `inputs` that came while the run was not
/// cancelled, one behind the other.
pub open spec fn streamed(inputs: Seq<Input>) -> Seq<char>
    decreases inputs.len(),
{
    if inputs.len() == 0 {
        Seq::empty()
    } else {
        streamed(inputs.drop_last()) + match inputs.last() {
            Input::Delta { delta: DeltaView::Content(text), cancelled: false } => text,
            _ => Seq::empty(),
        }
    }
}

/// What the model has told by way of `inputs`: the text of the increments and,
/// in a run that does not stream, of the responses that ask for tools.
pub open spec fn told(
    messages: Seq<MessageView>,
    config: RunConfig,
    inputs: Seq<Input>,
) -> Seq<char>
    decreases inputs.len(),
{
    if inputs.len() == 0 {
        Seq::empty()
    } else {
        let early = inputs.drop_last();
        told(messages, config, early) + match inputs.last() {
            Input::Delta { delta: DeltaView::Content(text), cancelled: false } => text,
            Input::Response(response) => if !config.streaming && asks_for_tools(response)
                && awaits_response(messages, config, early) {
                response.content
            } else {
                Seq::empty()
            },
            _ => Seq::empty(),
        }
    }
}

proof fn lemma_after_prefix(
    messages: Seq<MessageView>,
    config: RunConfig,
    inputs: Seq<Input>,
    n: int,
)
    requires
        0 <= n < inputs.len(),
    ensures
        run_after(messages, config, inputs.take(n + 1)) == run_after(
            messages,
            config,
            inputs.take(n),
        ).after(config, inputs[n]),
{
    assert(inputs.take(n + 1).drop_last() =~= inputs.take(n));
    assert(inputs.take(n + 1).last() == inputs[n]);
}

proof fn lemma_end_is_final(
    messages: Seq<MessageView>,
    config: RunConfig,
    inputs: Seq<Input>,
    n: int,
)
    requires
        0 <= n <= inputs.len(),
        run_after(messages, config, inputs.take(n)).stage is Stopped,
    ensures
        run_after(messages, config, inputs).stage == run_after(
            messages,
            config,
            inputs.take(n),
        ).stage,
        run_after(messages, config, inputs).messages == run_after(
            messages,
            config,
            inputs.take(n),
        ).messages,
        run_after(messages, config, inputs).records == run_after(
            messages,
            config,
            inputs.take(n),
        ).records,
    decreases inputs.len() - n,
{
    if n == inputs.len() {
        assert(inputs.take(n) =~= inputs);
    } else {
        lemma_after_prefix(messages, config, inputs, n);
        lemma_end_is_final(messages, config, inputs, n + 1);
    }
}

proof fn lemma_produced_is_told(messages: Seq<MessageView>, config: RunConfig, inputs: Seq<Input>)
    ensures
        run_after(messages, config, inputs).produced == told(messages, config, inputs),
        config.streaming ==> told(messages, config, inputs) == streamed(inputs),
    decreases inputs.len(),
{
    if inputs.len() > 0 {
        let early = inputs.drop_last();
        lemma_produced_is_told(messages, config, early);
        let before = run_after(messages, config, early);
        assert(before.produced + Seq::<char>::empty() =~= before.produced);
        assert(streamed(early) + Seq::<char>::empty() =~= streamed(early));
    }
}

/// A run that is cut short, by being cancelled or by running out of budget with
/// no salvaging call, ends with what the model had told by then: nothing of
/// what was streamed is lost, and nothing is added.
pub proof fn lemma_a_run_cut_short_keeps_what_was_told(
    messages: Seq<MessageView>,
    config: RunConfig,
    inputs: Seq<Input>,
    n: int,
)
    requires
        0 <= n < inputs.len(),
        !(run_after(messages, config, inputs.take(n)).stage is Stopped),
        !(run_after(messages, config, inputs.take(n)).stage is Salvaging),
        run_after(messages, config, inputs.take(n + 1)).stage matches Stage::Stopped { stop, .. }
            && (stop == StopReason::Cancelled || stop == StopReason::IterationCap),
    ensures
        run_after(messages, config, inputs).stage matches Stage::Stopped { content, .. } && content
            == told(messages, config, inputs.take(n)) && (config.streaming ==> content == streamed(
            inputs.take(n),
        )),
{
    lemma_after_prefix(messages, config, inputs, n);
    lemma_produced_is_told(messages, config, inputs.take(n));
    lemma_end_is_final(messages, config, inputs, n + 1);
}

/// A run ends answered exactly by a response to the call in flight that asks
/// for no tools, and then its content is that response's.
pub proof fn lemma_an_answer_is_the_response_that_asks_for_nothing(
    messages: Seq<MessageView>,
    config: RunConfig,
    inputs: Seq<Input>,
    n: int,
)
    requires
        0 <= n < inputs.len(),
        !(run_after(messages, config, inputs.take(n)).stage is Stopped),
    ensures
        (run_after(messages, config, inputs.take(n + 1)).stage matches Stage::Stopped { stop, .. }
            && stop == StopReason::Answered) <==> awaits_response(
            messages,
            config,
            inputs.take(n),
        ) && (inputs[n] matches Input::Response(response) && !asks_for_tools(response)),
        run_after(messages, config, inputs.take(n + 1)).stage matches Stage::Stopped { stop, .. }
            && stop == StopReason::Answered ==> (inputs[n] matches Input::Response(response)
            && run_after(messages, config, inputs).stage == (Stage::Stopped {
            stop: StopReason::Answered,
            content: response.content,
        })),
{
    lemma_after_prefix(messages, config, inputs, n);
    if run_after(messages, config, inputs.take(n + 1)).stage is Stopped {
        lemma_end_is_final(messages, config, inputs, n + 1);
    }
}

/// A run is cancelled only by a poll that finds the cancel flag raised, or by
/// the call in flight being dropped. Such a poll starts neither a model call
/// nor a tool.
pub proof fn lemma_only_cancelling_cancels(
    messages: Seq<MessageView>,
    config: RunConfig,
    inputs: Seq<Input>,
    n: int,
)
    requires
        0 <= n < inputs.len(),
    ensures
        run_after(messages, config, inputs.take(n + 1)).cancelled() && !run_after(
            messages,
            config,
            inputs.take(n),
        ).cancelled() ==> inputs[n] == (Input::Poll { cancelled: true }) || inputs[n] == (
        Input::Interrupt),
        inputs[n] == (Input::Poll { cancelled: true }) ==> ({
            let before = run_after(messages, config, inputs.take(n)).stage;
            let after = run_after(messages, config, inputs.take(n + 1)).stage;
            &&& after is Calling ==> before is Calling
            &&& after is Executing ==> before is Executing
        }),
        inputs[n] == (Input::Interrupt) && awaits_response(messages, config, inputs.take(n))
            ==> run_after(messages, config, inputs.take(n + 1)).cancelled(),
{
    lemma_after_prefix(messages, config, inputs, n);
}

/// How often `inputs` made the run call the model, salvaging aside.
pub open spec fn calls_started(
    messages: Seq<MessageView>,
    config: RunConfig,
    inputs: Seq<Input>,
) -> nat
    decreases inputs.len(),
{
    if inputs.len() == 0 {
        0
    } else {
        let early = inputs.drop_last();
        calls_started(messages, config, early) + if awaits_response(messages, config, inputs)
            && !awaits_response(messages, config, early) {
            1nat
        } else {
            0nat
        }
    }
}

proof fn lemma_rounds_are_calls(messages: Seq<MessageView>, config: RunConfig, inputs: Seq<Input>)
    ensures
        run_after(messages, config, inputs).rounds == calls_started(messages, config, inputs),
        calls_started(messages, config, inputs) <= config.max_iterations,
    decreases inputs.len(),
{
    if inputs.len() > 0 {
        lemma_rounds_are_calls(messages, config, inputs.drop_last());
    }
}

/// A run calls the model as long as its budget lasts and no longer. Polled
/// between two turns it makes the next call, unless the budget is spent or the
/// run is cancelled. Once the budget is spent the run ends, or salvages an
/// answer if it is to and if nothing but white space was told.
pub proof fn lemma_the_budget_is_spent_and_not_more(
    messages: Seq<MessageView>,
    config: RunConfig,
    inputs: Seq<Input>,
    cancelled: bool,
)
    ensures
        calls_started(messages, config, inputs) <= config.max_iterations,
        ({
            let state = run_after(messages, config, inputs);
            let next = run_after(messages, config, inputs.push(Input::Poll { cancelled })).stage;
            let spent = calls_started(messages, config, inputs) == config.max_iterations;
            let silent = forall|i: int|
                0 <= i < told(messages, config, inputs).len() ==> text::is_white(
                    #[trigger] told(messages, config, inputs)[i],
                );
            state.stage is Ready ==> {
                &&& !spent && !cancelled ==> next is Calling
                &&& !spent && cancelled ==> (next matches Stage::Stopped { stop, .. } && stop
                    == StopReason::Cancelled)
                &&& spent && config.salvage_on_cap && silent ==> next is Salvaging
                &&& spent && !(config.salvage_on_cap && silent) ==> (next matches Stage::Stopped {
                    stop,
                    ..
                } && stop == StopReason::IterationCap)
            }
        }),
{
    lemma_rounds_are_calls(messages, config, inputs);
    lemma_produced_is_told(messages, config, inputs);
    let more = inputs.push(Input::Poll { cancelled });
    assert(more.drop_last() =~= inputs);
    let produced = told(messages, config, inputs);
    if text::blank(produced) {
        assert forall|i: int| 0 <= i < produced.len() implies text::is_white(
            #[trigger] produced[i],
        ) by {}
    }
}

proof fn lemma_cap_means_spent(messages: Seq<MessageView>, config: RunConfig, inputs: Seq<Input>)
    ensures
        ({
            let stage = run_after(messages, config, inputs).stage;
            (stage is Salvaging || (stage matches Stage::Stopped { stop, .. } && stop
                == StopReason::IterationCap)) ==> calls_started(messages, config, inputs)
                == config.max_iterations
        }),
    decreases inputs.len(),
{
    if inputs.len() > 0 {
        lemma_cap_means_spent(messages, config, inputs.drop_last());
        lemma_rounds_are_calls(messages, config, inputs.drop_last());
    }
}

/// A run that ends at its iteration cap has made as many calls as its budget
/// allows. What a salvaging call brings is the content of such a run, and none
/// where that call fails.
pub proof fn lemma_the_cap_ends_a_run_that_spent_its_budget(
    messages: Seq<MessageView>,
    config: RunConfig,
    inputs: Seq<Input>,
    content: Option<Seq<char>>,
)
    ensures
        run_after(messages, config, inputs).stage matches Stage::Stopped { stop, .. } && stop
            == StopReason::IterationCap ==> calls_started(messages, config, inputs)
            == config.max_iterations,
        run_after(messages, config, inputs).stage is Salvaging ==> run_after(
            messages,
            config,
            inputs.push(Input::Salvage(content)),
        ).stage == (Stage::Stopped {
            stop: StopReason::IterationCap,
            content: match content {
                Some(content) => content,
                None => Seq::empty(),
            },
        }),
{
    lemma_cap_means_spent(messages, config, inputs);
    assert(inputs.push(Input::Salvage(content)).drop_last() =~= inputs);
}

/// The tool calls that the model asked for by way of `inputs`, in order.
pub open spec fn asked_for(
    messages: Seq<MessageView>,
    config: RunConfig,
    inputs: Seq<Input>,
) -> Seq<ToolCallView>
    decreases inputs.len(),
{
    if inputs.len() == 0 {
        Seq::empty()
    } else {
        let early = inputs.drop_last();
        asked_for(messages, config, early) + match inputs.last() {
            Input::Response(CompletionView { tool_calls: Some(calls), .. }) => if awaits_response(
                messages,
                config,
                early,
            ) {
                calls
            } else {
                Seq::empty()
            },
            _ => Seq::empty(),
        }
    }
}

/// What the executed tools came back with by way of `inputs`, in order, with
/// the times at which they started and finished.
pub open spec fn came_back(
    messages: Seq<MessageView>,
    config: RunConfig,
    inputs: Seq<Input>,
) -> Seq<(ToolResultView, Seq<char>, Seq<char>)>
    decreases inputs.len(),
{
    if inputs.len() == 0 {
        Seq::empty()
    } else {
        let early = inputs.drop_last();
        let before = came_back(messages, config, early);
        match inputs.last() {
            Input::Result { result, started_at, completed_at } => if run_after(
                messages,
                config,
                early,
            ).stage is Executing {
                before.push((result, started_at, completed_at))
            } else {
                before
            },
            _ => before,
        }
    }
}

/// Whether `record` tells of `call` and of what it came back with.
pub open spec fn tells_of(
    record: RecordView,
    call: ToolCallView,
    back: (ToolResultView, Seq<char>, Seq<char>),
) -> bool {
    &&& record.id == call.id
    &&& record.name == types::or_empty(call.called_name())
    &&& record.input == (match outside::json_value(types::or_empty(call.called_arguments())) {
        Some(tree) => tree,
        None => JsonTree::Null,
    })
    &&& record.output == back.0.output
    &&& record.failed == back.0.failed
    &&& record.started_at == back.1
    &&& record.completed_at == back.2
}

/// Tool calls are executed one by one in the order in which the model asks for
/// them, and recorded with what they came back with. Every call that was asked
/// for is executed before the model is called again and before the run ends,
/// unless the run is cancelled.
pub proof fn lemma_calls_are_executed_as_asked(
    messages: Seq<MessageView>,
    config: RunConfig,
    inputs: Seq<Input>,
)
    ensures
        ({
            let end = run_after(messages, config, inputs);
            let asked = asked_for(messages, config, inputs);
            let back = came_back(messages, config, inputs);
            &&& end.records.len() == back.len()
            &&& end.records.len() <= asked.len()
            &&& forall|k: int|
                0 <= k < end.records.len() ==> tells_of(
                    #[trigger] end.records[k],
                    asked[k],
                    back[k],
                )
            &&& !end.cancelled() ==> asked.skip(end.records.len() as int) == end.pending()
            &&& !(end.stage is Round) && !(end.stage is Executing) && !end.cancelled()
                ==> asked.len() == end.records.len()
            &&& end.stage matches Stage::Executing { calls, next, .. } ==> 0 <= next < calls.len()
                && asked.len() > end.records.len() && calls[next] == asked[end.records.len() as int]
            &&& end.in_bounds()
        }),
    decreases inputs.len(),
{
    let end = run_after(messages, config, inputs);
    let asked = asked_for(messages, config, inputs);
    if inputs.len() > 0 {
        let early = inputs.drop_last();
        lemma_calls_are_executed_as_asked(messages, config, early);
        let before = run_after(messages, config, early);
        let asked_before = asked_for(messages, config, early);
        let n = before.records.len() as int;
        assert(asked_before + Seq::<ToolCallView>::empty() =~= asked_before);
        assert(asked.len() >= asked_before.len());
        assert(forall|k: int| 0 <= k < asked_before.len() ==> asked[k] == asked_before[k]);
        match (inputs.last(), before.stage) {
            (Input::Response(response), Stage::Calling) => {
                if asks_for_tools(response) {
                    let calls = response.tool_calls->0;
                    assert(asked =~= asked_before + calls);
                    assert(asked.skip(n) =~= calls);
                    assert(calls.skip(0) =~= calls);
                } else {
                    assert(asked =~= asked_before);
                }
            },
            (Input::Result { .. }, Stage::Executing { calls, next, .. }) => {
                assert(asked == asked_before);
                assert(before.pending()[0] == calls[next]);
                assert(asked_before.skip(n)[0] == asked_before[n]);
                assert(asked_before.skip(n).skip(1) =~= asked_before.skip(n + 1));
                assert(calls.skip(next).skip(1) =~= calls.skip(next + 1));
                assert(end.records.last().id == asked[n].id);
                assert(forall|k: int| 0 <= k < n ==> end.records[k] == before.records[k]);
            },
            (Input::Poll { .. }, Stage::Round { calls, next, .. }) => {
                if next < calls.len() {
                    assert(before.pending()[0] == calls[next]);
                    assert(asked_before.skip(n)[0] == asked_before[n]);
                } else {
                    assert(calls.skip(next) =~= Seq::empty());
                }
            },
            _ => {},
        }
        if !end.cancelled() {
            assert(asked.skip(end.records.len() as int) =~= end.pending());
        }
        if let Stage::Executing { calls, next, .. } = end.stage {
            assert(end.pending()[0] == calls[next]);
            assert(asked.skip(end.records.len() as int).len() == asked.len() - end.records.len());
            assert(asked.skip(end.records.len() as int)[0] == asked[end.records.len() as int]);
        }
        if !(end.stage is Round) && !(end.stage is Executing) && !end.cancelled() {
            assert(asked.skip(end.records.len() as int).len() == 0);
        }
    } else {
        assert(asked.skip(0) =~= Seq::empty());
    }
}

/// Whether the run is to end once the tool `name` has been called.
pub open spec fn says_done(config: RunConfig, name: Seq<char>) -> bool {
    config.termination matches Termination::Sentinel(sentinel) && sentinel@ == name
}

/// Whether one of `records` is of the tool whose call ends the run.
pub open spec fn done_was_said(config: RunConfig, records: Seq<RecordView>) -> bool {
    exists|k: int| 0 <= k < records.len() && says_done(config, (#[trigger] records[k]).name)
}

/// A run ends on its sentinel exactly where the tool of that name was called,
/// and then it has no content. Once that tool has been called the model is not
/// called again, and without such a call no run ends on a sentinel.
pub proof fn lemma_the_sentinel_ends_the_run(
    messages: Seq<MessageView>,
    config: RunConfig,
    inputs: Seq<Input>,
)
    ensures
        ({
            let end = run_after(messages, config, inputs);
            let said = done_was_said(config, end.records);
            match end.stage {
                Stage::Ready => !said,
                Stage::Calling => !said,
                Stage::Salvaging => !said,
                Stage::Round { sentinel, .. } => sentinel == said,
                Stage::Executing { sentinel, .. } => sentinel == said,
                Stage::Stopped { stop, content } => match stop {
                    StopReason::Answered => !said,
                    StopReason::IterationCap => !said,
                    StopReason::Sentinel => said && content.len() == 0,
                    StopReason::Cancelled => true,
                },
            }
        }),
    decreases inputs.len(),
{
    if inputs.len() > 0 {
        let early = inputs.drop_last();
        lemma_the_sentinel_ends_the_run(messages, config, early);
        let before = run_after(messages, config, early);
        let end = run_after(messages, config, inputs);
        if end.records.len() > before.records.len() {
            let last = before.records.len() as int;
            assert(forall|k: int| 0 <= k < last ==> end.records[k] == before.records[k]);
            if done_was_said(config, before.records) {
                let k = choose|k: int|
                    0 <= k < before.records.len() && says_done(
                        config,
                        (#[trigger] before.records[k]).name,
                    );
                assert(says_done(config, end.records[k].name));
            }
            if says_done(config, end.records[last].name) {
                assert(done_was_said(config, end.records));
            }
        }
    }
}

/// What a round leaves in the history: the turn that asked for tools, with what
/// was said alongside if anything was, and for each executed call its answer
/// under the call's id. Nothing else changes the history.
pub proof fn lemma_the_history_tells_the_round(
    messages: Seq<MessageView>,
    config: RunConfig,
    inputs: Seq<Input>,
    input: Input,
)
    ensures
        ({
            let before = run_after(messages, config, inputs);
            let after = run_after(messages, config, inputs.push(input));
            match (input, before.stage) {
                (Input::Response(response), Stage::Calling) => if asks_for_tools(response) {
                    &&& after.messages.len() == before.messages.len() + 1
                    &&& after.messages.drop_last() == before.messages
                    &&& after.messages.last().role == MessageRole::Assistant
                    &&& after.messages.last().tool_calls == response.tool_calls
                    &&& after.messages.last().tool_call_id is None
                    &&& after.messages.last().content == (if response.content.len() > 0 {
                        Some(response.content)
                    } else {
                        None
                    })
                } else {
                    after.messages == before.messages
                },
                (Input::Result { result, .. }, Stage::Executing { calls, next, .. }) => {
                    &&& after.messages.len() == before.messages.len() + 1
                    &&& after.messages.drop_last() == before.messages
                    &&& after.messages.last().role == MessageRole::Tool
                    &&& after.messages.last().tool_calls is None
                    &&& after.messages.last().tool_call_id == Some(calls[next].id)
                    &&& after.messages.last().content == Some(result.output)
                },
                _ => after.messages == before.messages,
            }
        }),
{
    let before = run_after(messages, config, inputs);
    let after = run_after(messages, config, inputs.push(input));
    assert(inputs.push(input).drop_last() =~= inputs);
    if after.messages.len() > before.messages.len() {
        assert(after.messages.drop_last() =~= before.messages);
    }
}

/// Polled in a round, a run executes the next call that was not answered yet,
/// ends where it is cancelled, and goes on once all are answered: to the next
/// turn, or to its end where the sentinel was called.
pub proof fn lemma_a_round_is_worked_off(
    messages: Seq<MessageView>,
    config: RunConfig,
    inputs: Seq<Input>,
    cancelled: bool,
)
    requires
        run_after(messages, config, inputs).stage is Round,
    ensures
        ({
            let before = run_after(messages, config, inputs);
            let next = run_after(messages, config, inputs.push(Input::Poll { cancelled })).stage;
            let open = asked_for(messages, config, inputs).len() > before.records.len();
            &&& open && !cancelled ==> next is Executing
            &&& open && cancelled ==> (next matches Stage::Stopped { stop, .. } && stop
                == StopReason::Cancelled)
            &&& !open && !done_was_said(config, before.records) ==> next is Ready
            &&& !open && done_was_said(config, before.records) ==> (next matches Stage::Stopped {
                stop,
                ..
            } && stop == StopReason::Sentinel)
        }),
{
    let before = run_after(messages, config, inputs);
    let asked = asked_for(messages, config, inputs);
    lemma_calls_are_executed_as_asked(messages, config, inputs);
    lemma_the_sentinel_ends_the_run(messages, config, inputs);
    assert(inputs.push(Input::Poll { cancelled }).drop_last() =~= inputs);
    assert(asked.skip(before.records.len() as int).len() == asked.len() - before.records.len());
    assert(before.stage matches Stage::Round { calls, next, .. } && before.pending().len()
        == calls.len() - next);
}

/// A history is balanced where every call that any of its messages requests is
/// answered by a message of the history, under the call's id.
pub proof fn lemma_balanced_is_every_call_answered(messages: Seq<MessageView>)
    ensures
        balanced(messages) <==> forall|i: int, k: int|
            0 <= i < messages.len() && 0 <= k < requested_by(messages[i]).len() ==> exists|j: int|
                0 <= j < messages.len() && (#[trigger] messages[j]).tool_call_id == Some(
                    (#[trigger] requested_by(messages[i])[k]).id,
                ),
        forall|i: int|
            0 <= i < messages.len() ==> requested_by(#[trigger] messages[i]) == (match messages[i].tool_calls {
                Some(calls) => calls,
                None => Seq::empty(),
            }),
{
    if balanced(messages) {
        assert forall|i: int, k: int|
            0 <= i < messages.len() && 0 <= k < requested_by(messages[i]).len() implies exists|
            j: int,
        |
            0 <= j < messages.len() && (#[trigger] messages[j]).tool_call_id == Some(
                (#[trigger] requested_by(messages[i])[k]).id,
            ) by {
            assert(answered(messages, requested_by(messages[i])[k].id));
        }
    } else {
        let (i, k) = choose|i: int, k: int|
            0 <= i < messages.len() && 0 <= k < requested_by(messages[i]).len() && !answered(
                messages,
                (#[trigger] requested_by(messages[i])[k]).id,
            );
        assert(!answered(messages, requested_by(messages[i])[k].id));
    }
}

/// The results in a history are those of its messages that answer a call, in
/// order, each under the id of the call.
pub proof fn lemma_results_stand_in_order(messages: Seq<MessageView>, message: MessageView)
    ensures
        results_in(messages.push(message)) == results_in(messages) + (match message.tool_call_id {
            Some(id) => seq![
                (
                    id,
                    match message.content {
                        Some(content) => content,
                        None => Seq::empty(),
                    },
                ),
            ],
            None => Seq::empty(),
        }),
        results_in(Seq::empty()).len() == 0,
{
    assert(messages.push(message).drop_last() =~= messages);
}


} // verus!
