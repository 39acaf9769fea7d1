//! The agent conversation loop as a state machine.
//!
//! A run alternates between the provider, an approval gate and a tool
//! executor, all of which live outside this library. The session decides;
//! its driver performs each requested action and reports the outcome back
//! as an event.

use vstd::prelude::*;
use vstd::string::StringExecFns;

use crate::agent::error::Error;
use crate::agent::types::{
    AgentSessionConfig, AssistantResponse, ChatMessage, FunctionTool, ToolCall, ToolOutput,
};
use crate::text::{chars_of, trim, trim_range};

verus! {

/// What the session asks its driver to do next.
pub enum SessionAction {
    /// Send the conversation so far, with the configured model and tools, to
    /// the provider.
    Complete,
    /// Ask whether tool call `call` of the latest assistant message may run.
    Approve { call: usize },
    /// Run tool call `call` of the latest assistant message.
    Execute { call: usize },
    /// The run is over with this outcome.
    Finish(Result<AssistantResponse, Error>),
}

/// What the driver reports back after performing an action.
pub enum SessionEvent {
    Completed(Result<AssistantResponse, Error>),
    Approved(Result<bool, Error>),
    Executed(Result<ToolOutput, Error>),
}

/// Where a run stands: no run, waiting for the provider, or waiting for the
/// approval or the execution of call `call` of message `message`.
#[derive(Clone, Copy, Debug, PartialEq, Eq)]
pub enum SessionPhase {
    Idle,
    AwaitingResponse,
    AwaitingApproval { message: usize, call: usize },
    AwaitingExecution { message: usize, call: usize },
}

/// The tool calls a message carries: those of an assistant message, none
/// for any other.
pub open spec fn calls_of(message: ChatMessage) -> Seq<ToolCall> {
    match message {
        ChatMessage::Assistant { tool_calls, .. } => tool_calls@,
        _ => seq![],
    }
}

/// Index of the first tool declared under `name`.
pub open spec fn tool_index(tools: Seq<FunctionTool>, name: Seq<char>) -> Option<int>
    decreases tools.len(),
{
    if tools.len() == 0 {
        None
    } else {
        match tool_index(tools.drop_last(), name) {
            Some(i) => Some(i),
            None => if tools.last().name@ == name {
                Some(tools.len() - 1)
            } else {
                None
            },
        }
    }
}

/// Tool `j` repeats the name of an earlier tool.
pub open spec fn repeats_name(tools: Seq<FunctionTool>, j: int) -> bool {
    0 <= j < tools.len() && exists|i: int| 0 <= i < j && #[trigger] tools[i].name@ == tools[j].name@
}

/// A usable configuration: a model that is not blank, at least one tool
/// round, and no tool name declared twice.
pub open spec fn config_valid(config: AgentSessionConfig) -> bool {
    &&& trim(config.model@).len() != 0
    &&& config.max_tool_rounds > 0
    &&& forall|j: int| !#[trigger] repeats_name(config.tools@, j)
}

/// The message refusing a repeated tool name.
pub open spec fn duplicate_message(name: Seq<char>) -> Seq<char> {
    "duplicate tool name `"@ + name + "`"@
}

/// What the session does when it reaches call `k` of message `m`: once every
/// call has run it asks the provider again; otherwise it refuses an
/// undeclared tool, asks approval for a mutating one, and runs any other.
pub open spec fn dispatched(
    tools: Seq<FunctionTool>,
    calls: Seq<ToolCall>,
    m: usize,
    k: int,
    phase: SessionPhase,
    action: SessionAction,
) -> bool {
    if k >= calls.len() {
        phase == SessionPhase::AwaitingResponse && action is Complete
    } else {
        match tool_index(tools, calls[k].name@) {
            None => phase == SessionPhase::Idle && (action matches SessionAction::Finish(
                Err(Error::UnknownTool(n)),
            ) && n == calls[k].name),
            Some(t) => if tools[t].mutating {
                phase == (SessionPhase::AwaitingApproval { message: m, call: k as usize }) && (
                action matches SessionAction::Approve { call } && call == k)
            } else {
                phase == (SessionPhase::AwaitingExecution { message: m, call: k as usize }) && (
                action matches SessionAction::Execute { call } && call == k)
            },
        }
    }
}

/// The tool that call `k` of message `m` names.
pub open spec fn called_tool(
    tools: Seq<FunctionTool>,
    messages: Seq<ChatMessage>,
    m: int,
    k: int,
) -> Option<FunctionTool> {
    match tool_index(tools, calls_of(messages[m])[k].name@) {
        Some(t) => Some(tools[t]),
        None => None,
    }
}

/// Whether the session waits for an event of this kind.
pub open spec fn expects_spec(phase: SessionPhase, event: SessionEvent) -> bool {
    match event {
        SessionEvent::Completed(_) => phase == SessionPhase::AwaitingResponse,
        SessionEvent::Approved(_) => phase is AwaitingApproval,
        SessionEvent::Executed(_) => phase is AwaitingExecution,
    }
}

/// A conversation with an assistant that may call declared tools. Mutating
/// tools run only after approval, and one run takes at most the configured
/// number of tool rounds.
pub struct AgentSession {
    config: AgentSessionConfig,
    messages: Vec<ChatMessage>,
    tool_rounds: usize,
    phase: SessionPhase,
}

/// Position of the first tool declared under `name`.
fn find_tool(tools: &Vec<FunctionTool>, name: &String) -> (r: Option<usize>)
    ensures
        r matches Some(i) ==> tool_index(tools@, name@) == Some(i as int),
        r is None ==> tool_index(tools@, name@) is None,
{
    let mut i: usize = 0;
    assert(tools@.take(0) =~= Seq::<FunctionTool>::empty());
    while i < tools.len()
        invariant
            i <= tools@.len(),
            tool_index(tools@.take(i as int), name@) is None,
        decreases tools@.len() - i,
    {
        assert(tools@.take(i + 1).drop_last() =~= tools@.take(i as int));
        if tools[i].name == *name {
            assert(tool_index(tools@.take(i + 1), name@) == Some(i as int));
            proof {
                lemma_tool_index_prefix(tools@, i + 1, name@);
            }
            return Some(i);
        }
        i = i + 1;
    }
    assert(tools@.take(tools@.len() as int) =~= tools@);
    None
}

/// A tool found in a prefix is the one found in the whole sequence.
proof fn lemma_tool_index_prefix(tools: Seq<FunctionTool>, n: int, name: Seq<char>)
    requires
        0 <= n <= tools.len(),
        tool_index(tools.take(n), name) is Some,
    ensures
        tool_index(tools, name) == tool_index(tools.take(n), name),
    decreases tools.len() - n,
{
    if n < tools.len() {
        assert(tools.take(n + 1).drop_last() =~= tools.take(n));
        lemma_tool_index_prefix(tools, n + 1, name);
    } else {
        assert(tools.take(n) =~= tools);
    }
}

/// The index a name lookup gives is a tool with that name.
proof fn lemma_tool_index_names(tools: Seq<FunctionTool>, name: Seq<char>)
    ensures
        tool_index(tools, name) matches Some(t) ==> 0 <= t < tools.len() && tools[t].name@ == name,
    decreases tools.len(),
{
    if tools.len() > 0 {
        lemma_tool_index_names(tools.drop_last(), name);
    }
}

impl AgentSession {
    /// The session's settings.
    pub closed spec fn config_spec(&self) -> AgentSessionConfig {
        self.config
    }

    /// The conversation so far.
    pub closed spec fn messages_spec(&self) -> Seq<ChatMessage> {
        self.messages@
    }

    /// Tool rounds taken by the current run.
    pub closed spec fn rounds(&self) -> usize {
        self.tool_rounds
    }

    /// Where the current run stands.
    pub closed spec fn phase(&self) -> SessionPhase {
        self.phase
    }

    /// The configuration is usable, the round count is within its bound, and
    /// a pending approval or execution refers to a declared tool call of an
    /// assistant message, an approval only to a mutating tool.
    pub closed spec fn well_formed(&self) -> bool {
        &&& config_valid(self.config)
        &&& self.tool_rounds <= self.config.max_tool_rounds
        &&& match self.phase {
            SessionPhase::AwaitingApproval { message, call } => {
                &&& message < self.messages@.len()
                &&& call < calls_of(self.messages@[message as int]).len()
                &&& called_tool(self.config.tools@, self.messages@, message as int, call as int) matches Some(
                    tool,
                ) && tool.mutating
            },
            SessionPhase::AwaitingExecution { message, call } => {
                &&& message < self.messages@.len()
                &&& call < calls_of(self.messages@[message as int]).len()
                &&& called_tool(self.config.tools@, self.messages@, message as int, call as int) is Some
            },
            _ => true,
        }
    }

    /// Starts an idle session after checking its settings: the model must
    /// not be blank, at least one tool round must be allowed, and no tool
    /// name may be declared twice.
    pub fn new(config: AgentSessionConfig) -> (r: Result<Self, Error>)
        ensures
            r is Ok <==> config_valid(config),
            r matches Ok(session) ==> {
                &&& session.well_formed()
                &&& session.config_spec() == config
                &&& session.messages_spec().len() == 0
                &&& session.phase() == SessionPhase::Idle
            },
            trim(config.model@).len() == 0 ==> (r matches Err(Error::InvalidConfiguration(m))
                && m@ == "agent model must not be empty"@),
            trim(config.model@).len() != 0 && config.max_tool_rounds == 0 ==> (r matches Err(
                Error::InvalidConfiguration(m),
            ) && m@ == "max_tool_rounds must be greater than zero"@),
            trim(config.model@).len() != 0 && config.max_tool_rounds > 0 && !config_valid(config)
                ==> (r matches Err(Error::InvalidConfiguration(m)) && exists|j: int|
                repeats_name(config.tools@, j) && (forall|i: int|
                i < j ==> !#[trigger] repeats_name(config.tools@, i)) && m@ == duplicate_message(
                config.tools@[j].name@,
            )),
    {
        let chars = chars_of(config.model.as_str());
        let (start, end) = trim_range(&chars);
        if start == end {
            return Err(
                Error::InvalidConfiguration(String::from_str("agent model must not be empty")),
            );
        }
        if config.max_tool_rounds == 0 {
            return Err(
                Error::InvalidConfiguration(
                    String::from_str("max_tool_rounds must be greater than zero"),
                ),
            );
        }
        let mut j: usize = 0;
        while j < config.tools.len()
            invariant
                trim(config.model@).len() != 0,
                config.max_tool_rounds > 0,
                j <= config.tools@.len(),
                forall|i: int| i < j ==> !#[trigger] repeats_name(config.tools@, i),
            decreases config.tools@.len() - j,
        {
            let mut i: usize = 0;
            while i < j
                invariant
                    trim(config.model@).len() != 0,
                    config.max_tool_rounds > 0,
                    forall|i: int| i < j ==> !#[trigger] repeats_name(config.tools@, i),
                    j < config.tools@.len(),
                    i <= j,
                    forall|k: int| 0 <= k < i ==> config.tools@[k].name@ != config.tools@[j as int].name@,
                decreases j - i,
            {
                if config.tools[i].name == config.tools[j].name {
                    assert(repeats_name(config.tools@, j as int));
                    let mut message = String::from_str("duplicate tool name `");
                    message.append(config.tools[j].name.as_str());
                    message.append("`");
                    return Err(Error::InvalidConfiguration(message));
                }
                i = i + 1;
            }
            assert(!repeats_name(config.tools@, j as int));
            j = j + 1;
        }
        assert forall|k: int| !#[trigger] repeats_name(config.tools@, k) by {
            if 0 <= k < config.tools@.len() {
                assert(k < j);
            }
        }
        Ok(AgentSession { config, messages: Vec::new(), tool_rounds: 0, phase: SessionPhase::Idle })
    }

    /// The session's settings, for building provider requests.
    pub fn config(&self) -> (config: &AgentSessionConfig)
        ensures
            *config == self.config_spec(),
    {
        &self.config
    }

    /// The conversation so far.
    pub fn messages(&self) -> (messages: &[ChatMessage])
        ensures
            messages@ == self.messages_spec(),
    {
        self.messages.as_slice()
    }

    /// Where the current run stands.
    pub fn current_phase(&self) -> (phase: SessionPhase)
        ensures
            phase == self.phase(),
    {
        self.phase
    }

    /// Appends a message to the conversation.
    pub fn push_message(&mut self, message: ChatMessage)
        requires
            old(self).well_formed(),
        ensures
            final(self).well_formed(),
            final(self).messages_spec() == old(self).messages_spec().push(message),
            final(self).config_spec() == old(self).config_spec(),
            final(self).rounds() == old(self).rounds(),
            final(self).phase() == old(self).phase(),
    {
        let ghost before = self.messages@;
        self.messages.push(message);
        proof {
            assert(forall|i: int| 0 <= i < before.len() ==> self.messages@[i] == before[i]);
        }
    }

    /// Starts a run: adds the user's message and asks for the provider's
    /// response. A run still pending is abandoned.
    pub fn begin(&mut self, user_message: String) -> (action: SessionAction)
        requires
            old(self).well_formed(),
        ensures
            final(self).well_formed(),
            final(self).messages_spec() == old(self).messages_spec().push(
                ChatMessage::User { content: user_message },
            ),
            final(self).config_spec() == old(self).config_spec(),
            final(self).rounds() == 0,
            final(self).phase() == SessionPhase::AwaitingResponse,
            action is Complete,
    {
        self.messages.push(ChatMessage::User { content: user_message });
        self.tool_rounds = 0;
        self.phase = SessionPhase::AwaitingResponse;
        SessionAction::Complete
    }

    /// Whether the session waits for an event of this kind.
    pub fn expects(&self, event: &SessionEvent) -> (r: bool)
        ensures
            r == expects_spec(self.phase(), *event),
    {
        match event {
            SessionEvent::Completed(_) => match self.phase {
                SessionPhase::AwaitingResponse => true,
                _ => false,
            },
            SessionEvent::Approved(_) => match self.phase {
                SessionPhase::AwaitingApproval { .. } => true,
                _ => false,
            },
            SessionEvent::Executed(_) => match self.phase {
                SessionPhase::AwaitingExecution { .. } => true,
                _ => false,
            },
        }
    }

    /// Moves on to call `call` of the assistant message `message`.
    fn dispatch(&mut self, message: usize, call: usize) -> (action: SessionAction)
        requires
            config_valid(old(self).config),
            old(self).tool_rounds <= old(self).config.max_tool_rounds,
            message < old(self).messages@.len(),
            call <= calls_of(old(self).messages@[message as int]).len(),
        ensures
            final(self).well_formed(),
            final(self).config == old(self).config,
            final(self).messages@ == old(self).messages@,
            final(self).tool_rounds == old(self).tool_rounds,
            dispatched(
                old(self).config.tools@,
                calls_of(old(self).messages@[message as int]),
                message,
                call as int,
                final(self).phase,
                action,
            ),
    {
        let found = match &self.messages[message] {
            ChatMessage::Assistant { tool_calls, .. } => {
                if call < tool_calls.len() {
                    let name = &tool_calls[call].name;
                    proof {
                        lemma_tool_index_names(self.config.tools@, name@);
                    }
                    Some((name.clone(), find_tool(&self.config.tools, name)))
                } else {
                    None
                }
            },
            _ => None,
        };
        match found {
            None => {
                self.phase = SessionPhase::AwaitingResponse;
                SessionAction::Complete
            },
            Some((name, None)) => {
                self.phase = SessionPhase::Idle;
                SessionAction::Finish(Err(Error::UnknownTool(name)))
            },
            Some((_, Some(t))) => {
                if self.config.tools[t].mutating {
                    self.phase = SessionPhase::AwaitingApproval { message, call };
                    SessionAction::Approve { call }
                } else {
                    self.phase = SessionPhase::AwaitingExecution { message, call };
                    SessionAction::Execute { call }
                }
            },
        }
    }

    /// Takes the outcome of the last requested action and decides the next.
    ///
    /// A provider, approval or execution error ends the run with that error.
    /// A response without tool calls ends it successfully; one with tool
    /// calls is recorded, counts as a tool round (refused once the round
    /// limit is reached), and its calls are handled in order. A denied
    /// approval ends the run; a tool's output is recorded as a tool message.
    pub fn advance(&mut self, event: SessionEvent) -> (action: SessionAction)
        requires
            old(self).well_formed(),
            expects_spec(old(self).phase(), event),
        ensures
            final(self).well_formed(),
            final(self).config_spec() == old(self).config_spec(),
            match event {
                SessionEvent::Completed(Err(e)) => {
                    &&& action == SessionAction::Finish(Err(e))
                    &&& final(self).phase() == SessionPhase::Idle
                    &&& final(self).messages_spec() == old(self).messages_spec()
                },
                SessionEvent::Completed(Ok(response)) => {
                    let m = old(self).messages_spec().len();
                    &&& final(self).messages_spec().len() == m + 1
                    &&& final(self).messages_spec().take(m as int) == old(self).messages_spec()
                    &&& if response.tool_calls@.len() == 0 {
                        &&& (final(self).messages_spec()[m as int] matches ChatMessage::Assistant {
                            content,
                            tool_calls,
                        } && content == response.content && tool_calls@.len() == 0)
                        &&& action == SessionAction::Finish(Ok(response))
                        &&& final(self).phase() == SessionPhase::Idle
                    } else {
                        &&& final(self).messages_spec()[m as int] == (ChatMessage::Assistant {
                            content: response.content,
                            tool_calls: response.tool_calls,
                        })
                        &&& if old(self).rounds() >= old(self).config_spec().max_tool_rounds {
                            &&& (action matches SessionAction::Finish(
                                Err(Error::ToolRoundLimit(limit)),
                            ) && limit == old(self).config_spec().max_tool_rounds)
                            &&& final(self).phase() == SessionPhase::Idle
                        } else {
                            &&& final(self).rounds() == old(self).rounds() + 1
                            &&& dispatched(
                                old(self).config_spec().tools@,
                                response.tool_calls@,
                                m as usize,
                                0,
                                final(self).phase(),
                                action,
                            )
                        }
                    }
                },
                SessionEvent::Approved(outcome) => {
                    let (m, k) = match old(self).phase() {
                        SessionPhase::AwaitingApproval { message, call } => (message, call),
                        _ => (0, 0),
                    };
                    let call = calls_of(old(self).messages_spec()[m as int])[k as int];
                    &&& final(self).messages_spec() == old(self).messages_spec()
                    &&& final(self).rounds() == old(self).rounds()
                    &&& match outcome {
                        Err(e) => action == SessionAction::Finish(Err(e)) && final(self).phase()
                            == SessionPhase::Idle,
                        Ok(false) => (action matches SessionAction::Finish(
                            Err(Error::ApprovalDenied(n)),
                        ) && n == call.name) && final(self).phase() == SessionPhase::Idle,
                        Ok(true) => (action matches SessionAction::Execute { call: c } && c == k)
                            && final(self).phase() == (SessionPhase::AwaitingExecution {
                            message: m,
                            call: k,
                        }),
                    }
                },
                SessionEvent::Executed(outcome) => {
                    let (m, k) = match old(self).phase() {
                        SessionPhase::AwaitingExecution { message, call } => (message, call),
                        _ => (0, 0),
                    };
                    let call = calls_of(old(self).messages_spec()[m as int])[k as int];
                    &&& final(self).rounds() == old(self).rounds()
                    &&& match outcome {
                        Err(e) => action == SessionAction::Finish(Err(e)) && final(self).phase()
                            == SessionPhase::Idle && final(self).messages_spec()
                            == old(self).messages_spec(),
                        Ok(output) => {
                            &&& final(self).messages_spec() == old(self).messages_spec().push(
                                ChatMessage::Tool { tool_call_id: call.id, content: output.content },
                            )
                            &&& dispatched(
                                old(self).config_spec().tools@,
                                calls_of(old(self).messages_spec()[m as int]),
                                m,
                                k + 1,
                                final(self).phase(),
                                action,
                            )
                        },
                    }
                },
            },
            action matches SessionAction::Execute { call } ==> {
                &&& final(self).phase() matches SessionPhase::AwaitingExecution { message, call: c }
                &&& c == call
                &&& called_tool(
                    final(self).config_spec().tools@,
                    final(self).messages_spec(),
                    message as int,
                    call as int,
                ) matches Some(tool)
                &&& tool.mutating ==> old(self).phase() == (SessionPhase::AwaitingApproval {
                    message,
                    call,
                }) && event == SessionEvent::Approved(Ok(true))
            },
    {
        match event {
            SessionEvent::Completed(Err(e)) => {
                self.phase = SessionPhase::Idle;
                SessionAction::Finish(Err(e))
            },
            SessionEvent::Completed(Ok(response)) => {
                let m = self.messages.len();
                let ghost before = self.messages@;
                if response.tool_calls.len() == 0 {
                    let content = match &response.content {
                        Some(text) => Some(text.clone()),
                        None => None,
                    };
                    self.messages.push(ChatMessage::Assistant { content, tool_calls: Vec::new() });
                    proof {
                        assert(self.messages@.take(m as int) =~= before);
                    }
                    self.phase = SessionPhase::Idle;
                    return SessionAction::Finish(Ok(response));
                }
                let AssistantResponse { content, tool_calls, .. } = response;
                self.messages.push(ChatMessage::Assistant { content, tool_calls });
                proof {
                    assert(self.messages@.take(m as int) =~= before);
                }
                if self.tool_rounds >= self.config.max_tool_rounds {
                    self.phase = SessionPhase::Idle;
                    return SessionAction::Finish(
                        Err(Error::ToolRoundLimit(self.config.max_tool_rounds)),
                    );
                }
                self.tool_rounds = self.tool_rounds + 1;
                self.dispatch(m, 0)
            },
            SessionEvent::Approved(outcome) => {
                let (m, k) = match self.phase {
                    SessionPhase::AwaitingApproval { message, call } => (message, call),
                    _ => (0, 0),
                };
                match outcome {
                    Err(e) => {
                        self.phase = SessionPhase::Idle;
                        SessionAction::Finish(Err(e))
                    },
                    Ok(false) => {
                        let name = match &self.messages[m] {
                            ChatMessage::Assistant { tool_calls, .. } => tool_calls[k].name.clone(),
                            _ => String::new(),
                        };
                        self.phase = SessionPhase::Idle;
                        SessionAction::Finish(Err(Error::ApprovalDenied(name)))
                    },
                    Ok(true) => {
                        self.phase = SessionPhase::AwaitingExecution { message: m, call: k };
                        SessionAction::Execute { call: k }
                    },
                }
            },
            SessionEvent::Executed(outcome) => {
                let (m, k) = match self.phase {
                    SessionPhase::AwaitingExecution { message, call } => (message, call),
                    _ => (0, 0),
                };
                match outcome {
                    Err(e) => {
                        self.phase = SessionPhase::Idle;
                        SessionAction::Finish(Err(e))
                    },
                    Ok(output) => {
                        let (id, next) = match &self.messages[m] {
                            ChatMessage::Assistant { tool_calls, .. } => {
                                let n = tool_calls.len();
                                (tool_calls[k].id.clone(), k + 1)
                            },
                            _ => (String::new(), 0),
                        };
                        let ghost before = self.messages@;
                        self.messages.push(ChatMessage::Tool { tool_call_id: id, content: output.content });
                        proof {
                            assert(self.messages@[m as int] == before[m as int]);
                        }
                        self.dispatch(m, next)
                    },
                }
            },
        }
    }
}

} // verus!
