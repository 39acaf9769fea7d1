use redrob::agent::session::{AgentSession, SessionAction, SessionEvent, SessionPhase};
use redrob::agent::types::{
    AgentSessionConfig, AssistantResponse, ChatMessage, FunctionTool, ToolCall,
};
use redrob::{Error, ToolOutput};

fn object() -> serde_json::Value {
    serde_json::Value::Object(serde_json::Map::new())
}

fn response(content: Option<&str>, tool_calls: Vec<ToolCall>) -> AssistantResponse {
    AssistantResponse {
        content: content.map(str::to_owned),
        tool_calls,
        usage: None,
        finish_reason: None,
    }
}

fn call(id: &str, name: &str) -> ToolCall {
    ToolCall {
        id: id.to_owned(),
        name: name.to_owned(),
        arguments: object(),
    }
}

fn tool(name: &str, mutating: bool) -> FunctionTool {
    FunctionTool::new(name.to_owned(), object())
        .unwrap()
        .mutating(mutating)
}

struct Script {
    responses: Vec<AssistantResponse>,
    approve: bool,
    approvals: usize,
    executed: Vec<String>,
}

impl Script {
    fn new(responses: Vec<AssistantResponse>, approve: bool) -> Self {
        Self {
            responses,
            approve,
            approvals: 0,
            executed: Vec::new(),
        }
    }

    fn latest_call(session: &AgentSession, index: usize) -> ToolCall {
        session
            .messages()
            .iter()
            .rev()
            .find_map(|message| match message {
                ChatMessage::Assistant { tool_calls, .. } => Some(tool_calls[index].clone()),
                _ => None,
            })
            .unwrap()
    }

    fn run(&mut self, session: &mut AgentSession, user: &str) -> Result<AssistantResponse, Error> {
        let mut action = session.begin(user.to_owned());
        loop {
            let event = match action {
                SessionAction::Complete => SessionEvent::Completed(Ok(self.responses.remove(0))),
                SessionAction::Approve { .. } => {
                    self.approvals += 1;
                    SessionEvent::Approved(Ok(self.approve))
                }
                SessionAction::Execute { call } => {
                    self.executed.push(Self::latest_call(session, call).name);
                    SessionEvent::Executed(Ok(ToolOutput::new("saved".to_owned())))
                }
                SessionAction::Finish(outcome) => return outcome,
            };
            assert!(session.expects(&event));
            action = session.advance(event);
        }
    }
}

fn config(tools: Vec<FunctionTool>) -> AgentSessionConfig {
    AgentSessionConfig {
        tools,
        ..AgentSessionConfig::default()
    }
}

#[test]
fn mutating_tools_require_approval_before_execution() {
    let mut script = Script::new(vec![response(None, vec![call("call-1", "save")])], false);
    let mut session = AgentSession::new(config(vec![tool("save", true)])).unwrap();
    let error = script.run(&mut session, "save it").unwrap_err();
    assert!(matches!(error, Error::ApprovalDenied(name) if name == "save"));
    assert_eq!(script.approvals, 1);
    assert!(script.executed.is_empty());
    assert_eq!(session.current_phase(), SessionPhase::Idle);
}

#[test]
fn loops_tool_results_back_to_provider() {
    let mut script = Script::new(
        vec![
            response(None, vec![call("call-1", "inspect")]),
            response(Some("done"), vec![]),
        ],
        true,
    );
    let mut session = AgentSession::new(config(vec![tool("inspect", false)])).unwrap();
    let final_response = script.run(&mut session, "inspect").unwrap();
    assert_eq!(final_response.content.as_deref(), Some("done"));
    assert_eq!(script.executed, vec!["inspect".to_owned()]);
    assert_eq!(script.approvals, 0);
    assert_eq!(session.messages().len(), 4);
    match &session.messages()[2] {
        ChatMessage::Tool {
            tool_call_id,
            content,
        } => {
            assert_eq!(tool_call_id, "call-1");
            assert_eq!(content, "saved");
        }
        other => panic!("unexpected {other:?}"),
    }
}

#[test]
fn approved_mutating_tools_run_after_approval() {
    let mut script = Script::new(
        vec![
            response(None, vec![call("a", "save"), call("b", "inspect")]),
            response(Some("ok"), vec![]),
        ],
        true,
    );
    let mut session =
        AgentSession::new(config(vec![tool("inspect", false), tool("save", true)])).unwrap();
    script.run(&mut session, "go").unwrap();
    assert_eq!(script.approvals, 1);
    assert_eq!(script.executed, vec!["save".to_owned(), "inspect".to_owned()]);
    assert_eq!(session.messages().len(), 5);
}

#[test]
fn unknown_tools_and_round_limits_end_the_run() {
    let mut script = Script::new(vec![response(None, vec![call("x", "format_disk")])], true);
    let mut session = AgentSession::new(config(vec![tool("inspect", false)])).unwrap();
    let error = script.run(&mut session, "go").unwrap_err();
    assert!(matches!(error, Error::UnknownTool(name) if name == "format_disk"));
    assert!(script.executed.is_empty());

    let looping = AgentSessionConfig {
        max_tool_rounds: 2,
        ..config(vec![tool("inspect", false)])
    };
    let mut script = Script::new(
        vec![
            response(None, vec![call("1", "inspect")]),
            response(None, vec![call("2", "inspect")]),
            response(None, vec![call("3", "inspect")]),
        ],
        true,
    );
    let mut session = AgentSession::new(looping).unwrap();
    let error = script.run(&mut session, "go").unwrap_err();
    assert!(matches!(error, Error::ToolRoundLimit(2)));
    assert_eq!(script.executed.len(), 2);
}

#[test]
fn provider_errors_end_the_run_unchanged() {
    let mut session = AgentSession::new(AgentSessionConfig::default()).unwrap();
    assert!(matches!(session.begin("hi".to_owned()), SessionAction::Complete));
    assert!(!session.expects(&SessionEvent::Approved(Ok(true))));
    let action = session.advance(SessionEvent::Completed(Err(Error::Protocol("down".to_owned()))));
    assert!(matches!(action, SessionAction::Finish(Err(Error::Protocol(m))) if m == "down"));
    assert_eq!(session.messages().len(), 1);
    assert_eq!(session.current_phase(), SessionPhase::Idle);
}

#[test]
fn session_settings_are_checked() {
    let message = |config: AgentSessionConfig| match AgentSession::new(config) {
        Err(Error::InvalidConfiguration(message)) => message,
        Err(other) => panic!("unexpected {other:?}"),
        Ok(_) => panic!("expected a rejection"),
    };
    let blank = AgentSessionConfig {
        model: " \t".to_owned(),
        ..AgentSessionConfig::default()
    };
    assert_eq!(message(blank), "agent model must not be empty");
    let no_rounds = AgentSessionConfig {
        max_tool_rounds: 0,
        ..AgentSessionConfig::default()
    };
    assert_eq!(message(no_rounds), "max_tool_rounds must be greater than zero");
    let duplicated = config(vec![tool("a", false), tool("b", true), tool("a", true)]);
    assert_eq!(message(duplicated), "duplicate tool name `a`");
    assert!(AgentSession::new(config(vec![tool("a", false), tool("b", true)])).is_ok());
}

#[test]
fn function_tools_need_a_name_and_object_parameters() {
    assert!(matches!(
        FunctionTool::new("  ".to_owned(), object()),
        Err(Error::InvalidConfiguration(m)) if m == "tool name must not be empty"
    ));
    assert!(matches!(
        FunctionTool::new("save".to_owned(), serde_json::Value::Bool(true)),
        Err(Error::InvalidConfiguration(m)) if m == "tool parameters must be a JSON Schema object"
    ));
    let tool = FunctionTool::new("save".to_owned(), object())
        .unwrap()
        .with_description("Saves".to_owned());
    assert_eq!(tool.description.as_deref(), Some("Saves"));
    assert!(!tool.mutating);
}
