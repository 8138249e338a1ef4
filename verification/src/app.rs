//! The application state and the verified step functions of the event loop.
//!
//! `App` owns everything one session needs: the state machine's state, the
//! two editable buffers, the conversation log, the pending tool call, and the
//! flags the renderer reads. Each event-loop decision is a step function
//! here: it mutates the `App` and hands back a [`Directive`] naming the one
//! piece of outside work (if any) the caller must start.

use vstd::prelude::*;

verus! {

use crate::config::Config;
use crate::json::Json;
use crate::message::{Message, MessageRole, MessageV};
use crate::state::{AppState, StateEvent, TransitionResult, transition, spec_transition};
use crate::text::{trim_spec, trim_str};

/// The outside work a step asks its caller to start.
#[derive(Debug)]
pub enum Directive {
    /// Nothing to start.
    Stay,
    /// Send the conversation to the model.
    StartChat,
    /// Run this tool in the background.
    RunTool(crate::tool_call::ToolCall),
    /// Call this MCP tool in the background.
    RunMcp { server: String, name: String, arguments: Json },
}

/// Everything one session holds.
#[derive(Debug)]
pub struct App {
    /// Where the state machine stands.
    pub state: AppState,
    /// The user's editable query text.
    pub input_buffer: String,
    /// The editable preview of the pending command.
    pub action_buffer: String,
    /// The conversation history, append-only.
    pub messages: Vec<Message>,
    /// The tool call awaiting review or execution.
    pub current_tool: Option<crate::tool_call::ToolCall>,
    /// The command currently executing, if any.
    pub current_command: Option<String>,
    /// Output of the last execution.
    pub execution_output: String,
    /// The error banner, if one is shown.
    pub error_message: Option<String>,
    /// Frame of the loading animation.
    pub spinner_frame: usize,
    /// Set when the loop should exit.
    pub should_quit: bool,
    /// Scroll position of the history pane.
    pub scroll_offset: u16,
    /// The pending command matched a destructive pattern.
    pub dangerous_command_detected: bool,
    /// A Python interpreter was found at startup; the caller sets this.
    pub python_available: bool,
    /// The configuration the session runs under.
    pub config: Config,
}

/// The mathematical shape of the application state.
pub struct AppV {
    pub state: AppState,
    pub input_buffer: Seq<char>,
    pub action_buffer: Seq<char>,
    pub messages: Seq<MessageV>,
    pub current_tool: Option<crate::tool_call::ToolCallV>,
    pub current_command: Option<Seq<char>>,
    pub execution_output: Seq<char>,
    pub error_message: Option<Seq<char>>,
    pub spinner_frame: usize,
    pub should_quit: bool,
    pub scroll_offset: u16,
    pub dangerous_command_detected: bool,
    pub python_available: bool,
    pub config: crate::config::ConfigV,
}

impl View for App {
    type V = AppV;

    open spec fn view(&self) -> AppV {
        AppV {
            state: self.state,
            input_buffer: self.input_buffer@,
            action_buffer: self.action_buffer@,
            messages: self.messages.deep_view(),
            current_tool: match self.current_tool {
                Option::Some(t) => Some(t@),
                Option::None => None,
            },
            current_command: match self.current_command {
                Option::Some(c) => Some(c@),
                Option::None => None,
            },
            execution_output: self.execution_output@,
            error_message: match self.error_message {
                Option::Some(e) => Some(e@),
                Option::None => None,
            },
            spinner_frame: self.spinner_frame,
            should_quit: self.should_quit,
            scroll_offset: self.scroll_offset,
            dangerous_command_detected: self.dangerous_command_detected,
            python_available: self.python_available,
            config: self.config@,
        }
    }
}

/// A message of the given role and content stands at the end of the log.
pub open spec fn appended(log_old: Seq<MessageV>, log_new: Seq<MessageV>, role: MessageRole,
    content: Seq<char>) -> bool {
    log_new == log_old.push(MessageV { role, content })
}

impl App {
    /// A fresh session over the given configuration, at the input prompt.
    /// Whether Python is available is for the caller to probe and set.
    pub fn new(config: Config) -> (r: App)
        ensures
            r@.state == AppState::Input,
            r@.input_buffer == Seq::<char>::empty(),
            r@.action_buffer == Seq::<char>::empty(),
            r@.messages == Seq::<MessageV>::empty(),
            r@.current_tool is None,
            r@.current_command is None,
            r@.execution_output == Seq::<char>::empty(),
            r@.error_message is None,
            r@.spinner_frame == 0,
            !r@.should_quit,
            r@.scroll_offset == 0,
            !r@.dangerous_command_detected,
            !r@.python_available,
            r@.config == config@,
    {
        let r = App {
            state: AppState::Input,
            input_buffer: String::new(),
            action_buffer: String::new(),
            messages: Vec::new(),
            current_tool: None,
            current_command: None,
            execution_output: String::new(),
            error_message: None,
            spinner_frame: 0,
            should_quit: false,
            scroll_offset: 0,
            dangerous_command_detected: false,
            python_available: false,
            config,
        };
        proof {
            assert(r@.messages =~= Seq::<MessageV>::empty());
        }
        r
    }

    /// The input text with surrounding whitespace removed.
    pub fn get_input_text(&self) -> (r: String)
        ensures
            r@ == trim_spec(self@.input_buffer),
    {
        trim_str(self.input_buffer.as_str())
    }

    /// The pending action text with surrounding whitespace removed.
    pub fn get_action_text(&self) -> (r: String)
        ensures
            r@ == trim_spec(self@.action_buffer),
    {
        trim_str(self.action_buffer.as_str())
    }

    /// Whitespace-only input counts as empty.
    pub fn is_input_empty(&self) -> (r: bool)
        ensures
            r == (trim_spec(self@.input_buffer).len() == 0),
    {
        let t = self.get_input_text();
        t.as_str().is_empty()
    }

    /// Empty the input buffer.
    pub fn clear_input(&mut self)
        ensures
            final(self)@ == (AppV { input_buffer: Seq::<char>::empty(), ..old(self)@ }),
    {
        self.input_buffer = String::new();
    }

    /// Empty the action buffer and drop the destructive flag.
    pub fn clear_action(&mut self)
        ensures
            final(self)@ == (AppV {
                action_buffer: Seq::<char>::empty(),
                dangerous_command_detected: false,
                ..old(self)@
            }),
    {
        self.action_buffer = String::new();
        self.dangerous_command_detected = false;
    }

    /// Show this text in the review pane.
    pub fn set_action_text(&mut self, text: &str)
        ensures
            final(self)@ == (AppV { action_buffer: text@, ..old(self)@ }),
    {
        self.action_buffer = text.to_owned();
    }

    /// Append one message to the conversation.
    pub fn add_message(&mut self, message: Message)
        ensures
            final(self)@ == (AppV { messages: old(self)@.messages.push(message@), ..old(self)@ }),
    {
        self.messages.push(message);
        proof {
            assert(self@.messages =~= old(self)@.messages.push(message@));
        }
    }

    /// Drop the error banner.
    pub fn clear_error(&mut self)
        ensures
            final(self)@ == (AppV { error_message: None, ..old(self)@ }),
    {
        self.error_message = None;
    }

    /// Show an error banner.
    pub fn set_error(&mut self, error: &str)
        ensures
            final(self)@ == (AppV { error_message: Some(error@), ..old(self)@ }),
    {
        self.error_message = Some(error.to_owned());
    }

    /// Feed one event to the state machine. A legal transition moves the
    /// state and returns true; anything else changes nothing.
    pub fn transition(&mut self, event: StateEvent) -> (r: bool)
        ensures
            match spec_transition(old(self).state, event) {
                Some(next) => r && final(self)@ == (AppV { state: next, ..old(self)@ }),
                None => !r && *final(self) == *old(self),
            },
    {
        match transition(self.state, event) {
            TransitionResult::Success(new_state) => {
                self.state = new_state;
                true
            },
            TransitionResult::Ignored => false,
            TransitionResult::Error(msg) => {
                self.set_error(msg.as_str());
                false
            },
        }
    }

    /// Submit the input. Whitespace-only input is rejected and nothing
    /// changes. Anything else is appended to the log as the user's message
    /// (trimmed) and the buffer is cleared; from `Input` the session moves
    /// to `Thinking` and the submission counts as accepted.
    pub fn submit_input(&mut self) -> (r: bool)
        ensures
            trim_spec(old(self)@.input_buffer).len() == 0 ==> (!r && *final(self) == *old(self)),
            trim_spec(old(self)@.input_buffer).len() > 0 ==> {
                let with_msg = AppV {
                    input_buffer: Seq::<char>::empty(),
                    messages: old(self)@.messages.push(
                        MessageV {
                            role: MessageRole::User,
                            content: trim_spec(old(self)@.input_buffer),
                        },
                    ),
                    ..old(self)@
                };
                &&& r == (old(self).state == AppState::Input)
                &&& (old(self).state == AppState::Input ==> final(self)@ == (AppV {
                    state: AppState::Thinking,
                    ..with_msg
                }))
                &&& (old(self).state != AppState::Input ==> final(self)@ == with_msg)
            },
    {
        let is_empty = self.is_input_empty();
        if !is_empty {
            let input = self.get_input_text();
            self.add_message(Message::user(input.as_str()));
            self.clear_input();
        }
        self.transition(StateEvent::SubmitInput { is_empty })
    }

    /// Record an API failure: show the banner and return to the prompt.
    /// The log is never touched, so no history is lost.
    pub fn handle_api_error(&mut self, error: &str)
        ensures
            final(self)@ == (AppV {
                error_message: Some(error@),
                state: match spec_transition(old(self).state, StateEvent::ApiError) {
                    Some(next) => next,
                    None => old(self).state,
                },
                ..old(self)@
            }),
            (old(self).state == AppState::Thinking || old(self).state == AppState::Finalizing)
                ==> final(self).state == AppState::Input,
            error@.len() > 0 ==> (final(self)@.error_message matches Some(e) && e.len() > 0),
    {
        self.set_error(error);
        let _moved = self.transition(StateEvent::ApiError);
    }

    /// Advance the loading animation, wrapping after ten frames.
    pub fn tick_spinner(&mut self)
        ensures
            final(self)@ == (AppV {
                spinner_frame: (if old(self).spinner_frame >= 9 {
                    0
                } else {
                    old(self).spinner_frame + 1
                }) as usize,
                ..old(self)@
            }),
    {
        self.spinner_frame = if self.spinner_frame >= 9 {
            0
        } else {
            self.spinner_frame + 1
        };
    }

    /// The glyph for the current animation frame.
    pub fn spinner_char(&self) -> (r: char)
        ensures
            r == spinner_glyph(self.spinner_frame as int % 10),
    {
        let i = self.spinner_frame % 10;
        if i == 0 {
            '|'
        } else if i == 1 {
            '/'
        } else if i == 2 {
            '-'
        } else if i == 3 {
            '\\'
        } else if i == 4 {
            '|'
        } else if i == 5 {
            '/'
        } else if i == 6 {
            '-'
        } else if i == 7 {
            '\\'
        } else if i == 8 {
            '|'
        } else {
            '/'
        }
    }
}

/// The animation glyphs, a four-step spinner cycled over ten frames.
pub open spec fn spinner_glyph(i: int) -> char {
    if i == 0 {
        '|'
    } else if i == 1 {
        '/'
    } else if i == 2 {
        '-'
    } else if i == 3 {
        '\\'
    } else if i == 4 {
        '|'
    } else if i == 5 {
        '/'
    } else if i == 6 {
        '-'
    } else if i == 7 {
        '\\'
    } else if i == 8 {
        '|'
    } else {
        '/'
    }
}

/// The state after one event, staying put when the table has no row.
pub open spec fn next_state(s: AppState, e: StateEvent) -> AppState {
    match spec_transition(s, e) {
        Some(n) => n,
        None => s,
    }
}

/// What the review pane shows for a pending call.
pub open spec fn display_spec(tc: crate::tool_call::ToolCallV) -> Seq<char> {
    if tc.tool == "run_cmd"@ {
        tc.command
    } else if tc.tool == "run_python"@ {
        "python:\n"@.add(tc.code)
    } else if tc.tool == "read_file"@ {
        "read_file: "@.add(tc.path)
    } else if tc.tool == "write_file"@ {
        "write_file: "@.add(tc.path).add(" ("@).add(crate::text::dec_str(tc.content.len())).add(
            " characters)"@,
        )
    } else if tc.tool == "search"@ {
        "search: "@.add(tc.pattern).add(" in "@).add(
            if tc.directory.len() == 0 {
                "."@
            } else {
                tc.directory
            },
        )
    } else if tc.tool == "mcp"@ {
        "mcp: "@.add(tc.server).push('/').add(tc.name).push('\n').add(
            crate::json::ser(tc.arguments),
        )
    } else {
        "tool: "@.add(tc.tool)
    }
}

/// Render the review pane text for a call.
pub fn action_display(tc: &crate::tool_call::ToolCall) -> (r: String)
    ensures
        r@ == display_spec(tc@),
{
    if tc.is_run_cmd() {
        tc.command.clone()
    } else if crate::text::str_eq(tc.tool.as_str(), "run_python") {
        let mut out = String::from_str("python:\n");
        out.append(tc.code.as_str());
        out
    } else if crate::text::str_eq(tc.tool.as_str(), "read_file") {
        let mut out = String::from_str("read_file: ");
        out.append(tc.path.as_str());
        out
    } else if crate::text::str_eq(tc.tool.as_str(), "write_file") {
        let mut out = String::from_str("write_file: ");
        out.append(tc.path.as_str());
        out.append(" (");
        let n = tc.content.as_str().unicode_len();
        let num = crate::text::u64_to_string(n as u64);
        out.append(num.as_str());
        out.append(" characters)");
        proof {
            assert(out@ =~= display_spec(tc@));
        }
        out
    } else if crate::text::str_eq(tc.tool.as_str(), "search") {
        let mut out = String::from_str("search: ");
        out.append(tc.pattern.as_str());
        out.append(" in ");
        if tc.directory.as_str().is_empty() {
            out.append(".");
            proof {
                assert(out@ =~= display_spec(tc@));
            }
        } else {
            out.append(tc.directory.as_str());
            proof {
                assert(out@ =~= display_spec(tc@));
            }
        }
        out
    } else if tc.is_mcp() {
        let mut out = String::from_str("mcp: ");
        out.append(tc.server.as_str());
        crate::text::push_char(&mut out, '/');
        out.append(tc.name.as_str());
        crate::text::push_char(&mut out, '\n');
        let args = crate::json::serialize_json(&tc.arguments);
        out.append(args.as_str());
        proof {
            assert(out@ =~= display_spec(tc@));
        }
        out
    } else {
        let mut out = String::from_str("tool: ");
        out.append(tc.tool.as_str());
        out
    }
}

/// The refusal shown when a command would need its own terminal.
pub open spec fn interactive_refusal_spec(cmd: Seq<char>) -> Seq<char> {
    "Cannot run interactive command: `"@.add(cmd).add("`\n"@).add(
        match crate::executor::suggestion_spec(cmd) {
            Some(s) => s,
            None => "This command requires an interactive terminal"@,
        },
    )
}

/// The notice shown when the model asks for Python and none was found.
pub open spec fn python_unavailable_text() -> Seq<char> {
    "Python is not available on this system.\nInstall Python 3 to use this tool."@
}

/// The notice shown when the model names a tool off the allow-list.
pub open spec fn unknown_tool_msg_spec(tool: Seq<char>) -> Seq<char> {
    "Blocked unknown tool: '"@.add(tool).add(
        "'\nAllowed: run_cmd, run_python, read_file, write_file, search, mcp"@,
    )
}

impl App {
    /// Submit the input and decide what follows: an accepted submission
    /// starts a chat request, unless no client is configured, in which case
    /// the session reports the missing key and returns to the prompt.
    pub fn on_submit(&mut self, has_client: bool) -> (d: Directive)
        ensures
            trim_spec(old(self)@.input_buffer).len() == 0 ==> (*final(self) == *old(self)
                && d is Stay),
            trim_spec(old(self)@.input_buffer).len() > 0 ==> {
                let with_msg = AppV {
                    input_buffer: Seq::<char>::empty(),
                    messages: old(self)@.messages.push(
                        MessageV {
                            role: MessageRole::User,
                            content: trim_spec(old(self)@.input_buffer),
                        },
                    ),
                    ..old(self)@
                };
                &&& (old(self).state != AppState::Input ==> final(self)@ == with_msg
                    && d is Stay)
                &&& (old(self).state == AppState::Input && has_client ==> final(self)@ == (AppV {
                    state: AppState::Thinking,
                    ..with_msg
                }) && d is StartChat)
                &&& (old(self).state == AppState::Input && !has_client ==> final(self)@ == (AppV {
                    state: AppState::Input,
                    error_message: Some("API key not configured"@),
                    ..with_msg
                }) && d is Stay)
            },
    {
        let submitted = self.submit_input();
        if submitted {
            if has_client {
                Directive::StartChat
            } else {
                self.handle_api_error("API key not configured");
                Directive::Stay
            }
        } else {
            Directive::Stay
        }
    }

    /// Apply a parsed model reply: screen a proposed call, stage it for
    /// review, or fall back to the prompt on plain text. No call is ever
    /// dispatched from here — an interactive command is refused with a
    /// suggestion, a tool off the allow-list is blocked with a notice, and
    /// in both cases the session returns to the prompt.
    pub fn apply_parsed(
        &mut self,
        parsed: crate::tool_call::ParsedResponse,
        detector: &crate::executor::DangerousCommandDetector,
        interactive: &crate::executor::InteractiveCommandDetector,
    )
        ensures
            parsed matches crate::tool_call::ParsedResponse::TextResponse(_) ==> final(self)@ == (
            AppV {
                state: next_state(old(self).state, StateEvent::TextResponseReceived),
                ..old(self)@
            }),
            parsed matches crate::tool_call::ParsedResponse::ToolCall(b) ==> {
                let v = b@;
                &&& (v.tool == "run_cmd"@ && crate::executor::is_interactive_spec(v.command)
                    ==> final(self)@ == (AppV {
                    state: next_state(old(self).state, StateEvent::TextResponseReceived),
                    messages: old(self)@.messages.push(
                        MessageV {
                            role: MessageRole::Model,
                            content: interactive_refusal_spec(v.command),
                        },
                    ),
                    ..old(self)@
                }))
                &&& (!(v.tool == "run_cmd"@ && crate::executor::is_interactive_spec(v.command))
                    && v.tool == "run_python"@ && !old(self).python_available ==> final(self)@
                    == (AppV {
                    state: next_state(old(self).state, StateEvent::TextResponseReceived),
                    messages: old(self)@.messages.push(
                        MessageV { role: MessageRole::Model, content: python_unavailable_text() },
                    ),
                    ..old(self)@
                }))
                &&& (!(v.tool == "run_cmd"@ && crate::executor::is_interactive_spec(v.command))
                    && !(v.tool == "run_python"@ && !old(self).python_available) ==> {
                    let staged = AppV {
                        action_buffer: display_spec(v),
                        current_tool: Some(v),
                        dangerous_command_detected: crate::tool_call::spec_destructive(v) || (
                        v.tool == "run_cmd"@ && crate::executor::spec_dangerous(
                            detector.patterns.deep_view(),
                            v.command,
                        )),
                        ..old(self)@
                    };
                    &&& (!crate::tool_call::allowed_tool(v.tool) ==> final(self)@ == (AppV {
                        state: next_state(old(self).state, StateEvent::TextResponseReceived),
                        messages: old(self)@.messages.push(
                            MessageV {
                                role: MessageRole::System,
                                content: unknown_tool_msg_spec(v.tool),
                            },
                        ),
                        ..staged
                    }))
                    &&& (crate::tool_call::allowed_tool(v.tool) ==> final(self)@ == (AppV {
                        state: next_state(old(self).state, StateEvent::ToolCallReceived),
                        ..staged
                    }))
                })
            },
    {
        match parsed {
            crate::tool_call::ParsedResponse::TextResponse(_) => {
                let _moved = self.transition(StateEvent::TextResponseReceived);
            },
            crate::tool_call::ParsedResponse::ToolCall(tc) => {
                let tc = *tc;
                if tc.is_run_cmd() && interactive.is_interactive(tc.command.as_str()) {
                    let sug: &str = match interactive.suggestion(tc.command.as_str()) {
                        Some(s) => s,
                        None => "This command requires an interactive terminal",
                    };
                    let mut msg = String::from_str("Cannot run interactive command: `");
                    msg.append(tc.command.as_str());
                    msg.append("`\n");
                    msg.append(sug);
                    proof {
                        assert(msg@ =~= interactive_refusal_spec(tc@.command));
                    }
                    self.add_message(Message::model(msg.as_str()));
                    let _moved = self.transition(StateEvent::TextResponseReceived);
                } else if crate::text::str_eq(tc.tool.as_str(), "run_python")
                    && !self.python_available {
                    self.add_message(
                        Message::model(
                            "Python is not available on this system.\nInstall Python 3 to use this tool.",
                        ),
                    );
                    let _moved = self.transition(StateEvent::TextResponseReceived);
                } else {
                    let display = action_display(&tc);
                    self.set_action_text(display.as_str());
                    let dangerous = tc.is_destructive() || (tc.is_run_cmd()
                        && detector.is_dangerous(tc.command.as_str()));
                    let allowed = tc.is_allowed_tool();
                    let tool_name = tc.tool.clone();
                    self.current_tool = Some(tc);
                    self.dangerous_command_detected = dangerous;
                    if !allowed {
                        let mut msg = String::from_str("Blocked unknown tool: '");
                        msg.append(tool_name.as_str());
                        msg.append(
                            "'\nAllowed: run_cmd, run_python, read_file, write_file, search, mcp",
                        );
                        proof {
                            assert(msg@ =~= unknown_tool_msg_spec(tool_name@));
                        }
                        self.add_message(Message::system(msg.as_str()));
                        let _moved = self.transition(StateEvent::TextResponseReceived);
                    } else {
                        let _moved = self.transition(StateEvent::ToolCallReceived);
                    }
                }
            },
        }
    }

    /// Record a model reply and apply it: the reply joins the log verbatim,
    /// then the parsed form drives the screens and the state machine. A
    /// reply without any brace is always treated as plain text.
    pub fn handle_model_reply(
        &mut self,
        text: &str,
        detector: &crate::executor::DangerousCommandDetector,
        interactive: &crate::executor::InteractiveCommandDetector,
    )
        ensures
            final(self)@.messages.len() > old(self)@.messages.len(),
            final(self)@.messages.subrange(0, old(self)@.messages.len() as int + 1) == old(
                self,
            )@.messages.push(MessageV { role: MessageRole::Model, content: text@ }),
            (forall|q: int| 0 <= q < text@.len() ==> text@[q] != '{') ==> final(self)@ == (AppV {
                state: next_state(old(self).state, StateEvent::TextResponseReceived),
                messages: old(self)@.messages.push(
                    MessageV { role: MessageRole::Model, content: text@ },
                ),
                ..old(self)@
            }),
            forall|tc: crate::tool_call::ToolCallV|
                crate::tool_call::wf_tool_call(tc) && text@ == crate::tool_call::ser_tool_call(tc)
                    && !(tc.tool == "run_cmd"@ && crate::executor::is_interactive_spec(tc.command))
                    && !(tc.tool == "run_python"@ && !old(self).python_available) ==> final(self)@
                    == (AppV {
                    state: next_state(old(self).state, StateEvent::ToolCallReceived),
                    messages: old(self)@.messages.push(
                        MessageV { role: MessageRole::Model, content: text@ },
                    ),
                    action_buffer: display_spec(tc),
                    current_tool: Some(tc),
                    dangerous_command_detected: crate::tool_call::spec_destructive(tc) || (
                    tc.tool == "run_cmd"@ && crate::executor::spec_dangerous(
                        detector.patterns.deep_view(),
                        tc.command,
                    )),
                    ..old(self)@
                }),
    {
        self.add_message(Message::model(text));
        let parsed = crate::tool_call::ParsedResponse::parse(text);
        self.apply_parsed(parsed, detector, interactive);
        proof {
            assert(final(self)@.messages.subrange(0, old(self)@.messages.len() as int + 1)
                =~= old(self)@.messages.push(
                MessageV { role: MessageRole::Model, content: text@ },
            ));
        }
    }

    /// Confirm the reviewed action. In safe mode nothing runs: the session
    /// posts a single notice of what it would have done and returns to the
    /// prompt. Otherwise the caller is directed to run the pending tool (or
    /// MCP call), and the session enters `Executing`.
    pub fn confirm_execute(&mut self, mcp_available: bool) -> (d: Directive)
        ensures
            !(old(self).state == AppState::ReviewAction && old(self)@.current_tool is Some)
                ==> (*final(self) == *old(self) && d is Stay),
            old(self)@.current_tool matches Some(v) ==> (old(self).state
                == AppState::ReviewAction ==> {
                &&& (old(self)@.config.safe_mode ==> final(self)@ == (AppV {
                    state: AppState::Input,
                    messages: old(self)@.messages.push(
                        MessageV {
                            role: MessageRole::System,
                            content: "[SAFE MODE] "@.add(crate::executor::safe_desc_spec(v)),
                        },
                    ),
                    ..old(self)@
                }) && d is Stay)
                &&& (!old(self)@.config.safe_mode && v.tool == "mcp"@ && mcp_available ==> final(self)@ == (AppV { state: AppState::Executing, ..old(self)@ }) && (d matches
                    Directive::RunMcp { server, name, arguments } && server@ == v.server && name@
                    == v.name && arguments@ == v.arguments))
                &&& (!old(self)@.config.safe_mode && v.tool == "mcp"@ && !mcp_available ==> final(self)@ == (AppV {
                    state: AppState::Input,
                    messages: old(self)@.messages.push(
                        MessageV {
                            role: MessageRole::System,
                            content: "MCP client not available"@,
                        },
                    ),
                    ..old(self)@
                }) && d is Stay)
                &&& (!old(self)@.config.safe_mode && v.tool != "mcp"@ ==> final(self)@ == (AppV {
                    state: AppState::Executing,
                    ..old(self)@
                }) && (d matches Directive::RunTool(t) && t@ == v))
            }),
    {
        let ready = match &self.current_tool {
            Some(_) => self.state == AppState::ReviewAction,
            None => false,
        };
        if !ready {
            return Directive::Stay;
        }
        let tc = match &self.current_tool {
            Some(t) => t.clone_call(),
            None => {
                return Directive::Stay;
            },
        };
        let _moved = self.transition(StateEvent::ExecuteConfirmed);
        if self.config.safe_mode {
            let desc = crate::executor::safe_mode_desc(&tc);
            let mut msg = String::from_str("[SAFE MODE] ");
            msg.append(desc.as_str());
            self.add_message(Message::system(msg.as_str()));
            let _m2 = self.transition(StateEvent::CommandComplete);
            let _m3 = self.transition(StateEvent::AnalysisComplete);
            Directive::Stay
        } else if tc.is_mcp() {
            if mcp_available {
                Directive::RunMcp {
                    server: tc.server,
                    name: tc.name,
                    arguments: tc.arguments,
                }
            } else {
                self.add_message(Message::system("MCP client not available"));
                let _m2 = self.transition(StateEvent::CommandComplete);
                let _m3 = self.transition(StateEvent::AnalysisComplete);
                Directive::Stay
            }
        } else {
            Directive::RunTool(tc)
        }
    }

    /// Cancel a running command: post the notice and return to the prompt.
    /// The caller kills the child process; no analysis request follows.
    pub fn cancel_execution(&mut self)
        ensures
            old(self).state == AppState::Executing ==> final(self)@ == (AppV {
                state: AppState::Input,
                messages: old(self)@.messages.push(
                    MessageV { role: MessageRole::System, content: "Command cancelled"@ },
                ),
                ..old(self)@
            }),
            old(self).state != AppState::Executing ==> *final(self) == *old(self),
    {
        if self.state == AppState::Executing {
            self.add_message(Message::system("Command cancelled"));
            let _m1 = self.transition(StateEvent::CommandComplete);
            let _m2 = self.transition(StateEvent::AnalysisComplete);
        }
    }

    /// Fold a finished execution back into the conversation: keep the
    /// output, append the observation as a user-role message, and either
    /// direct the caller to ask the model for analysis or return to the
    /// prompt when no client is available.
    pub fn handle_command_complete(
        &mut self,
        result: &crate::executor::ExecutionResult,
        has_client: bool,
    ) -> (d: Directive)
        ensures
            ({
                let output = crate::executor::combined_output_spec(
                    result.stdout@,
                    result.stderr@,
                    result.success,
                );
                let desc = match old(self)@.current_tool {
                    Some(v) => crate::executor::tool_desc_spec(v),
                    None => Seq::<char>::empty(),
                };
                let obs = crate::executor::observation_spec(
                    desc,
                    result.exit_code as int,
                    output,
                );
                let s1 = next_state(old(self).state, StateEvent::CommandComplete);
                &&& (has_client ==> final(self)@ == (AppV {
                    state: s1,
                    execution_output: output,
                    messages: old(self)@.messages.push(
                        MessageV { role: MessageRole::User, content: obs },
                    ),
                    ..old(self)@
                }) && d is StartChat)
                &&& (!has_client ==> final(self)@ == (AppV {
                    state: next_state(s1, StateEvent::AnalysisComplete),
                    execution_output: output,
                    messages: old(self)@.messages.push(
                        MessageV { role: MessageRole::User, content: obs },
                    ),
                    ..old(self)@
                }) && d is Stay)
            }),
    {
        let output = crate::executor::combined_output(result);
        self.execution_output = output;
        let desc = match &self.current_tool {
            Some(t) => crate::executor::tool_desc(t),
            None => String::new(),
        };
        let feedback = crate::executor::observation(
            desc.as_str(),
            result.exit_code,
            self.execution_output.as_str(),
        );
        self.add_message(Message::user(feedback.as_str()));
        let _m1 = self.transition(StateEvent::CommandComplete);
        if has_client {
            Directive::StartChat
        } else {
            let _m2 = self.transition(StateEvent::AnalysisComplete);
            Directive::Stay
        }
    }

    /// Fold an MCP result back into the conversation. A success becomes a
    /// user-role observation carrying the result's canonical JSON and leads
    /// to analysis; a failure becomes a system notice and the session
    /// returns to the prompt.
    pub fn handle_mcp_result(
        &mut self,
        result: Result<Json, String>,
        server: &str,
        name: &str,
        has_client: bool,
    ) -> (d: Directive)
        ensures
            result matches Ok(v) ==> {
                let obs = crate::executor::mcp_observation_spec(
                    server@,
                    name@,
                    crate::json::ser(v@),
                );
                let s1 = next_state(old(self).state, StateEvent::CommandComplete);
                &&& (has_client ==> final(self)@ == (AppV {
                    state: s1,
                    messages: old(self)@.messages.push(
                        MessageV { role: MessageRole::User, content: obs },
                    ),
                    ..old(self)@
                }) && d is StartChat)
                &&& (!has_client ==> final(self)@ == (AppV {
                    state: next_state(s1, StateEvent::AnalysisComplete),
                    messages: old(self)@.messages.push(
                        MessageV { role: MessageRole::User, content: obs },
                    ),
                    ..old(self)@
                }) && d is Stay)
            },
            result matches Err(e) ==> {
                let s1 = next_state(old(self).state, StateEvent::CommandComplete);
                final(self)@ == (AppV {
                    state: next_state(s1, StateEvent::AnalysisComplete),
                    messages: old(self)@.messages.push(
                        MessageV { role: MessageRole::System, content: "MCP error: "@.add(e@) },
                    ),
                    ..old(self)@
                }) && d is Stay
            },
    {
        match result {
            Ok(v) => {
                let output = crate::json::serialize_json(&v);
                let feedback = crate::executor::mcp_observation(server, name, output.as_str());
                self.add_message(Message::user(feedback.as_str()));
                let _m1 = self.transition(StateEvent::CommandComplete);
                if has_client {
                    Directive::StartChat
                } else {
                    let _m2 = self.transition(StateEvent::AnalysisComplete);
                    Directive::Stay
                }
            },
            Err(e) => {
                let mut msg = String::from_str("MCP error: ");
                msg.append(e.as_str());
                self.add_message(Message::system(msg.as_str()));
                let _m1 = self.transition(StateEvent::CommandComplete);
                let _m2 = self.transition(StateEvent::AnalysisComplete);
                Directive::Stay
            },
        }
    }
}

/// What the one-shot command-line mode must do with a model reply.
#[derive(Debug)]
pub enum QuickDirective {
    /// Print the model's plain-text answer.
    PrintText(String),
    /// Print the proposed command without running it.
    PrintCommand(String),
    /// Safe mode: print this notice and execute nothing.
    SafeNotice(String),
    /// Call this MCP tool.
    CallMcp { server: String, name: String, arguments: Json },
    /// Ask the user to confirm, then run this call.
    ConfirmAndRun(crate::tool_call::ToolCall),
}

/// Decide the one-shot mode's action. Safe mode always wins: no call of any
/// kind is handed out, only the notice of what would have run.
pub fn quick_decision(
    parsed: crate::tool_call::ParsedResponse,
    safe_mode: bool,
    execute: bool,
) -> (d: QuickDirective)
    ensures
        parsed matches crate::tool_call::ParsedResponse::TextResponse(t) ==> (d matches
            QuickDirective::PrintText(s) && s@ == t@),
        parsed matches crate::tool_call::ParsedResponse::ToolCall(b) ==> (safe_mode ==> (d
            matches QuickDirective::SafeNotice(s) && s@ == "[SAFE MODE] "@.add(
            crate::executor::safe_desc_spec(b@),
        ))),
        parsed matches crate::tool_call::ParsedResponse::ToolCall(b) ==> (!safe_mode && b@.tool
            == "mcp"@ ==> (d matches QuickDirective::CallMcp { server, name, arguments }
            && server@ == b@.server && name@ == b@.name && arguments@ == b@.arguments)),
        parsed matches crate::tool_call::ParsedResponse::ToolCall(b) ==> (!safe_mode && b@.tool
            != "mcp"@ && execute ==> (d matches QuickDirective::ConfirmAndRun(t) && t@ == b@)),
        parsed matches crate::tool_call::ParsedResponse::ToolCall(b) ==> (!safe_mode && b@.tool
            != "mcp"@ && !execute ==> (d matches QuickDirective::PrintCommand(s) && s@
            == b@.command)),
{
    match parsed {
        crate::tool_call::ParsedResponse::TextResponse(t) => QuickDirective::PrintText(t),
        crate::tool_call::ParsedResponse::ToolCall(b) => {
            let tc = *b;
            if safe_mode {
                let desc = crate::executor::safe_mode_desc(&tc);
                let mut notice = String::from_str("[SAFE MODE] ");
                notice.append(desc.as_str());
                QuickDirective::SafeNotice(notice)
            } else if tc.is_mcp() {
                QuickDirective::CallMcp {
                    server: tc.server,
                    name: tc.name,
                    arguments: tc.arguments,
                }
            } else if execute {
                QuickDirective::ConfirmAndRun(tc)
            } else {
                QuickDirective::PrintCommand(tc.command)
            }
        },
    }
}

/// What a typed line asks for, when it is a slash command.
#[derive(Debug)]
pub enum SlashCommand {
    /// `/model [name]`: list models, or switch when a name is given.
    FetchModels(Option<String>),
    /// `/quit`: leave the session.
    Quit,
    /// Not a recognized command.
    NotACommand,
}

/// Interpret a typed line as a slash command.
pub fn parse_slash_command(input: &str) -> (r: SlashCommand)
    ensures
        ({
            let t = trim_spec(input@);
            &&& (t == "/quit"@ ==> r is Quit)
            &&& (t == "/model"@ ==> (r matches SlashCommand::FetchModels(a) && a is None))
            &&& (crate::text::starts_with(t, "/model "@) ==> (r matches
                SlashCommand::FetchModels(a) && a matches Some(w) && w@ == trim_spec(
                t.subrange(7, t.len() as int),
            )))
            &&& (!(t == "/quit"@ || t == "/model"@ || crate::text::starts_with(t, "/model "@))
                ==> r is NotACommand)
        }),
{
    let t = trim_str(input);
    proof {
        reveal_strlit("/model ");
        reveal_strlit("/model");
        reveal_strlit("/quit");
        assert("/model "@.len() == 7);
        assert("/model"@.len() == 6);
        assert("/quit"@.len() == 5);
        assert("/quit"@[1] == 'q' && "/model "@[1] == 'm');
    }
    if crate::text::str_eq(t.as_str(), "/quit") {
        SlashCommand::Quit
    } else if crate::text::str_eq(t.as_str(), "/model") {
        SlashCommand::FetchModels(None)
    } else if crate::text::starts_with_str(t.as_str(), "/model ") {
        let n = t.as_str().unicode_len();
        let rest = crate::text::substring_of(t.as_str(), 7, n);
        let arg = trim_str(rest.as_str());
        SlashCommand::FetchModels(Some(arg))
    } else {
        SlashCommand::NotACommand
    }
}

/// The first model whose name contains the wanted fragment.
pub open spec fn find_model_spec(ms: Seq<Seq<char>>, wanted: Seq<char>) -> Option<Seq<char>>
    decreases ms.len(),
{
    if ms.len() == 0 {
        None
    } else if crate::text::contains_sub(ms[0], wanted) {
        Some(ms[0])
    } else {
        find_model_spec(ms.subrange(1, ms.len() as int), wanted)
    }
}

/// Find the first model matching a fragment.
#[verifier::loop_isolation(false)]
pub fn find_model(models: &Vec<String>, wanted: &str) -> (r: Option<String>)
    ensures
        match r {
            Some(m) => find_model_spec(models.deep_view(), wanted@) == Some(m@),
            None => find_model_spec(models.deep_view(), wanted@) is None,
        },
{
    let ghost ms = models.deep_view();
    proof {
        assert(ms.subrange(0, ms.len() as int) =~= ms);
    }
    let mut i: usize = 0;
    while i < models.len()
        invariant
            0 <= i <= models@.len(),
            ms.len() == models@.len(),
            forall|q: int| 0 <= q < ms.len() ==> ms[q] == (#[trigger] models@[q])@,
            find_model_spec(ms, wanted@) == find_model_spec(
                ms.subrange(i as int, ms.len() as int),
                wanted@,
            ),
        decreases models@.len() - i,
    {
        proof {
            let t = ms.subrange(i as int, ms.len() as int);
            assert(t[0] == ms[i as int]);
            assert(t.subrange(1, t.len() as int) =~= ms.subrange(i + 1, ms.len() as int));
        }
        if crate::text::contains_str(models[i].as_str(), wanted) {
            return Some(models[i].clone());
        }
        i = i + 1;
    }
    proof {
        assert(ms.subrange(i as int, ms.len() as int).len() == 0);
    }
    None
}

/// One line of the model listing; an arrow marks the current model.
pub open spec fn model_line_spec(m: Seq<char>, current: Seq<char>) -> Seq<char> {
    (if m == current {
        "-> "@
    } else {
        "   "@
    }).add(m).push('\n')
}

/// The model listing's lines.
pub open spec fn model_lines(ms: Seq<Seq<char>>, current: Seq<char>) -> Seq<char>
    decreases ms.len(),
{
    if ms.len() == 0 {
        Seq::empty()
    } else {
        model_line_spec(ms[0], current).add(
            model_lines(ms.subrange(1, ms.len() as int), current),
        )
    }
}

proof fn lemma_model_lines_snoc(ms: Seq<Seq<char>>, current: Seq<char>, x: Seq<char>)
    ensures
        model_lines(ms.push(x), current) == model_lines(ms, current).add(
            model_line_spec(x, current),
        ),
    decreases ms.len(),
{
    let mp = ms.push(x);
    if ms.len() == 0 {
        assert(mp[0] == x);
        assert(mp.subrange(1, 1) =~= Seq::<Seq<char>>::empty());
        assert(model_lines(mp.subrange(1, 1), current) == Seq::<char>::empty());
        assert(model_line_spec(x, current).add(Seq::<char>::empty()) =~= model_line_spec(
            x,
            current,
        ));
        assert(model_lines(ms, current).add(model_line_spec(x, current)) =~= model_line_spec(
            x,
            current,
        ));
    } else {
        assert(mp[0] == ms[0]);
        assert(mp.subrange(1, mp.len() as int) =~= ms.subrange(1, ms.len() as int).push(x));
        lemma_model_lines_snoc(ms.subrange(1, ms.len() as int), current, x);
        assert(model_line_spec(ms[0], current).add(
            model_lines(ms.subrange(1, ms.len() as int), current).add(
                model_line_spec(x, current),
            ),
        ) =~= model_lines(ms, current).add(model_line_spec(x, current)));
    }
}

/// The whole model listing shown to the user.
pub open spec fn models_list_spec(ms: Seq<Seq<char>>, current: Seq<char>) -> Seq<char> {
    "Available models:\n"@.add(model_lines(ms, current)).add("\nUse /model <name> to switch"@)
}

/// Render the model listing.
#[verifier::loop_isolation(false)]
pub fn models_list_text(models: &Vec<String>, current: &str) -> (r: String)
    ensures
        r@ == models_list_spec(models.deep_view(), current@),
{
    let ghost ms = models.deep_view();
    let mut out = String::from_str("Available models:\n");
    let mut i: usize = 0;
    proof {
        assert(ms.subrange(0, 0) =~= Seq::<Seq<char>>::empty());
        assert(out@ =~= "Available models:\n"@.add(model_lines(ms.subrange(0, 0), current@)));
    }
    while i < models.len()
        invariant
            0 <= i <= models@.len(),
            ms.len() == models@.len(),
            forall|q: int| 0 <= q < ms.len() ==> ms[q] == (#[trigger] models@[q])@,
            out@ == "Available models:\n"@.add(model_lines(ms.subrange(0, i as int), current@)),
        decreases models@.len() - i,
    {
        if crate::text::str_eq(models[i].as_str(), current) {
            out.append("-> ");
        } else {
            out.append("   ");
        }
        out.append(models[i].as_str());
        crate::text::push_char(&mut out, '\n');
        proof {
            assert(ms.subrange(0, i + 1) =~= ms.subrange(0, i as int).push(ms[i as int]));
            lemma_model_lines_snoc(ms.subrange(0, i as int), current@, ms[i as int]);
            assert(out@ =~= "Available models:\n"@.add(
                model_lines(ms.subrange(0, i + 1), current@),
            ));
        }
        i = i + 1;
    }
    out.append("\nUse /model <name> to switch");
    proof {
        assert(ms.subrange(0, ms.len() as int) =~= ms);
        assert(out@ =~= models_list_spec(ms, current@));
    }
    out
}

impl App {
    /// Fold a models listing back into the conversation. With a wanted name
    /// the first match is announced and returned for the caller to switch
    /// to; without one the listing is shown. A fetch failure is reported.
    pub fn apply_models_response(
        &mut self,
        current_model: &str,
        result: Result<Vec<String>, String>,
        model_arg: Option<String>,
    ) -> (r: Option<String>)
        ensures
            result matches Err(e) ==> (final(self)@ == (AppV {
                messages: old(self)@.messages.push(
                    MessageV {
                        role: MessageRole::System,
                        content: "Failed to fetch models: "@.add(e@),
                    },
                ),
                ..old(self)@
            }) && r is None),
            result matches Ok(ms) ==> (match model_arg {
                Some(w) => (match find_model_spec(ms.deep_view(), w@) {
                    Some(m) => final(self)@ == (AppV {
                        messages: old(self)@.messages.push(
                            MessageV {
                                role: MessageRole::System,
                                content: "Switched to: "@.add(m),
                            },
                        ),
                        ..old(self)@
                    }) && (r matches Some(out) && out@ == m),
                    None => final(self)@ == (AppV {
                        messages: old(self)@.messages.push(
                            MessageV {
                                role: MessageRole::System,
                                content: "Model '"@.add(w@).add("' not found"@),
                            },
                        ),
                        ..old(self)@
                    }) && r is None,
                }),
                None => final(self)@ == (AppV {
                    messages: old(self)@.messages.push(
                        MessageV {
                            role: MessageRole::System,
                            content: models_list_spec(ms.deep_view(), current_model@),
                        },
                    ),
                    ..old(self)@
                }) && r is None,
            }),
    {
        match result {
            Ok(models) => {
                match model_arg {
                    Some(wanted) => {
                        match find_model(&models, wanted.as_str()) {
                            Some(matched) => {
                                let mut msg = String::from_str("Switched to: ");
                                msg.append(matched.as_str());
                                self.add_message(Message::system(msg.as_str()));
                                Some(matched)
                            },
                            None => {
                                let mut msg = String::from_str("Model '");
                                msg.append(wanted.as_str());
                                msg.append("' not found");
                                proof {
                                    assert(msg@ =~= "Model '"@.add(wanted@).add("' not found"@));
                                }
                                self.add_message(Message::system(msg.as_str()));
                                None
                            },
                        }
                    },
                    None => {
                        let listing = models_list_text(&models, current_model);
                        self.add_message(Message::system(listing.as_str()));
                        None
                    },
                }
            },
            Err(e) => {
                let mut msg = String::from_str("Failed to fetch models: ");
                msg.append(e.as_str());
                self.add_message(Message::system(msg.as_str()));
                None
            },
        }
    }
}

} // verus!
