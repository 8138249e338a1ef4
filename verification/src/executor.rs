//! Around command execution: the result record, the two safety screens, and
//! the texts derived from a result. Spawning processes is the caller's
//! business; everything here is pure.

use vstd::prelude::*;

verus! {

use crate::text::{
    is_space,
    contains_sub,
    contains_str,
    trim_spec,
    trim_str,
    dec_str,
    dec_int,
    i64_to_string,
    u64_to_string,
    str_eq,
};
use crate::tool_call::ToolCall;

/// What running one tool produced. `success` always mirrors the exit code.
#[derive(Debug, Clone)]
pub struct ExecutionResult {
    pub stdout: String,
    pub stderr: String,
    pub exit_code: i32,
    pub success: bool,
    pub duration_ms: u64,
}

impl ExecutionResult {
    /// Package a finished command's streams and exit code.
    pub fn new(stdout: String, stderr: String, exit_code: i32, duration_ms: u64) -> (r:
        ExecutionResult)
        ensures
            r.stdout@ == stdout@,
            r.stderr@ == stderr@,
            r.exit_code == exit_code,
            r.success == (exit_code == 0),
            r.duration_ms == duration_ms,
    {
        ExecutionResult { stdout, stderr, exit_code, success: exit_code == 0, duration_ms }
    }

    /// The synthesized result of a cancelled command.
    pub fn cancelled() -> (r: ExecutionResult)
        ensures
            r.stdout@ == Seq::<char>::empty(),
            r.stderr@ == "cancelled"@,
            r.exit_code == -1,
            !r.success,
            r.duration_ms == 0,
    {
        ExecutionResult {
            stdout: String::new(),
            stderr: String::from_str("cancelled"),
            exit_code: -1,
            success: false,
            duration_ms: 0,
        }
    }
}

/// What the conversation is shown of a result: stdout alone on success,
/// both streams on failure.
pub open spec fn combined_output_spec(
    stdout: Seq<char>,
    stderr: Seq<char>,
    success: bool,
) -> Seq<char> {
    if success {
        stdout
    } else {
        stdout.push('\n').add(stderr)
    }
}

/// Combine a result's streams as `combined_output_spec` says.
pub fn combined_output(res: &ExecutionResult) -> (r: String)
    ensures
        r@ == combined_output_spec(res.stdout@, res.stderr@, res.success),
{
    if res.success {
        res.stdout.clone()
    } else {
        let mut out = res.stdout.clone();
        crate::text::push_char(&mut out, '\n');
        out.append(res.stderr.as_str());
        out
    }
}

/// A configurable screen for shell commands that look destructive.
#[derive(Debug)]
pub struct DangerousCommandDetector {
    pub patterns: Vec<String>,
}

/// Some configured pattern occurs in the command.
pub open spec fn spec_dangerous(patterns: Seq<Seq<char>>, cmd: Seq<char>) -> bool {
    exists|p: int| 0 <= p < patterns.len() && contains_sub(cmd, #[trigger] patterns[p])
}

impl DangerousCommandDetector {
    /// Carry a copy of the configured patterns.
    pub fn new(patterns: &Vec<String>) -> (r: DangerousCommandDetector)
        ensures
            r.patterns.deep_view() == patterns.deep_view(),
    {
        let mut own: Vec<String> = Vec::new();
        let mut i: usize = 0;
        while i < patterns.len()
            invariant
                0 <= i <= patterns@.len(),
                own@.len() == i,
                forall|q: int| 0 <= q < i ==> (#[trigger] own@[q])@ == patterns@[q]@,
            decreases patterns@.len() - i,
        {
            own.push(patterns[i].clone());
            i = i + 1;
        }
        let r = DangerousCommandDetector { patterns: own };
        proof {
            assert(r.patterns.deep_view() =~= patterns.deep_view());
        }
        r
    }

    /// Does the command match any configured destructive pattern? A match
    /// only flags the command for a warning; it does not block it.
    #[verifier::loop_isolation(false)]
    pub fn is_dangerous(&self, cmd: &str) -> (r: bool)
        ensures
            r == spec_dangerous(self.patterns.deep_view(), cmd@),
    {
        let ghost pats = self.patterns.deep_view();
        let mut i: usize = 0;
        while i < self.patterns.len()
            invariant
                0 <= i <= self.patterns@.len(),
                pats.len() == self.patterns@.len(),
                forall|p: int| 0 <= p < i ==> !contains_sub(cmd@, #[trigger] pats[p]),
            decreases self.patterns@.len() - i,
        {
            proof {
                assert(self.patterns@[i as int]@ == pats[i as int]);
            }
            if contains_str(cmd, self.patterns[i].as_str()) {
                proof {
                    assert(contains_sub(cmd@, pats[i as int]));
                }
                return true;
            }
            i = i + 1;
        }
        false
    }
}

/// The first whitespace-delimited word of a string (the whole string when it
/// has no whitespace).
pub open spec fn first_word(s: Seq<char>) -> Seq<char>
    decreases s.len(),
{
    if s.len() == 0 {
        s
    } else if is_space(s[0]) {
        Seq::empty()
    } else {
        seq![s[0]].add(first_word(s.subrange(1, s.len() as int)))
    }
}

proof fn lemma_first_word_is_prefix(s: Seq<char>, e: int)
    requires
        0 <= e <= s.len(),
        forall|q: int| 0 <= q < e ==> !is_space(s[q]),
        e < s.len() ==> is_space(s[e]),
    ensures
        first_word(s) == s.subrange(0, e),
    decreases e,
{
    if s.len() == 0 {
        assert(s.subrange(0, 0) =~= s);
    } else if e == 0 {
        assert(first_word(s) =~= s.subrange(0, 0));
    } else {
        let t = s.subrange(1, s.len() as int);
        lemma_first_word_is_prefix(t, e - 1);
        assert(t.subrange(0, e - 1) =~= s.subrange(1, e));
        assert(seq![s[0]].add(s.subrange(1, e)) =~= s.subrange(0, e));
    }
}

/// Copy out the first word of a string.
pub fn first_word_of(s: &str) -> (r: String)
    ensures
        r@ == first_word(s@),
{
    let n = s.unicode_len();
    let mut e: usize = 0;
    while e < n && !crate::text::is_space_char(s.get_char(e))
        invariant
            0 <= e <= n,
            n == s@.len(),
            forall|q: int| 0 <= q < e ==> !is_space(s@[q]),
        decreases n - e,
    {
        e = e + 1;
    }
    proof {
        lemma_first_word_is_prefix(s@, e as int);
    }
    crate::text::substring_of(s, 0, e)
}

/// A command needs a controlling terminal: its first word (after trimming)
/// is a known full-screen or prompt-driven program; `ssh` counts unless it
/// passes ` -T`, and `python`/`python3` count unless they pass ` -c`.
pub open spec fn is_interactive_spec(cmd: Seq<char>) -> bool {
    let t = trim_spec(cmd);
    let w = first_word(t);
    ||| w == "vim"@
    ||| w == "vi"@
    ||| w == "nano"@
    ||| w == "emacs"@
    ||| w == "top"@
    ||| w == "htop"@
    ||| w == "less"@
    ||| w == "more"@
    ||| (w == "ssh"@ && !contains_sub(t, " -T"@))
    ||| ((w == "python"@ || w == "python3"@) && !contains_sub(t, " -c"@))
}

/// The suggestion offered for each interactive program, if one exists.
pub open spec fn suggestion_spec(cmd: Seq<char>) -> Option<Seq<char>> {
    let w = first_word(trim_spec(cmd));
    if w == "vim"@ || w == "vi"@ || w == "nano"@ || w == "emacs"@ {
        Some("Use `cat` to read the file, or `sed -i`/`cat > file` to edit it"@)
    } else if w == "top"@ || w == "htop"@ {
        Some("Use `ps aux --sort=-%cpu | head -20` for a snapshot"@)
    } else if w == "less"@ || w == "more"@ {
        Some("Use `cat` or `head`/`tail` to print the content"@)
    } else if w == "ssh"@ {
        Some("Add `-T` and a command, e.g. `ssh -T host command`"@)
    } else if w == "python"@ || w == "python3"@ {
        Some("Pass the code inline, e.g. `python3 -c 'print(1)'`"@)
    } else {
        None
    }
}

proof fn lemma_interactive_words_distinct()
    ensures
        "ssh"@ != "vim"@ && "ssh"@ != "vi"@ && "ssh"@ != "nano"@ && "ssh"@ != "emacs"@ && "ssh"@
            != "top"@ && "ssh"@ != "htop"@ && "ssh"@ != "less"@ && "ssh"@ != "more"@ && "ssh"@
            != "python"@ && "ssh"@ != "python3"@,
        "python"@ != "vim"@ && "python"@ != "vi"@ && "python"@ != "nano"@ && "python"@
            != "emacs"@ && "python"@ != "top"@ && "python"@ != "htop"@ && "python"@ != "less"@
            && "python"@ != "more"@ && "python"@ != "python3"@,
        "python3"@ != "vim"@ && "python3"@ != "vi"@ && "python3"@ != "nano"@ && "python3"@
            != "emacs"@ && "python3"@ != "top"@ && "python3"@ != "htop"@ && "python3"@
            != "less"@ && "python3"@ != "more"@,
{
    reveal_strlit("vim");
    reveal_strlit("vi");
    reveal_strlit("nano");
    reveal_strlit("emacs");
    reveal_strlit("top");
    reveal_strlit("htop");
    reveal_strlit("less");
    reveal_strlit("more");
    reveal_strlit("ssh");
    reveal_strlit("python");
    reveal_strlit("python3");
    assert("vim"@.len() == 3);
    assert("vi"@.len() == 2);
    assert("nano"@.len() == 4);
    assert("emacs"@.len() == 5);
    assert("top"@.len() == 3);
    assert("htop"@.len() == 4);
    assert("less"@.len() == 4);
    assert("more"@.len() == 4);
    assert("ssh"@.len() == 3);
    assert("python"@.len() == 6);
    assert("python3"@.len() == 7);
    assert("ssh"@[0] != "vim"@[0]);
    assert("ssh"@[0] != "top"@[0]);
}

/// The screen for commands that would need a controlling terminal.
#[derive(Debug)]
pub struct InteractiveCommandDetector {}

impl InteractiveCommandDetector {
    pub fn new() -> (r: InteractiveCommandDetector) {
        InteractiveCommandDetector {  }
    }

    /// Would this command need a terminal of its own?
    pub fn is_interactive(&self, cmd: &str) -> (r: bool)
        ensures
            r == is_interactive_spec(cmd@),
    {
        let t = trim_str(cmd);
        let w = first_word_of(t.as_str());
        let ws = w.as_str();
        proof {
            lemma_interactive_words_distinct();
        }
        if str_eq(ws, "vim") || str_eq(ws, "vi") || str_eq(ws, "nano") || str_eq(ws, "emacs")
            || str_eq(ws, "top") || str_eq(ws, "htop") || str_eq(ws, "less") || str_eq(
            ws,
            "more",
        ) {
            true
        } else if str_eq(ws, "ssh") {
            !contains_str(t.as_str(), " -T")
        } else if str_eq(ws, "python") || str_eq(ws, "python3") {
            !contains_str(t.as_str(), " -c")
        } else {
            false
        }
    }

    /// A non-interactive alternative, where one is known.
    pub fn suggestion(&self, cmd: &str) -> (r: Option<&'static str>)
        ensures
            match r {
                Some(s) => suggestion_spec(cmd@) == Some(s@),
                None => suggestion_spec(cmd@) is None,
            },
    {
        let t = trim_str(cmd);
        let w = first_word_of(t.as_str());
        let ws = w.as_str();
        if str_eq(ws, "vim") || str_eq(ws, "vi") || str_eq(ws, "nano") || str_eq(ws, "emacs") {
            Some("Use `cat` to read the file, or `sed -i`/`cat > file` to edit it")
        } else if str_eq(ws, "top") || str_eq(ws, "htop") {
            Some("Use `ps aux --sort=-%cpu | head -20` for a snapshot")
        } else if str_eq(ws, "less") || str_eq(ws, "more") {
            Some("Use `cat` or `head`/`tail` to print the content")
        } else if str_eq(ws, "ssh") {
            Some("Add `-T` and a command, e.g. `ssh -T host command`")
        } else if str_eq(ws, "python") || str_eq(ws, "python3") {
            Some("Pass the code inline, e.g. `python3 -c 'print(1)'`")
        } else {
            None
        }
    }
}

/// What safe mode prints instead of executing.
pub open spec fn safe_desc_spec(tc: crate::tool_call::ToolCallV) -> Seq<char> {
    if tc.tool == "run_cmd"@ {
        "Would run: "@.add(tc.command)
    } else if tc.tool == "run_python"@ {
        "Would run Python:\n"@.add(tc.code)
    } else if tc.tool == "read_file"@ {
        "Would read: "@.add(tc.path)
    } else if tc.tool == "write_file"@ {
        "Would write "@.add(dec_str(tc.content.len())).add(" characters to: "@).add(tc.path)
    } else if tc.tool == "search"@ {
        "Would search '"@.add(tc.pattern).add("' in "@).add(tc.directory)
    } else if tc.tool == "mcp"@ {
        "Would call MCP: "@.add(tc.server).push('/').add(tc.name)
    } else {
        "Would execute tool: "@.add(tc.tool)
    }
}

/// Describe what a call would do, for the safe-mode notice.
pub fn safe_mode_desc(tc: &ToolCall) -> (r: String)
    ensures
        r@ == safe_desc_spec(tc@),
{
    if tc.is_run_cmd() {
        let mut out = String::from_str("Would run: ");
        out.append(tc.command.as_str());
        out
    } else if str_eq(tc.tool.as_str(), "run_python") {
        let mut out = String::from_str("Would run Python:\n");
        out.append(tc.code.as_str());
        out
    } else if str_eq(tc.tool.as_str(), "read_file") {
        let mut out = String::from_str("Would read: ");
        out.append(tc.path.as_str());
        out
    } else if str_eq(tc.tool.as_str(), "write_file") {
        let mut out = String::from_str("Would write ");
        let n = tc.content.as_str().unicode_len();
        let num = u64_to_string(n as u64);
        out.append(num.as_str());
        out.append(" characters to: ");
        out.append(tc.path.as_str());
        proof {
            assert(out@ =~= safe_desc_spec(tc@));
        }
        out
    } else if str_eq(tc.tool.as_str(), "search") {
        let mut out = String::from_str("Would search '");
        out.append(tc.pattern.as_str());
        out.append("' in ");
        out.append(tc.directory.as_str());
        proof {
            assert(out@ =~= safe_desc_spec(tc@));
        }
        out
    } else if tc.is_mcp() {
        let mut out = String::from_str("Would call MCP: ");
        out.append(tc.server.as_str());
        crate::text::push_char(&mut out, '/');
        out.append(tc.name.as_str());
        proof {
            assert(out@ =~= safe_desc_spec(tc@));
        }
        out
    } else {
        let mut out = String::from_str("Would execute tool: ");
        out.append(tc.tool.as_str());
        out
    }
}

/// How a call is named in an observation: the tool, then its main argument.
pub open spec fn tool_desc_spec(tc: crate::tool_call::ToolCallV) -> Seq<char> {
    tc.tool.add(": "@).add(
        if tc.tool == "run_cmd"@ {
            tc.command
        } else {
            tc.path
        },
    )
}

/// Name a call for an observation.
pub fn tool_desc(tc: &ToolCall) -> (r: String)
    ensures
        r@ == tool_desc_spec(tc@),
{
    let mut out = tc.tool.clone();
    out.append(": ");
    if tc.is_run_cmd() {
        out.append(tc.command.as_str());
    } else {
        out.append(tc.path.as_str());
    }
    proof {
        assert(out@ =~= tool_desc_spec(tc@));
    }
    out
}

/// The observation fed back to the model after an execution.
pub open spec fn observation_spec(desc: Seq<char>, exit_code: int, output: Seq<char>) -> Seq<
    char,
> {
    "Tool: "@.add(desc).add("\nExit code: "@).add(dec_int(exit_code)).add("\nOutput:\n"@).add(
        output,
    )
}

/// Render the observation for a tool result.
pub fn observation(desc: &str, exit_code: i32, output: &str) -> (r: String)
    ensures
        r@ == observation_spec(desc@, exit_code as int, output@),
{
    let mut out = String::from_str("Tool: ");
    out.append(desc);
    out.append("\nExit code: ");
    let num = i64_to_string(exit_code as i64);
    out.append(num.as_str());
    out.append("\nOutput:\n");
    out.append(output);
    proof {
        assert(out@ =~= observation_spec(desc@, exit_code as int, output@));
    }
    out
}

/// The observation fed back to the model after an MCP call.
pub open spec fn mcp_observation_spec(
    server: Seq<char>,
    name: Seq<char>,
    output: Seq<char>,
) -> Seq<char> {
    "Tool: mcp/"@.add(server).push('/').add(name).add("\nOutput:\n"@).add(output)
}

/// Render the observation for an MCP result.
pub fn mcp_observation(server: &str, name: &str, output: &str) -> (r: String)
    ensures
        r@ == mcp_observation_spec(server@, name@, output@),
{
    let mut out = String::from_str("Tool: mcp/");
    out.append(server);
    crate::text::push_char(&mut out, '/');
    out.append(name);
    out.append("\nOutput:\n");
    out.append(output);
    proof {
        assert(out@ =~= mcp_observation_spec(server@, name@, output@));
    }
    out
}

} // verus!
