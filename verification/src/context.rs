//! The system prompt and the live system-context block. The caller gathers
//! the raw facts (time, user, shell, directory, OS release text); this
//! module turns them into the exact prompt text.

use vstd::prelude::*;

verus! {

use crate::text::starts_with;

/// The static part of the system prompt: how the model is asked to emit
/// tool calls.
pub const SYSTEM_PROMPT: &'static str = "You are sabi, an AI assistant living in the user's terminal.\n\nWhen an action is needed, reply with exactly one JSON object, nothing else:\n1. Run a shell command:\n   {\"tool\": \"run_cmd\", \"command\": \"<command>\"}\n2. Read a file:\n   {\"tool\": \"read_file\", \"path\": \"<path>\"}\n3. Write a file:\n   {\"tool\": \"write_file\", \"path\": \"<path>\", \"content\": \"<content>\"}\n4. Search files:\n   {\"tool\": \"search\", \"pattern\": \"<pattern>\", \"directory\": \"<directory>\"}\n\nAfter a tool runs you will see its output as a message; analyse it and\nanswer in plain text, or call another tool. When no action is needed,\nanswer in plain text.";

/// The extra section offered when a Python interpreter is available.
pub const PYTHON_PROMPT_SECTION: &'static str = "\n\n5. Run Python code:\n   {\"tool\": \"run_python\", \"code\": \"<python code>\"}";

/// The system-context block, from the caller's raw facts.
pub open spec fn system_context_spec(
    time: Seq<char>,
    user: Seq<char>,
    shell: Seq<char>,
    cwd: Seq<char>,
    os_name: Seq<char>,
    os_version: Seq<char>,
) -> Seq<char> {
    "SYSTEM CONTEXT:\n- Current time: "@.add(time).add("\n- User: "@).add(user).add(
        "\n- Shell: "@,
    ).add(shell).add("\n- Working directory: "@).add(cwd).add("\n- OS: "@).add(os_name).push(
        ' ',
    ).add(os_version)
}

/// Render the system-context block.
pub fn system_context(
    time: &str,
    user: &str,
    shell: &str,
    cwd: &str,
    os_name: &str,
    os_version: &str,
) -> (r: String)
    ensures
        r@ == system_context_spec(time@, user@, shell@, cwd@, os_name@, os_version@),
{
    let mut out = String::from_str("SYSTEM CONTEXT:\n- Current time: ");
    out.append(time);
    out.append("\n- User: ");
    out.append(user);
    out.append("\n- Shell: ");
    out.append(shell);
    out.append("\n- Working directory: ");
    out.append(cwd);
    out.append("\n- OS: ");
    out.append(os_name);
    crate::text::push_char(&mut out, ' ');
    out.append(os_version);
    proof {
        assert(out@ =~= system_context_spec(time@, user@, shell@, cwd@, os_name@, os_version@));
    }
    out
}

/// The whole system prompt: the static part, the Python section when a
/// Python interpreter was found, then the context block and the MCP tool
/// catalog.
pub open spec fn system_prompt_spec(
    python_available: bool,
    context: Seq<char>,
    mcp_tools: Seq<char>,
) -> Seq<char> {
    SYSTEM_PROMPT@.add(
        if python_available {
            PYTHON_PROMPT_SECTION@
        } else {
            Seq::empty()
        },
    ).add("\n\n"@).add(context).add(mcp_tools)
}

/// Assemble the system prompt.
pub fn build_system_prompt(python_available: bool, context: &str, mcp_tools: &str) -> (r: String)
    ensures
        r@ == system_prompt_spec(python_available, context@, mcp_tools@),
{
    let mut out = String::from_str(SYSTEM_PROMPT);
    if python_available {
        out.append(PYTHON_PROMPT_SECTION);
    }
    out.append("\n\n");
    out.append(context);
    out.append(mcp_tools);
    proof {
        assert(out@ =~= system_prompt_spec(python_available, context@, mcp_tools@));
    }
    out
}

/// The index of the first newline, or the length when there is none.
pub open spec fn nl_idx(s: Seq<char>) -> int
    decreases s.len(),
{
    if s.len() == 0 {
        0
    } else if s[0] == '\n' {
        0
    } else {
        1 + nl_idx(s.subrange(1, s.len() as int))
    }
}

proof fn lemma_nl_idx_is(s: Seq<char>, i: int)
    requires
        0 <= i <= s.len(),
        forall|q: int| 0 <= q < i ==> s[q] != '\n',
        i < s.len() ==> s[i] == '\n',
    ensures
        nl_idx(s) == i,
    decreases i,
{
    if s.len() == 0 {
    } else if i == 0 {
    } else {
        let t = s.subrange(1, s.len() as int);
        lemma_nl_idx_is(t, i - 1);
    }
}

/// Strip leading double quotes.
pub open spec fn drop_leading_quotes(s: Seq<char>) -> Seq<char>
    decreases s.len(),
{
    if s.len() > 0 && s[0] == '"' {
        drop_leading_quotes(s.subrange(1, s.len() as int))
    } else {
        s
    }
}

/// Strip trailing double quotes.
pub open spec fn drop_trailing_quotes(s: Seq<char>) -> Seq<char>
    decreases s.len(),
{
    if s.len() > 0 && s[s.len() - 1] == '"' {
        drop_trailing_quotes(s.subrange(0, s.len() - 1))
    } else {
        s
    }
}

/// What `str::trim_matches('"')` leaves.
pub open spec fn trim_quotes(s: Seq<char>) -> Seq<char> {
    drop_trailing_quotes(drop_leading_quotes(s))
}

proof fn lemma_drop_leading_quotes_is(s: Seq<char>, a: int)
    requires
        0 <= a <= s.len(),
        forall|q: int| 0 <= q < a ==> s[q] == '"',
        a < s.len() ==> s[a] != '"',
    ensures
        drop_leading_quotes(s) == s.subrange(a, s.len() as int),
    decreases a,
{
    if a == 0 {
        if s.len() > 0 && s[0] == '"' {
            assert(false);
        }
        assert(s.subrange(0, s.len() as int) =~= s);
    } else {
        let t = s.subrange(1, s.len() as int);
        lemma_drop_leading_quotes_is(t, a - 1);
        assert(t.subrange(a - 1, t.len() as int) =~= s.subrange(a, s.len() as int));
    }
}

proof fn lemma_drop_trailing_quotes_is(s: Seq<char>, b: int)
    requires
        0 <= b <= s.len(),
        forall|q: int| b <= q < s.len() ==> s[q] == '"',
        b > 0 ==> s[b - 1] != '"',
    ensures
        drop_trailing_quotes(s) == s.subrange(0, b),
    decreases s.len() - b,
{
    if b == s.len() {
        if s.len() > 0 && s[s.len() - 1] == '"' {
            assert(false);
        }
        assert(s.subrange(0, s.len() as int) =~= s);
    } else {
        let t = s.subrange(0, s.len() - 1);
        assert(s[s.len() - 1] == '"');
        lemma_drop_trailing_quotes_is(t, b);
        assert(t.subrange(0, b) =~= s.subrange(0, b));
    }
}

/// Strip surrounding double quotes.
pub fn trim_quotes_str(s: &str) -> (r: String)
    ensures
        r@ == trim_quotes(s@),
{
    let n = s.unicode_len();
    let mut a: usize = 0;
    while a < n && s.get_char(a) == '"'
        invariant
            0 <= a <= n,
            n == s@.len(),
            forall|q: int| 0 <= q < a ==> s@[q] == '"',
        decreases n - a,
    {
        a = a + 1;
    }
    let mut b: usize = n;
    while b > a && s.get_char(b - 1) == '"'
        invariant
            a <= b <= n,
            n == s@.len(),
            forall|q: int| 0 <= q < a ==> s@[q] == '"',
            a < n ==> s@[a as int] != '"',
            forall|q: int| b <= q < n ==> s@[q] == '"',
        decreases b,
    {
        b = b - 1;
    }
    proof {
        lemma_drop_leading_quotes_is(s@, a as int);
        let t = s@.subrange(a as int, n as int);
        if b > a {
            assert(t[b - a - 1] != '"');
        }
        assert(forall|q: int| b - a <= q < t.len() ==> #[trigger] t[q] == '"');
        lemma_drop_trailing_quotes_is(t, b - a);
        assert(t.subrange(0, b - a) =~= s@.subrange(a as int, b as int));
    }
    crate::text::substring_of(s, a, b)
}

/// The OS name carried by an os-release file: the value of the first
/// `PRETTY_NAME=` line, with surrounding quotes stripped.
pub open spec fn pretty_name_spec(s: Seq<char>) -> Option<Seq<char>>
    decreases s.len(),
{
    let i = nl_idx(s);
    let line = if 0 <= i <= s.len() {
        s.subrange(0, i)
    } else {
        s
    };
    if starts_with(line, "PRETTY_NAME="@) {
        Some(trim_quotes(line.subrange(12, line.len() as int)))
    } else if 0 <= i && i + 1 <= s.len() {
        pretty_name_spec(s.subrange(i + 1, s.len() as int))
    } else {
        None
    }
}

/// Find the `PRETTY_NAME` value in an os-release file's text.
pub fn parse_os_release(content: &str) -> (r: Option<String>)
    ensures
        match r {
            Some(v) => pretty_name_spec(content@) == Some(v@),
            None => pretty_name_spec(content@) is None,
        },
    decreases content@.len(),
{
    let n = content.unicode_len();
    let mut i: usize = 0;
    while i < n && content.get_char(i) != '\n'
        invariant
            0 <= i <= n,
            n == content@.len(),
            forall|q: int| 0 <= q < i ==> content@[q] != '\n',
        decreases n - i,
    {
        i = i + 1;
    }
    proof {
        lemma_nl_idx_is(content@, i as int);
    }
    let line = crate::text::substring_of(content, 0, i);
    if crate::text::starts_with_str(line.as_str(), "PRETTY_NAME=") {
        proof {
            reveal_strlit("PRETTY_NAME=");
            assert("PRETTY_NAME="@.len() == 12);
        }
        let value = crate::text::substring_of(line.as_str(), 12, i);
        Some(trim_quotes_str(value.as_str()))
    } else if i < n {
        let rest = crate::text::substring_of(content, i + 1, n);
        parse_os_release(rest.as_str())
    } else {
        None
    }
}

} // verus!
