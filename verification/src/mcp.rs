//! The MCP (Model Context Protocol) subclient's core: the configuration
//! table, JSON-RPC framing over the library's own JSON values, the
//! per-server request counter, the retry rule, and the tool-catalog decoding
//! and prompt. Processes and sockets are the caller's business: it writes
//! the lines this module builds and hands back the lines it reads.

use vstd::prelude::*;

verus! {

use crate::json::{Json, JsonModel, json_view, wf_json, ser, obj_get, obj_get_json, clone_json};
use crate::text::{dec_str, starts_with, starts_with_str, str_eq, u64_to_string};

/// The JSON-RPC protocol version every request names.
pub const JSONRPC_VERSION: &'static str = "2.0";

/// The MCP protocol version named in the initialize handshake.
pub const MCP_PROTOCOL_VERSION: &'static str = "2024-11-05";

/// Everything that can go wrong in the subclient.
#[derive(Debug)]
pub enum McpError {
    ConfigNotFound,
    ConfigParse(String),
    Io(String),
    ServerNotFound(String),
    ServerError(String),
    Json(String),
    Timeout(u64),
    ServerExists(String),
}

/// The mathematical shape of an error.
pub enum McpErrorV {
    ConfigNotFound,
    ConfigParse(Seq<char>),
    Io(Seq<char>),
    ServerNotFound(Seq<char>),
    ServerError(Seq<char>),
    Json(Seq<char>),
    Timeout(u64),
    ServerExists(Seq<char>),
}

impl View for McpError {
    type V = McpErrorV;

    open spec fn view(&self) -> McpErrorV {
        match self {
            McpError::ConfigNotFound => McpErrorV::ConfigNotFound,
            McpError::ConfigParse(s) => McpErrorV::ConfigParse(s@),
            McpError::Io(s) => McpErrorV::Io(s@),
            McpError::ServerNotFound(s) => McpErrorV::ServerNotFound(s@),
            McpError::ServerError(s) => McpErrorV::ServerError(s@),
            McpError::Json(s) => McpErrorV::Json(s@),
            McpError::Timeout(n) => McpErrorV::Timeout(*n),
            McpError::ServerExists(s) => McpErrorV::ServerExists(s@),
        }
    }
}

/// The display line for each error.
pub open spec fn mcp_error_message_spec(e: McpErrorV) -> Seq<char> {
    match e {
        McpErrorV::ConfigNotFound => "Config not found"@,
        McpErrorV::ConfigParse(s) => "Config parse error: "@.add(s),
        McpErrorV::Io(s) => "IO error: "@.add(s),
        McpErrorV::ServerNotFound(s) => "Server not found: "@.add(s),
        McpErrorV::ServerError(s) => "Server error: "@.add(s),
        McpErrorV::Json(s) => "JSON error: "@.add(s),
        McpErrorV::Timeout(n) => "Timeout after "@.add(dec_str(n as nat)).add(" seconds"@),
        McpErrorV::ServerExists(s) => "Server already exists: "@.add(s),
    }
}

impl McpError {
    /// Render the error for display.
    pub fn message(&self) -> (r: String)
        ensures
            r@ == mcp_error_message_spec(self@),
    {
        match self {
            McpError::ConfigNotFound => String::from_str("Config not found"),
            McpError::ConfigParse(s) => {
                let mut out = String::from_str("Config parse error: ");
                out.append(s.as_str());
                out
            },
            McpError::Io(s) => {
                let mut out = String::from_str("IO error: ");
                out.append(s.as_str());
                out
            },
            McpError::ServerNotFound(s) => {
                let mut out = String::from_str("Server not found: ");
                out.append(s.as_str());
                out
            },
            McpError::ServerError(s) => {
                let mut out = String::from_str("Server error: ");
                out.append(s.as_str());
                out
            },
            McpError::Json(s) => {
                let mut out = String::from_str("JSON error: ");
                out.append(s.as_str());
                out
            },
            McpError::Timeout(n) => {
                let mut out = String::from_str("Timeout after ");
                let num = u64_to_string(*n);
                out.append(num.as_str());
                out.append(" seconds");
                proof {
                    assert(out@ =~= mcp_error_message_spec(self@));
                }
                out
            },
            McpError::ServerExists(s) => {
                let mut out = String::from_str("Server already exists: ");
                out.append(s.as_str());
                out
            },
        }
    }
}

/// How a server is reached.
#[derive(Clone, Copy, Debug, PartialEq, Eq, Structural)]
pub enum McpTransport {
    Stdio,
    Http,
}

impl Default for McpTransport {
    /// Servers talk over stdio unless configured otherwise.
    fn default() -> (r: Self)
        ensures
            r == McpTransport::Stdio,
    {
        McpTransport::Stdio
    }
}

/// One server's configuration. Environment variables and headers are kept
/// as key-value lists with the first binding of a key authoritative.
#[derive(Debug, Clone)]
pub struct McpServerConfig {
    pub transport: McpTransport,
    pub command: String,
    pub args: Vec<String>,
    pub env: Vec<(String, String)>,
    /// Endpoint for the HTTP transport.
    pub url: Option<String>,
    /// Extra request headers for the HTTP transport.
    pub headers: Vec<(String, String)>,
}

/// The mathematical shape of a server configuration.
#[verifier::ext_equal]
pub struct McpServerConfigV {
    pub transport: McpTransport,
    pub command: Seq<char>,
    pub args: Seq<Seq<char>>,
    pub env: Seq<(Seq<char>, Seq<char>)>,
    pub url: Option<Seq<char>>,
    pub headers: Seq<(Seq<char>, Seq<char>)>,
}

/// View a key-value vector.
pub open spec fn kv_view(v: Seq<(String, String)>) -> Seq<(Seq<char>, Seq<char>)> {
    Seq::new(v.len(), |i: int| if 0 <= i < v.len() {
        (v[i].0@, v[i].1@)
    } else {
        (Seq::empty(), Seq::empty())
    })
}

impl View for McpServerConfig {
    type V = McpServerConfigV;

    open spec fn view(&self) -> McpServerConfigV {
        McpServerConfigV {
            transport: self.transport,
            command: self.command@,
            args: self.args.deep_view(),
            env: kv_view(self.env@),
            url: match self.url {
                Option::Some(u) => Some(u@),
                Option::None => None,
            },
            headers: kv_view(self.headers@),
        }
    }
}

/// The configured servers, keyed by unique name.
#[derive(Debug, Clone)]
pub struct McpConfig {
    pub servers: Vec<(String, McpServerConfig)>,
}

/// The mathematical shape of the whole configuration.
pub open spec fn servers_view(v: Seq<(String, McpServerConfig)>) -> Seq<
    (Seq<char>, McpServerConfigV),
> {
    Seq::new(v.len(), |i: int| if 0 <= i < v.len() {
        (v[i].0@, v[i].1@)
    } else {
        (Seq::empty(), McpServerConfigV {
            transport: McpTransport::Stdio,
            command: Seq::empty(),
            args: Seq::empty(),
            env: Seq::empty(),
            url: None,
            headers: Seq::empty(),
        })
    })
}

impl View for McpConfig {
    type V = Seq<(Seq<char>, McpServerConfigV)>;

    open spec fn view(&self) -> Seq<(Seq<char>, McpServerConfigV)> {
        servers_view(self.servers@)
    }
}

/// The first configuration stored under `name`, if any.
pub open spec fn cfg_get(
    s: Seq<(Seq<char>, McpServerConfigV)>,
    name: Seq<char>,
) -> Option<McpServerConfigV>
    decreases s.len(),
{
    if s.len() == 0 {
        None
    } else if s[0].0 == name {
        Some(s[0].1)
    } else {
        cfg_get(s.subrange(1, s.len() as int), name)
    }
}

impl Default for McpConfig {
    /// No servers configured.
    fn default() -> (r: McpConfig)
        ensures
            r@ == Seq::<(Seq<char>, McpServerConfigV)>::empty(),
    {
        let r = McpConfig { servers: Vec::new() };
        proof {
            assert(r@ =~= Seq::<(Seq<char>, McpServerConfigV)>::empty());
        }
        r
    }
}

/// Copy a key-value vector.
fn clone_kv(v: &Vec<(String, String)>) -> (r: Vec<(String, String)>)
    ensures
        kv_view(r@) == kv_view(v@),
{
    let mut out: Vec<(String, String)> = Vec::new();
    let mut i: usize = 0;
    while i < v.len()
        invariant
            0 <= i <= v@.len(),
            out@.len() == i,
            forall|q: int|
                0 <= q < i ==> (#[trigger] out@[q]).0@ == v@[q].0@ && out@[q].1@ == v@[q].1@,
        decreases v@.len() - i,
    {
        out.push((v[i].0.clone(), v[i].1.clone()));
        i = i + 1;
    }
    proof {
        assert(kv_view(out@) =~= kv_view(v@));
    }
    out
}

/// Copy one server configuration.
pub fn clone_server_config(c: &McpServerConfig) -> (r: McpServerConfig)
    ensures
        r@ == c@,
{
    let mut args: Vec<String> = Vec::new();
    let mut i: usize = 0;
    while i < c.args.len()
        invariant
            0 <= i <= c.args@.len(),
            args@.len() == i,
            forall|q: int| 0 <= q < i ==> (#[trigger] args@[q])@ == c.args@[q]@,
        decreases c.args@.len() - i,
    {
        args.push(c.args[i].clone());
        i = i + 1;
    }
    let url: Option<String> = match &c.url {
        Some(u) => Some(u.clone()),
        None => None,
    };
    let r = McpServerConfig {
        transport: c.transport,
        command: c.command.clone(),
        args,
        env: clone_kv(&c.env),
        url,
        headers: clone_kv(&c.headers),
    };
    proof {
        assert(r@.args =~= c@.args);
        assert(r@ == c@);
    }
    r
}

impl McpConfig {
    /// The index of the named server.
    fn find_server(&self, name: &str) -> (r: Option<usize>)
        ensures
            match r {
                Some(i) => i < self.servers@.len() && self.servers@[i as int].0@ == name@
                    && forall|q: int| 0 <= q < i ==> self.servers@[q].0@ != name@,
                None => forall|q: int| 0 <= q < self.servers@.len() ==> self.servers@[q].0@
                    != name@,
            },
    {
        let mut i: usize = 0;
        while i < self.servers.len()
            invariant
                0 <= i <= self.servers@.len(),
                forall|q: int| 0 <= q < i ==> self.servers@[q].0@ != name@,
            decreases self.servers@.len() - i,
        {
            if str_eq(self.servers[i].0.as_str(), name) {
                return Some(i);
            }
            i = i + 1;
        }
        None
    }

    /// Is at least one server configured?
    pub fn has_servers(&self) -> (r: bool)
        ensures
            r == (self@.len() > 0),
    {
        self.servers.len() > 0
    }

    /// Every configured name, in configuration order.
    pub fn server_names(&self) -> (r: Vec<String>)
        ensures
            r@.len() == self@.len(),
            forall|q: int| 0 <= q < r@.len() ==> (#[trigger] r@[q])@ == self@[q].0,
    {
        let mut out: Vec<String> = Vec::new();
        let mut i: usize = 0;
        while i < self.servers.len()
            invariant
                0 <= i <= self.servers@.len(),
                out@.len() == i,
                forall|q: int| 0 <= q < i ==> (#[trigger] out@[q])@ == self@[q].0,
            decreases self.servers@.len() - i,
        {
            out.push(self.servers[i].0.clone());
            i = i + 1;
        }
        out
    }

    /// A copy of every configured server with its name.
    pub fn list_servers(&self) -> (r: Vec<(String, McpServerConfig)>)
        ensures
            servers_view(r@) == self@,
    {
        let mut out: Vec<(String, McpServerConfig)> = Vec::new();
        let mut i: usize = 0;
        while i < self.servers.len()
            invariant
                0 <= i <= self.servers@.len(),
                out@.len() == i,
                forall|q: int|
                    0 <= q < i ==> (#[trigger] out@[q]).0@ == self.servers@[q].0@ && out@[q].1@
                        == self.servers@[q].1@,
            decreases self.servers@.len() - i,
        {
            let name = self.servers[i].0.clone();
            let cfg = clone_server_config(&self.servers[i].1);
            out.push((name, cfg));
            i = i + 1;
        }
        proof {
            assert(servers_view(out@) =~= self@);
        }
        out
    }

    /// The named server's configuration, copied out.
    pub fn get_server(&self, name: &str) -> (r: Option<McpServerConfig>)
        ensures
            match r {
                Some(c) => cfg_get(self@, name@) == Some(c@),
                None => cfg_get(self@, name@) is None,
            },
    {
        match self.find_server(name) {
            Some(i) => {
                proof {
                    lemma_cfg_get_by_index(self@, name@);
                    assert(self@[i as int].0 == name@);
                    assert(forall|q: int| 0 <= q < i ==> self@[q].0 != name@);
                    assert(cfg_get(self@, name@) == Some(self@[i as int].1));
                }
                Some(clone_server_config(&self.servers[i].1))
            },
            None => {
                proof {
                    lemma_cfg_get_by_index(self@, name@);
                    assert(forall|q: int| 0 <= q < self@.len() ==> self@[q].0 != name@);
                }
                None
            },
        }
    }

    /// Register a stdio server. A name already taken is refused and nothing
    /// changes; otherwise the server joins the table.
    pub fn add_server(&mut self, name: &str, command: &str, args: Vec<String>) -> (r: Result<
        (),
        McpError,
    >)
        ensures
            cfg_get(old(self)@, name@) is Some ==> (*final(self) == *old(self) && (r matches Err(
                e,
            ) && e@ == McpErrorV::ServerExists(name@))),
            cfg_get(old(self)@, name@) is None ==> (r is Ok && final(self)@ == old(self)@.push(
                (
                    name@,
                    McpServerConfigV {
                        transport: McpTransport::Stdio,
                        command: command@,
                        args: args.deep_view(),
                        env: Seq::empty(),
                        url: None,
                        headers: Seq::empty(),
                    },
                ),
            )),
    {
        match self.find_server(name) {
            Some(i) => {
                proof {
                    lemma_cfg_get_by_index(self@, name@);
                    assert(self@[i as int].0 == name@);
                }
                Err(McpError::ServerExists(name.to_owned()))
            },
            None => {
                proof {
                    lemma_cfg_get_by_index(self@, name@);
                    assert(forall|q: int| 0 <= q < self@.len() ==> self@[q].0 != name@);
                }
                let ghost argsv = args.deep_view();
                let cfg = McpServerConfig {
                    transport: McpTransport::Stdio,
                    command: command.to_owned(),
                    args,
                    env: Vec::new(),
                    url: None,
                    headers: Vec::new(),
                };
                proof {
                    assert(cfg@ =~~= (McpServerConfigV {
                        transport: McpTransport::Stdio,
                        command: command@,
                        args: argsv,
                        env: Seq::empty(),
                        url: None,
                        headers: Seq::empty(),
                    }));
                }
                self.servers.push((name.to_owned(), cfg));
                proof {
                    assert(self@ =~~= old(self)@.push(
                        (
                            name@,
                            McpServerConfigV {
                                transport: McpTransport::Stdio,
                                command: command@,
                                args: argsv,
                                env: Seq::empty(),
                                url: None,
                                headers: Seq::empty(),
                            },
                        ),
                    ));
                }
                Ok(())
            },
        }
    }

    /// Register an HTTP server. A name already taken is refused and nothing
    /// changes; otherwise the server joins the table.
    pub fn add_http_server(&mut self, name: &str, url: &str, headers: Vec<(String, String)>) -> (
        r: Result<(), McpError>)
        ensures
            cfg_get(old(self)@, name@) is Some ==> (*final(self) == *old(self) && (r matches Err(
                e,
            ) && e@ == McpErrorV::ServerExists(name@))),
            cfg_get(old(self)@, name@) is None ==> (r is Ok && final(self)@ == old(self)@.push(
                (
                    name@,
                    McpServerConfigV {
                        transport: McpTransport::Http,
                        command: Seq::empty(),
                        args: Seq::empty(),
                        env: Seq::empty(),
                        url: Some(url@),
                        headers: kv_view(headers@),
                    },
                ),
            )),
    {
        match self.find_server(name) {
            Some(i) => {
                proof {
                    lemma_cfg_get_by_index(self@, name@);
                    assert(self@[i as int].0 == name@);
                }
                Err(McpError::ServerExists(name.to_owned()))
            },
            None => {
                proof {
                    lemma_cfg_get_by_index(self@, name@);
                    assert(forall|q: int| 0 <= q < self@.len() ==> self@[q].0 != name@);
                }
                let ghost hv = kv_view(headers@);
                let cfg = McpServerConfig {
                    transport: McpTransport::Http,
                    command: String::new(),
                    args: Vec::new(),
                    env: Vec::new(),
                    url: Some(url.to_owned()),
                    headers,
                };
                proof {
                    assert(cfg@ =~~= (McpServerConfigV {
                        transport: McpTransport::Http,
                        command: Seq::empty(),
                        args: Seq::empty(),
                        env: Seq::empty(),
                        url: Some(url@),
                        headers: hv,
                    }));
                }
                self.servers.push((name.to_owned(), cfg));
                proof {
                    assert(self@ =~~= old(self)@.push(
                        (
                            name@,
                            McpServerConfigV {
                                transport: McpTransport::Http,
                                command: Seq::empty(),
                                args: Seq::empty(),
                                env: Seq::empty(),
                                url: Some(url@),
                                headers: hv,
                            },
                        ),
                    ));
                }
                Ok(())
            },
        }
    }

    /// Remove the named server. An unknown name is an error and nothing
    /// changes.
    pub fn remove_server(&mut self, name: &str) -> (r: Result<(), McpError>)
        ensures
            cfg_get(old(self)@, name@) is None ==> (*final(self) == *old(self) && (r matches Err(
                e,
            ) && e@ == McpErrorV::ServerNotFound(name@))),
            cfg_get(old(self)@, name@) is Some ==> (r is Ok && exists|i: int|
                0 <= i < old(self)@.len() && old(self)@[i].0 == name@ && final(self)@ == old(
                    self,
                )@.subrange(0, i).add(old(self)@.subrange(i + 1, old(self)@.len() as int))),
    {
        match self.find_server(name) {
            Some(i) => {
                proof {
                    lemma_cfg_get_by_index(self@, name@);
                    assert(self@[i as int].0 == name@);
                }
                let _removed = self.servers.remove(i);
                proof {
                    assert(old(self)@[i as int].0 == name@);
                    assert(self@ =~= old(self)@.subrange(0, i as int).add(
                        old(self)@.subrange(i + 1, old(self)@.len() as int),
                    ));
                }
                Ok(())
            },
            None => {
                proof {
                    lemma_cfg_get_by_index(self@, name@);
                    assert(forall|q: int| 0 <= q < self@.len() ==> self@[q].0 != name@);
                }
                Err(McpError::ServerNotFound(name.to_owned()))
            },
        }
    }
}

/// `cfg_get` finds the first index holding the name, and only that.
proof fn lemma_cfg_get_by_index(s: Seq<(Seq<char>, McpServerConfigV)>, name: Seq<char>)
    ensures
        cfg_get(s, name) is Some <==> (exists|i: int| 0 <= i < s.len() && s[i].0 == name),
        forall|i: int|
            (0 <= i < s.len() && s[i].0 == name && (forall|q: int|
                0 <= q < i ==> s[q].0 != name)) ==> cfg_get(s, name) == Some(#[trigger] s[i].1),
    decreases s.len(),
{
    if s.len() > 0 {
        let t = s.subrange(1, s.len() as int);
        lemma_cfg_get_by_index(t, name);
        if s[0].0 == name {
        } else {
            assert forall|i: int|
                (0 <= i < s.len() && s[i].0 == name && (forall|q: int|
                    0 <= q < i ==> s[q].0 != name)) implies cfg_get(s, name) == Some(
                #[trigger] s[i].1,
            ) by {
                assert(i >= 1);
                assert(t[i - 1] == s[i]);
                assert(forall|q: int| 0 <= q < i - 1 ==> t[q] == s[q + 1] && s[q + 1].0 != name);
                assert(cfg_get(t, name) == Some(t[i - 1].1));
            }
            if cfg_get(s, name) is Some {
                assert(exists|i: int| 0 <= i < t.len() && t[i].0 == name);
                let w = choose|i: int| 0 <= i < t.len() && t[i].0 == name;
                assert(s[w + 1].0 == name);
            }
            if exists|i: int| 0 <= i < s.len() && s[i].0 == name {
                let w = choose|i: int| 0 <= i < s.len() && s[i].0 == name;
                assert(w >= 1);
                assert(t[w - 1].0 == name);
            }
        }
    }
}

/// Bind `key` to `value`: replace the first binding, or append a new one.
pub open spec fn kv_set(
    s: Seq<(Seq<char>, Seq<char>)>,
    key: Seq<char>,
    value: Seq<char>,
) -> Seq<(Seq<char>, Seq<char>)>
    decreases s.len(),
{
    if s.len() == 0 {
        seq![(key, value)]
    } else if s[0].0 == key {
        seq![(key, value)].add(s.subrange(1, s.len() as int))
    } else {
        seq![s[0]].add(kv_set(s.subrange(1, s.len() as int), key, value))
    }
}

/// Drop the first binding of `key`, if any.
pub open spec fn kv_remove(
    s: Seq<(Seq<char>, Seq<char>)>,
    key: Seq<char>,
) -> Seq<(Seq<char>, Seq<char>)>
    decreases s.len(),
{
    if s.len() == 0 {
        s
    } else if s[0].0 == key {
        s.subrange(1, s.len() as int)
    } else {
        seq![s[0]].add(kv_remove(s.subrange(1, s.len() as int), key))
    }
}

#[verifier::rlimit(100)]
proof fn lemma_kv_set_by_index(s: Seq<(Seq<char>, Seq<char>)>, key: Seq<char>, value: Seq<char>)
    ensures
        (forall|q: int| 0 <= q < s.len() ==> s[q].0 != key) ==> kv_set(s, key, value) == s.push(
            (key, value),
        ),
        forall|i: int|
            (0 <= i < s.len() && (#[trigger] s[i]).0 == key && (forall|q: int|
                0 <= q < i ==> s[q].0 != key)) ==> kv_set(s, key, value) == s.subrange(0, i).add(
                seq![(key, value)],
            ).add(s.subrange(i + 1, s.len() as int)),
    decreases s.len(),
{
    if s.len() == 0 {
        assert(kv_set(s, key, value) =~= s.push((key, value)));
    } else {
        let t = s.subrange(1, s.len() as int);
        lemma_kv_set_by_index(t, key, value);
        if s[0].0 == key {
            assert forall|i: int|
                (0 <= i < s.len() && (#[trigger] s[i]).0 == key && (forall|q: int|
                    0 <= q < i ==> s[q].0 != key)) implies kv_set(s, key, value) == s.subrange(
                0,
                i,
            ).add(seq![(key, value)]).add(s.subrange(i + 1, s.len() as int)) by {
                assert(i == 0);
                assert(s.subrange(0, 0).add(seq![(key, value)]).add(
                    s.subrange(1, s.len() as int),
                ) =~= seq![(key, value)].add(s.subrange(1, s.len() as int)));
            }
        } else {
            if forall|q: int| 0 <= q < s.len() ==> s[q].0 != key {
                assert(forall|q: int| 0 <= q < t.len() ==> t[q] == s[q + 1] && s[q + 1].0 != key);
                assert(kv_set(t, key, value) == t.push((key, value)));
                assert(seq![s[0]].add(t.push((key, value))) =~= s.push((key, value)));
            }
            assert forall|i: int|
                (0 <= i < s.len() && (#[trigger] s[i]).0 == key && (forall|q: int|
                    0 <= q < i ==> s[q].0 != key)) implies kv_set(s, key, value) == s.subrange(
                0,
                i,
            ).add(seq![(key, value)]).add(s.subrange(i + 1, s.len() as int)) by {
                assert(i >= 1);
                assert(t[i - 1] == s[i]);
                assert(forall|q: int| 0 <= q < i - 1 ==> t[q] == s[q + 1] && s[q + 1].0 != key);
                assert(kv_set(t, key, value) == t.subrange(0, i - 1).add(seq![(key, value)]).add(
                    t.subrange(i, t.len() as int),
                ));
                assert(t.subrange(0, i - 1) =~= s.subrange(1, i));
                assert(t.subrange(i, t.len() as int) =~= s.subrange(i + 1, s.len() as int));
                assert(seq![s[0]].add(
                    s.subrange(1, i).add(seq![(key, value)]).add(
                        s.subrange(i + 1, s.len() as int),
                    ),
                ) =~= s.subrange(0, i).add(seq![(key, value)]).add(
                    s.subrange(i + 1, s.len() as int),
                ));
            }
        }
    }
}

#[verifier::rlimit(100)]
proof fn lemma_kv_remove_by_index(s: Seq<(Seq<char>, Seq<char>)>, key: Seq<char>)
    ensures
        (forall|q: int| 0 <= q < s.len() ==> s[q].0 != key) ==> kv_remove(s, key) == s,
        forall|i: int|
            (0 <= i < s.len() && (#[trigger] s[i]).0 == key && (forall|q: int|
                0 <= q < i ==> s[q].0 != key)) ==> kv_remove(s, key) == s.subrange(0, i).add(
                s.subrange(i + 1, s.len() as int),
            ),
    decreases s.len(),
{
    if s.len() == 0 {
    } else {
        let t = s.subrange(1, s.len() as int);
        lemma_kv_remove_by_index(t, key);
        if s[0].0 == key {
            assert forall|i: int|
                (0 <= i < s.len() && (#[trigger] s[i]).0 == key && (forall|q: int|
                    0 <= q < i ==> s[q].0 != key)) implies kv_remove(s, key) == s.subrange(
                0,
                i,
            ).add(s.subrange(i + 1, s.len() as int)) by {
                assert(i == 0);
                assert(s.subrange(0, 0).add(s.subrange(1, s.len() as int)) =~= s.subrange(
                    1,
                    s.len() as int,
                ));
            }
        } else {
            if forall|q: int| 0 <= q < s.len() ==> s[q].0 != key {
                assert(forall|q: int| 0 <= q < t.len() ==> t[q] == s[q + 1] && s[q + 1].0 != key);
                assert(kv_remove(t, key) == t);
                assert(seq![s[0]].add(t) =~= s);
            }
            assert forall|i: int|
                (0 <= i < s.len() && (#[trigger] s[i]).0 == key && (forall|q: int|
                    0 <= q < i ==> s[q].0 != key)) implies kv_remove(s, key) == s.subrange(
                0,
                i,
            ).add(s.subrange(i + 1, s.len() as int)) by {
                assert(i >= 1);
                assert(t[i - 1] == s[i]);
                assert(forall|q: int| 0 <= q < i - 1 ==> t[q] == s[q + 1] && s[q + 1].0 != key);
                assert(kv_remove(t, key) == t.subrange(0, i - 1).add(
                    t.subrange(i, t.len() as int),
                ));
                assert(t.subrange(0, i - 1) =~= s.subrange(1, i));
                assert(t.subrange(i, t.len() as int) =~= s.subrange(i + 1, s.len() as int));
                assert(seq![s[0]].add(s.subrange(1, i).add(s.subrange(i + 1, s.len() as int)))
                    =~= s.subrange(0, i).add(s.subrange(i + 1, s.len() as int)));
            }
        }
    }
}

/// Replace or append one binding in a key-value vector.
#[verifier::loop_isolation(false)]
fn upsert_kv(v: &mut Vec<(String, String)>, key: &str, value: &str)
    ensures
        kv_view(final(v)@) == kv_set(kv_view(old(v)@), key@, value@),
{
    let ghost s = kv_view(v@);
    proof {
        lemma_kv_set_by_index(s, key@, value@);
    }
    let mut i: usize = 0;
    while i < v.len()
        invariant
            0 <= i <= v@.len(),
            v@ == old(v)@,
            s == kv_view(v@),
            forall|q: int| 0 <= q < i ==> s[q].0 != key@,
        decreases v@.len() - i,
    {
        if str_eq(v[i].0.as_str(), key) {
            let _old_entry = v.remove(i);
            v.insert(i, (key.to_owned(), value.to_owned()));
            proof {
                assert(s[i as int].0 == key@);
                assert(kv_view(v@) =~= s.subrange(0, i as int).add(seq![(key@, value@)]).add(
                    s.subrange(i + 1, s.len() as int),
                ));
            }
            return ;
        }
        i = i + 1;
    }
    v.push((key.to_owned(), value.to_owned()));
    proof {
        assert(kv_view(v@) =~= s.push((key@, value@)));
    }
}

/// Drop the first binding of a key from a key-value vector.
#[verifier::loop_isolation(false)]
fn remove_kv(v: &mut Vec<(String, String)>, key: &str)
    ensures
        kv_view(final(v)@) == kv_remove(kv_view(old(v)@), key@),
{
    let ghost s = kv_view(v@);
    proof {
        lemma_kv_remove_by_index(s, key@);
    }
    let mut i: usize = 0;
    while i < v.len()
        invariant
            0 <= i <= v@.len(),
            v@ == old(v)@,
            s == kv_view(v@),
            forall|q: int| 0 <= q < i ==> s[q].0 != key@,
        decreases v@.len() - i,
    {
        if str_eq(v[i].0.as_str(), key) {
            let _old_entry = v.remove(i);
            proof {
                assert(s[i as int].0 == key@);
                assert(kv_view(v@) =~= s.subrange(0, i as int).add(
                    s.subrange(i + 1, s.len() as int),
                ));
            }
            return ;
        }
        i = i + 1;
    }
    proof {
        assert(kv_view(v@) =~= s);
    }
}

impl McpConfig {
    /// Set a request header on the named HTTP server.
    pub fn set_header(&mut self, name: &str, key: &str, value: &str) -> (r: Result<(), McpError>)
        ensures
            cfg_get(old(self)@, name@) is None ==> (*final(self) == *old(self) && (r matches Err(
                e,
            ) && e@ == McpErrorV::ServerNotFound(name@))),
            cfg_get(old(self)@, name@) is Some ==> (r is Ok && exists|i: int|
                0 <= i < old(self)@.len() && (#[trigger] old(self)@[i]).0 == name@ && final(self)@ == old(self)@.update(
                    i,
                    (
                        old(self)@[i].0,
                        McpServerConfigV {
                            headers: kv_set(old(self)@[i].1.headers, key@, value@),
                            ..old(self)@[i].1
                        },
                    ),
                )),
    {
        match self.find_server(name) {
            Some(i) => {
                proof {
                    lemma_cfg_get_by_index(self@, name@);
                    assert(self@[i as int].0 == name@);
                }
                let mut entry = self.servers.remove(i);
                upsert_kv(&mut entry.1.headers, key, value);
                self.servers.insert(i, entry);
                proof {
                    assert(final(self)@ =~~= old(self)@.update(
                        i as int,
                        (
                            old(self)@[i as int].0,
                            McpServerConfigV {
                                headers: kv_set(old(self)@[i as int].1.headers, key@, value@),
                                ..old(self)@[i as int].1
                            },
                        ),
                    ));
                }
                Ok(())
            },
            None => {
                proof {
                    lemma_cfg_get_by_index(self@, name@);
                    assert(forall|q: int| 0 <= q < self@.len() ==> self@[q].0 != name@);
                }
                Err(McpError::ServerNotFound(name.to_owned()))
            },
        }
    }

    /// Set an environment variable on the named server.
    pub fn set_env(&mut self, name: &str, key: &str, value: &str) -> (r: Result<(), McpError>)
        ensures
            cfg_get(old(self)@, name@) is None ==> (*final(self) == *old(self) && (r matches Err(
                e,
            ) && e@ == McpErrorV::ServerNotFound(name@))),
            cfg_get(old(self)@, name@) is Some ==> (r is Ok && exists|i: int|
                0 <= i < old(self)@.len() && (#[trigger] old(self)@[i]).0 == name@ && final(self)@ == old(self)@.update(
                    i,
                    (
                        old(self)@[i].0,
                        McpServerConfigV {
                            env: kv_set(old(self)@[i].1.env, key@, value@),
                            ..old(self)@[i].1
                        },
                    ),
                )),
    {
        match self.find_server(name) {
            Some(i) => {
                proof {
                    lemma_cfg_get_by_index(self@, name@);
                    assert(self@[i as int].0 == name@);
                }
                let mut entry = self.servers.remove(i);
                upsert_kv(&mut entry.1.env, key, value);
                self.servers.insert(i, entry);
                proof {
                    assert(final(self)@ =~~= old(self)@.update(
                        i as int,
                        (
                            old(self)@[i as int].0,
                            McpServerConfigV {
                                env: kv_set(old(self)@[i as int].1.env, key@, value@),
                                ..old(self)@[i as int].1
                            },
                        ),
                    ));
                }
                Ok(())
            },
            None => {
                proof {
                    lemma_cfg_get_by_index(self@, name@);
                    assert(forall|q: int| 0 <= q < self@.len() ==> self@[q].0 != name@);
                }
                Err(McpError::ServerNotFound(name.to_owned()))
            },
        }
    }

    /// Remove an environment variable from the named server. Removing an
    /// absent key succeeds and changes nothing of the bindings.
    pub fn remove_env(&mut self, name: &str, key: &str) -> (r: Result<(), McpError>)
        ensures
            cfg_get(old(self)@, name@) is None ==> (*final(self) == *old(self) && (r matches Err(
                e,
            ) && e@ == McpErrorV::ServerNotFound(name@))),
            cfg_get(old(self)@, name@) is Some ==> (r is Ok && exists|i: int|
                0 <= i < old(self)@.len() && (#[trigger] old(self)@[i]).0 == name@ && final(self)@ == old(self)@.update(
                    i,
                    (
                        old(self)@[i].0,
                        McpServerConfigV {
                            env: kv_remove(old(self)@[i].1.env, key@),
                            ..old(self)@[i].1
                        },
                    ),
                )),
    {
        match self.find_server(name) {
            Some(i) => {
                proof {
                    lemma_cfg_get_by_index(self@, name@);
                    assert(self@[i as int].0 == name@);
                }
                let mut entry = self.servers.remove(i);
                remove_kv(&mut entry.1.env, key);
                self.servers.insert(i, entry);
                proof {
                    assert(final(self)@ =~~= old(self)@.update(
                        i as int,
                        (
                            old(self)@[i as int].0,
                            McpServerConfigV {
                                env: kv_remove(old(self)@[i as int].1.env, key@),
                                ..old(self)@[i as int].1
                            },
                        ),
                    ));
                }
                Ok(())
            },
            None => {
                proof {
                    lemma_cfg_get_by_index(self@, name@);
                    assert(forall|q: int| 0 <= q < self@.len() ==> self@[q].0 != name@);
                }
                Err(McpError::ServerNotFound(name.to_owned()))
            },
        }
    }
}

/// The canonical JSON-RPC request object.
pub open spec fn spec_request(id: u64, method: Seq<char>, params: Option<JsonModel>) -> JsonModel {
    match params {
        Some(p) => JsonModel::Obj(
            seq![
                ("jsonrpc"@, JsonModel::Str("2.0"@)),
                ("id"@, JsonModel::Num(dec_str(id as nat))),
                ("method"@, JsonModel::Str(method)),
                ("params"@, p),
            ],
        ),
        None => JsonModel::Obj(
            seq![
                ("jsonrpc"@, JsonModel::Str("2.0"@)),
                ("id"@, JsonModel::Num(dec_str(id as nat))),
                ("method"@, JsonModel::Str(method)),
            ],
        ),
    }
}

/// Build one JSON-RPC request.
pub fn build_request(id: u64, method: &str, params: Option<Json>) -> (r: Json)
    ensures
        r@ == spec_request(
            id,
            method@,
            match params {
                Some(p) => Some(p@),
                None => None,
            },
        ),
{
    let ghost pv: Option<JsonModel> = match &params {
        Option::Some(p) => Some(p@),
        Option::None => None,
    };
    let mut fields: Vec<(String, Json)> = Vec::new();
    fields.push((String::from_str("jsonrpc"), Json::Str(String::from_str("2.0"))));
    fields.push((String::from_str("id"), Json::Num(u64_to_string(id))));
    fields.push((String::from_str("method"), Json::Str(method.to_owned())));
    match params {
        Some(p) => {
            fields.push((String::from_str("params"), p));
        },
        None => {},
    }
    let r = Json::Obj(fields);
    proof {
        assert(json_view(fields@[0].1) == JsonModel::Str("2.0"@));
        assert(json_view(fields@[1].1) == JsonModel::Num(dec_str(id as nat)));
        assert(json_view(fields@[2].1) == JsonModel::Str(method@));
        match pv {
            Option::Some(p) => {
                assert(json_view(fields@[3].1) == p);
                assert(r@->Obj_0 =~= spec_request(id, method@, pv)->Obj_0);
            },
            Option::None => {
                assert(r@->Obj_0 =~= spec_request(id, method@, pv)->Obj_0);
            },
        }
    }
    r
}

/// Build the wire line for one request (the newline is the caller's).
pub fn request_line(id: u64, method: &str, params: Option<Json>) -> (r: String)
    ensures
        r@ == ser(
            spec_request(
                id,
                method@,
                match params {
                    Some(p) => Some(p@),
                    None => None,
                },
            ),
        ),
{
    let req = build_request(id, method, params);
    crate::json::serialize_json(&req)
}

/// Notifications are write-only: no response line follows them.
pub fn is_notification(method: &str) -> (r: bool)
    ensures
        r == starts_with(method@, "notifications/"@),
{
    starts_with_str(method, "notifications/")
}

/// The parameters of the `initialize` handshake.
pub open spec fn spec_initialize_params() -> JsonModel {
    JsonModel::Obj(
        seq![
            ("protocolVersion"@, JsonModel::Str("2024-11-05"@)),
            ("capabilities"@, JsonModel::Obj(Seq::empty())),
            (
                "clientInfo"@,
                JsonModel::Obj(
                    seq![
                        ("name"@, JsonModel::Str("sabi-tui"@)),
                        ("version"@, JsonModel::Str("0.1.0"@)),
                    ],
                ),
            ),
        ],
    )
}

/// Build the `initialize` parameters.
pub fn initialize_params() -> (r: Json)
    ensures
        r@ == spec_initialize_params(),
{
    let caps = Json::Obj(Vec::new());
    let mut info_fields: Vec<(String, Json)> = Vec::new();
    info_fields.push((String::from_str("name"), Json::Str(String::from_str("sabi-tui"))));
    info_fields.push((String::from_str("version"), Json::Str(String::from_str("0.1.0"))));
    let info = Json::Obj(info_fields);
    proof {
        assert(json_view(info_fields@[0].1) == JsonModel::Str("sabi-tui"@));
        assert(json_view(info_fields@[1].1) == JsonModel::Str("0.1.0"@));
        assert(info@->Obj_0 =~= seq![
            ("name"@, JsonModel::Str("sabi-tui"@)),
            ("version"@, JsonModel::Str("0.1.0"@)),
        ]);
        assert(caps@->Obj_0 =~= Seq::<(Seq<char>, JsonModel)>::empty());
    }
    let ghost infov = info@;
    let ghost capsv = caps@;
    let mut fields: Vec<(String, Json)> = Vec::new();
    fields.push((String::from_str("protocolVersion"), Json::Str(String::from_str("2024-11-05"))));
    fields.push((String::from_str("capabilities"), caps));
    fields.push((String::from_str("clientInfo"), info));
    let r = Json::Obj(fields);
    proof {
        assert(json_view(fields@[0].1) == JsonModel::Str("2024-11-05"@));
        assert(json_view(fields@[1].1) == capsv);
        assert(json_view(fields@[2].1) == infov);
        assert(r@->Obj_0 =~= spec_initialize_params()->Obj_0);
    }
    r
}

/// What a JSON-RPC response line means: an error's message, or the result
/// member (absent for notifications and empty results).
pub open spec fn spec_decode_response(m: JsonModel) -> Result<Option<JsonModel>, Seq<char>> {
    match m {
        JsonModel::Obj(fs) => match obj_get(fs, "error"@) {
            Option::Some(e) => Err(
                match e {
                    JsonModel::Obj(efs) => match obj_get(efs, "message"@) {
                        Option::Some(JsonModel::Str(msg)) => msg,
                        _ => "server error"@,
                    },
                    _ => "server error"@,
                },
            ),
            Option::None => Ok(obj_get(fs, "result"@)),
        },
        _ => Err("invalid JSON-RPC response"@),
    }
}

/// Decode a parsed response value. A result pulled out of a well-formed
/// value is itself well-formed, so its canonical text parses back to it.
pub fn decode_response(v: &Json) -> (r: Result<Option<Json>, McpError>)
    ensures
        match spec_decode_response(v@) {
            Ok(o) => r matches Ok(ro) && (match o {
                Some(x) => ro matches Some(rv) && rv@ == x,
                None => ro is None,
            }),
            Err(msg) => r matches Err(e) && e@ == McpErrorV::ServerError(msg),
        },
        wf_json(v@) ==> (r matches Ok(ro) ==> (ro matches Some(rv) ==> wf_json(rv@))),
{
    proof {
        if wf_json(v@) && v@ is Obj {
            crate::json::lemma_obj_get_wf(v@->Obj_0, "result"@);
        }
    }
    match v {
        Json::Obj(_) => {
            match obj_get_json(v, "error") {
                Some(e) => {
                    proof {
                        crate::json::lemma_view_variant(*e);
                    }
                    let msg: String = match e {
                        Json::Obj(_) => {
                            match obj_get_json(e, "message") {
                                Some(m) => {
                                    proof {
                                        crate::json::lemma_view_variant(*m);
                                    }
                                    match m {
                                        Json::Str(s) => s.clone(),
                                        _ => String::from_str("server error"),
                                    }
                                },
                                None => String::from_str("server error"),
                            }
                        },
                        _ => String::from_str("server error"),
                    };
                    Err(McpError::ServerError(msg))
                },
                None => {
                    match obj_get_json(v, "result") {
                        Some(res) => Ok(Some(clone_json(res))),
                        None => Ok(None),
                    }
                },
            }
        },
        _ => Err(McpError::ServerError(String::from_str("invalid JSON-RPC response"))),
    }
}

/// Parse one response line and decode it. A line whose trimmed form is the
/// canonical text of a JSON value is decoded exactly as
/// `spec_decode_response` says; and whatever the line was, a returned value
/// is well-formed, so it means exactly what its canonical text says.
pub fn parse_response_line(line: &str) -> (r: Result<Option<Json>, McpError>)
    ensures
        r matches Ok(ro) ==> (ro matches Some(rv) ==> wf_json(rv@)),
        forall|m: JsonModel|
            wf_json(m) && crate::text::trim_spec(line@) == ser(m) ==> (match spec_decode_response(
                m,
            ) {
                Ok(o) => r matches Ok(ro) && (match o {
                    Some(x) => ro matches Some(rv) && rv@ == x,
                    None => ro is None,
                }),
                Err(msg) => r matches Err(e) && e@ == McpErrorV::ServerError(msg),
            }),
{
    let trimmed = crate::text::trim_str(line);
    match crate::json::parse_json(trimmed.as_str()) {
        Some(v) => decode_response(&v),
        None => Err(McpError::ServerError(String::from_str("invalid JSON in response"))),
    }
}

/// The per-server request counter. Identifiers are handed out strictly
/// increasing: every call returns a number larger than every number handed
/// out before it.
#[derive(Debug)]
pub struct McpSession {
    pub request_id: u64,
}

impl McpSession {
    /// A fresh session; the first request will carry id 1.
    pub fn new() -> (r: McpSession)
        ensures
            r.request_id == 0,
    {
        McpSession { request_id: 0 }
    }

    /// Hand out the next request id: one more than the last, so ids are
    /// strictly monotonic across a session.
    pub fn next_request_id(&mut self) -> (r: u64)
        requires
            old(self).request_id < u64::MAX,
        ensures
            r == old(self).request_id + 1,
            final(self).request_id == r,
            r > old(self).request_id,
    {
        self.request_id = self.request_id + 1;
        self.request_id
    }
}

/// Ids handed out one after another are strictly monotonic across the
/// whole session: of any two, the later is the larger.
pub proof fn lemma_request_ids_strictly_monotonic(ids: Seq<u64>)
    requires
        forall|k: int| 0 <= k < ids.len() - 1 ==> #[trigger] ids[k + 1] == ids[k] + 1,
    ensures
        forall|a: int, b: int| 0 <= a < b < ids.len() ==> ids[a] < ids[b],
    decreases ids.len(),
{
    if ids.len() > 1 {
        let front = ids.subrange(0, ids.len() - 1);
        assert forall|k: int|
            0 <= k < front.len() - 1 implies #[trigger] front[k + 1] == front[k] + 1 by {
            assert(front[k + 1] == ids[k + 1] && front[k] == ids[k]);
            assert(ids[k + 1] == ids[k] + 1);
        }
        lemma_request_ids_strictly_monotonic(front);
        assert forall|a: int, b: int| 0 <= a < b < ids.len() implies ids[a] < ids[b] by {
            if b < ids.len() - 1 {
                assert(front[a] < front[b]);
            } else {
                assert(ids[b - 1 + 1] == ids[b - 1] + 1);
                if a < b - 1 {
                    assert(front[a] < front[b - 1]);
                }
            }
        }
    }
}

/// The view of a call outcome.
pub open spec fn outcome_view(r: Result<Option<Json>, McpError>) -> Result<
    Option<JsonModel>,
    McpErrorV,
> {
    match r {
        Ok(o) => Ok(
            match o {
                Option::Some(v) => Some(json_view(v)),
                Option::None => None,
            },
        ),
        Err(e) => Err(e@),
    }
}

/// The retry rule: a first success stands; after a first failure, a failed
/// restart makes the first error final, and a successful restart makes the
/// second attempt's outcome final, success or error.
pub open spec fn spec_resolve_retry(
    first: Result<Option<JsonModel>, McpErrorV>,
    restart_failed: bool,
    second: Result<Option<JsonModel>, McpErrorV>,
) -> Result<Option<JsonModel>, McpErrorV> {
    if first is Ok {
        first
    } else if restart_failed {
        first
    } else {
        second
    }
}

/// Should the caller restart the server and try again? Exactly after a
/// failed first attempt.
pub fn retry_after_failure(first: &Result<Option<Json>, McpError>) -> (r: bool)
    ensures
        r == (first is Err),
{
    match first {
        Ok(_) => false,
        Err(_) => true,
    }
}

/// Settle a call from its attempts, as `spec_resolve_retry` says.
pub fn resolve_retry(
    first: Result<Option<Json>, McpError>,
    restart_failed: bool,
    second: Result<Option<Json>, McpError>,
) -> (r: Result<Option<Json>, McpError>)
    ensures
        outcome_view(r) == spec_resolve_retry(
            outcome_view(first),
            restart_failed,
            outcome_view(second),
        ),
{
    match first {
        Ok(v) => Ok(v),
        Err(e) => {
            if restart_failed {
                Err(e)
            } else {
                second
            }
        },
    }
}

/// A call that fails once and is retried after a successful restart returns
/// the second attempt's outcome — the second result on success, the second
/// error on a second failure.
pub proof fn lemma_retry_returns_second_outcome(
    first: Result<Option<JsonModel>, McpErrorV>,
    second: Result<Option<JsonModel>, McpErrorV>,
)
    requires
        first is Err,
    ensures
        spec_resolve_retry(first, false, second) == second,
{
}

/// When the restart itself fails, the first error is final.
pub proof fn lemma_failed_restart_keeps_first_error(
    first: Result<Option<JsonModel>, McpErrorV>,
    second: Result<Option<JsonModel>, McpErrorV>,
)
    requires
        first is Err,
    ensures
        spec_resolve_retry(first, true, second) == first,
{
}

/// One tool as a server advertises it.
#[derive(Debug)]
pub struct McpTool {
    pub name: String,
    pub description: Option<String>,
    pub input_schema: Option<Json>,
}

/// The mathematical shape of an advertised tool.
pub struct McpToolV {
    pub name: Seq<char>,
    pub description: Option<Seq<char>>,
    pub input_schema: Option<JsonModel>,
}

impl View for McpTool {
    type V = McpToolV;

    open spec fn view(&self) -> McpToolV {
        McpToolV {
            name: self.name@,
            description: match self.description {
                Option::Some(d) => Some(d@),
                Option::None => None,
            },
            input_schema: match self.input_schema {
                Option::Some(s) => Some(s@),
                Option::None => None,
            },
        }
    }
}

impl DeepView for McpTool {
    type V = McpToolV;

    open spec fn deep_view(&self) -> McpToolV {
        self.view()
    }
}

/// Decode one advertised tool: `name` must be a string, `description` a
/// string when present, `inputSchema` is kept as it is.
pub open spec fn spec_tool_of(m: JsonModel) -> Option<McpToolV> {
    match m {
        JsonModel::Obj(fs) => match obj_get(fs, "name"@) {
            Option::Some(JsonModel::Str(n)) => {
                let desc = match obj_get(fs, "description"@) {
                    Option::Some(JsonModel::Str(d)) => Some(Some(d)),
                    Option::None => Some(None),
                    Option::Some(_) => None,
                };
                match desc {
                    Some(d) => Some(
                        McpToolV { name: n, description: d, input_schema: obj_get(fs, "inputSchema"@) },
                    ),
                    None => None,
                }
            },
            _ => None,
        },
        _ => None,
    }
}

/// Decode a list of advertised tools; one bad entry spoils the list.
pub open spec fn spec_tools_list(items: Seq<JsonModel>) -> Option<Seq<McpToolV>>
    decreases items.len(),
{
    if items.len() == 0 {
        Some(Seq::empty())
    } else {
        match (spec_tool_of(items[0]), spec_tools_list(items.subrange(1, items.len() as int))) {
            (Some(t), Some(ts)) => Some(seq![t].add(ts)),
            _ => None,
        }
    }
}

proof fn lemma_tools_list_snoc(items: Seq<JsonModel>, x: JsonModel)
    ensures
        spec_tools_list(items.push(x)) == (match (spec_tools_list(items), spec_tool_of(x)) {
            (Some(ts), Some(t)) => Some(ts.push(t)),
            _ => None,
        }),
    decreases items.len(),
{
    let ip = items.push(x);
    if items.len() == 0 {
        assert(ip.len() == 1);
        assert(ip[0] == x);
        assert(ip.subrange(1, 1) =~= Seq::<JsonModel>::empty());
        assert(spec_tools_list(ip.subrange(1, 1)) == Some(Seq::<McpToolV>::empty()));
        match spec_tool_of(x) {
            Option::Some(t) => {
                assert(spec_tools_list(ip) == Some(seq![t].add(Seq::<McpToolV>::empty())));
                assert(seq![t].add(Seq::<McpToolV>::empty()) =~= Seq::<McpToolV>::empty().push(
                    t,
                ));
            },
            Option::None => {},
        }
    } else {
        assert(ip[0] == items[0]);
        assert(ip.subrange(1, ip.len() as int) =~= items.subrange(1, items.len() as int).push(x));
        lemma_tools_list_snoc(items.subrange(1, items.len() as int), x);
        match (spec_tool_of(items[0]), spec_tools_list(
            items.subrange(1, items.len() as int),
        ), spec_tool_of(x)) {
            (Option::Some(h), Option::Some(ts), Option::Some(t)) => {
                assert(seq![h].add(ts.push(t)) =~= seq![h].add(ts).push(t));
            },
            _ => {},
        }
    }
}

/// What `tools/list` returned: the decoded catalog, an empty catalog when
/// the result has no `tools` member or is not an object, and nothing when
/// an entry does not decode.
pub open spec fn spec_tools_of(m: JsonModel) -> Option<Seq<McpToolV>> {
    match m {
        JsonModel::Obj(fs) => match obj_get(fs, "tools"@) {
            Option::Some(JsonModel::Arr(items)) => spec_tools_list(items),
            Option::Some(_) => None,
            Option::None => Some(Seq::empty()),
        },
        _ => Some(Seq::empty()),
    }
}

/// Decode one tool entry.
fn decode_tool(j: &Json) -> (r: Option<McpTool>)
    ensures
        match r {
            Some(t) => spec_tool_of(j@) == Some(t@),
            None => spec_tool_of(j@) is None,
        },
{
    proof {
        crate::json::lemma_view_variant(*j);
    }
    match j {
        Json::Obj(_) => {},
        _ => {
            return None;
        },
    }
    let name: String = match obj_get_json(j, "name") {
        Some(n) => {
            proof {
                crate::json::lemma_view_variant(*n);
            }
            match n {
                Json::Str(s) => s.clone(),
                _ => {
                    return None;
                },
            }
        },
        None => {
            return None;
        },
    };
    let description: Option<String> = match obj_get_json(j, "description") {
        Some(d) => {
            proof {
                crate::json::lemma_view_variant(*d);
            }
            match d {
                Json::Str(s) => Some(s.clone()),
                _ => {
                    return None;
                },
            }
        },
        None => None,
    };
    let input_schema: Option<Json> = match obj_get_json(j, "inputSchema") {
        Some(s) => Some(clone_json(s)),
        None => None,
    };
    Some(McpTool { name, description, input_schema })
}

/// Decode the result of `tools/list` into the advertised catalog.
#[verifier::loop_isolation(false)]
pub fn decode_tools(result: &Json) -> (r: Result<Vec<McpTool>, McpError>)
    ensures
        match spec_tools_of(result@) {
            Some(ts) => r matches Ok(v) && v.deep_view() == ts,
            None => r matches Err(e) && e@ == McpErrorV::Json("tool list does not decode"@),
        },
{
    proof {
        crate::json::lemma_view_variant(*result);
    }
    let empty_ok: bool = match result {
        Json::Obj(_) => false,
        _ => true,
    };
    if empty_ok {
        let out: Vec<McpTool> = Vec::new();
        proof {
            assert(out.deep_view() =~= Seq::<McpToolV>::empty());
        }
        return Ok(out);
    }
    match obj_get_json(result, "tools") {
        None => {
            let out: Vec<McpTool> = Vec::new();
            proof {
                assert(out.deep_view() =~= Seq::<McpToolV>::empty());
            }
            Ok(out)
        },
        Some(tools_val) => {
            proof {
                crate::json::lemma_view_variant(*tools_val);
            }
            match tools_val {
                Json::Arr(items) => {
                    let ghost ms = tools_val@->Arr_0;
                    let mut out: Vec<McpTool> = Vec::new();
                    let mut i: usize = 0;
                    proof {
                        assert(ms.subrange(0, 0) =~= Seq::<JsonModel>::empty());
                        assert(out.deep_view() =~= Seq::<McpToolV>::empty());
                        assert(spec_tools_list(ms.subrange(0, 0)) == Some(out.deep_view()));
                    }
                    while i < items.len()
                        invariant
                            0 <= i <= items@.len(),
                            ms.len() == items@.len(),
                            forall|q: int|
                                0 <= q < ms.len() ==> ms[q] == json_view(#[trigger] items@[q]),
                            spec_tools_list(ms.subrange(0, i as int)) == Some(out.deep_view()),
                        decreases items@.len() - i,
                    {
                        match decode_tool(&items[i]) {
                            Some(t) => {
                                let ghost tv = t@;
                                out.push(t);
                                proof {
                                    assert(ms.subrange(0, i + 1) =~= ms.subrange(0, i as int).push(
                                        ms[i as int],
                                    ));
                                    lemma_tools_list_snoc(ms.subrange(0, i as int), ms[i as int]);
                                    assert(out.deep_view() =~= spec_tools_list(
                                        ms.subrange(0, i as int),
                                    )->Some_0.push(tv));
                                }
                            },
                            None => {
                                proof {
                                    assert(ms.subrange(0, ms.len() as int) =~= ms);
                                    lemma_tools_list_prefix_none(ms, i as int);
                                }
                                return Err(
                                    McpError::Json(String::from_str("tool list does not decode")),
                                );
                            },
                        }
                        i = i + 1;
                    }
                    proof {
                        assert(ms.subrange(0, ms.len() as int) =~= ms);
                    }
                    Ok(out)
                },
                _ => Err(McpError::Json(String::from_str("tool list does not decode"))),
            }
        },
    }
}

/// A list with one undecodable entry does not decode.
proof fn lemma_tools_list_prefix_none(items: Seq<JsonModel>, i: int)
    requires
        0 <= i < items.len(),
        spec_tool_of(items[i]) is None,
    ensures
        spec_tools_list(items) is None,
    decreases items.len(),
{
    if items.len() > 0 {
        if i == 0 {
        } else {
            let t = items.subrange(1, items.len() as int);
            assert(t[i - 1] == items[i]);
            lemma_tools_list_prefix_none(t, i - 1);
        }
    }
}

/// The parameters of a `tools/call` request.
pub open spec fn spec_call_params(name: Seq<char>, arguments: JsonModel) -> JsonModel {
    JsonModel::Obj(seq![("name"@, JsonModel::Str(name)), ("arguments"@, arguments)])
}

/// Build the parameters of a `tools/call` request.
pub fn call_params(name: &str, arguments: Json) -> (r: Json)
    ensures
        r@ == spec_call_params(name@, arguments@),
{
    let ghost av = arguments@;
    let mut fields: Vec<(String, Json)> = Vec::new();
    fields.push((String::from_str("name"), Json::Str(name.to_owned())));
    fields.push((String::from_str("arguments"), arguments));
    let r = Json::Obj(fields);
    proof {
        assert(json_view(fields@[0].1) == JsonModel::Str(name@));
        assert(json_view(fields@[1].1) == av);
        assert(r@->Obj_0 =~= spec_call_params(name@, av)->Obj_0);
    }
    r
}

/// The first line of a description.
pub open spec fn first_line(s: Seq<char>) -> Seq<char>
    decreases s.len(),
{
    if s.len() == 0 {
        s
    } else if s[0] == '\n' {
        Seq::empty()
    } else {
        seq![s[0]].add(first_line(s.subrange(1, s.len() as int)))
    }
}

proof fn lemma_first_line_is_prefix(s: Seq<char>, e: int)
    requires
        0 <= e <= s.len(),
        forall|q: int| 0 <= q < e ==> s[q] != '\n',
        e < s.len() ==> s[e] == '\n',
    ensures
        first_line(s) == s.subrange(0, e),
    decreases e,
{
    if s.len() == 0 {
        assert(s.subrange(0, 0) =~= s);
    } else if e == 0 {
        assert(first_line(s) =~= s.subrange(0, 0));
    } else {
        let t = s.subrange(1, s.len() as int);
        lemma_first_line_is_prefix(t, e - 1);
        assert(t.subrange(0, e - 1) =~= s.subrange(1, e));
        assert(seq![s[0]].add(s.subrange(1, e)) =~= s.subrange(0, e));
    }
}

/// Copy out the first line of a string.
pub fn first_line_of(s: &str) -> (r: String)
    ensures
        r@ == first_line(s@),
{
    let n = s.unicode_len();
    let mut e: usize = 0;
    while e < n && s.get_char(e) != '\n'
        invariant
            0 <= e <= n,
            n == s@.len(),
            forall|q: int| 0 <= q < e ==> s@[q] != '\n',
        decreases n - e,
    {
        e = e + 1;
    }
    proof {
        lemma_first_line_is_prefix(s@, e as int);
    }
    crate::text::substring_of(s, 0, e)
}

/// One catalog line: the server, the tool, and its description's first line.
pub open spec fn tool_line_spec(server: Seq<char>, t: McpToolV) -> Seq<char> {
    "- "@.add(server).push('/').add(t.name).add(": "@).add(
        match t.description {
            Some(d) => first_line(d),
            None => Seq::empty(),
        },
    ).push('\n')
}

/// The catalog lines of one server's tools.
pub open spec fn server_lines(server: Seq<char>, ts: Seq<McpToolV>) -> Seq<char>
    decreases ts.len(),
{
    if ts.len() == 0 {
        Seq::empty()
    } else {
        tool_line_spec(server, ts[0]).add(server_lines(server, ts.subrange(1, ts.len() as int)))
    }
}

proof fn lemma_server_lines_snoc(server: Seq<char>, ts: Seq<McpToolV>, x: McpToolV)
    ensures
        server_lines(server, ts.push(x)) == server_lines(server, ts).add(
            tool_line_spec(server, x),
        ),
    decreases ts.len(),
{
    let tp = ts.push(x);
    if ts.len() == 0 {
        assert(tp[0] == x);
        assert(tp.subrange(1, 1) =~= Seq::<McpToolV>::empty());
        assert(server_lines(server, tp.subrange(1, 1)) == Seq::<char>::empty());
        assert(tool_line_spec(server, x).add(Seq::<char>::empty()) =~= tool_line_spec(server, x));
        assert(server_lines(server, ts).add(tool_line_spec(server, x)) =~= tool_line_spec(
            server,
            x,
        ));
    } else {
        assert(tp[0] == ts[0]);
        assert(tp.subrange(1, tp.len() as int) =~= ts.subrange(1, ts.len() as int).push(x));
        lemma_server_lines_snoc(server, ts.subrange(1, ts.len() as int), x);
        assert(tool_line_spec(server, ts[0]).add(
            server_lines(server, ts.subrange(1, ts.len() as int)).add(
                tool_line_spec(server, x),
            ),
        ) =~= server_lines(server, ts).add(tool_line_spec(server, x)));
    }
}

/// The catalog lines of every server, in catalog order.
pub open spec fn catalog_lines(entries: Seq<(Seq<char>, Seq<McpToolV>)>) -> Seq<char>
    decreases entries.len(),
{
    if entries.len() == 0 {
        Seq::empty()
    } else {
        server_lines(entries[0].0, entries[0].1).add(
            catalog_lines(entries.subrange(1, entries.len() as int)),
        )
    }
}

proof fn lemma_catalog_lines_snoc(
    entries: Seq<(Seq<char>, Seq<McpToolV>)>,
    x: (Seq<char>, Seq<McpToolV>),
)
    ensures
        catalog_lines(entries.push(x)) == catalog_lines(entries).add(server_lines(x.0, x.1)),
    decreases entries.len(),
{
    let ep = entries.push(x);
    if entries.len() == 0 {
        assert(ep[0] == x);
        assert(ep.subrange(1, 1) =~= Seq::<(Seq<char>, Seq<McpToolV>)>::empty());
        assert(catalog_lines(ep.subrange(1, 1)) == Seq::<char>::empty());
        assert(server_lines(x.0, x.1).add(Seq::<char>::empty()) =~= server_lines(x.0, x.1));
        assert(catalog_lines(entries).add(server_lines(x.0, x.1)) =~= server_lines(x.0, x.1));
    } else {
        assert(ep[0] == entries[0]);
        assert(ep.subrange(1, ep.len() as int) =~= entries.subrange(
            1,
            entries.len() as int,
        ).push(x));
        lemma_catalog_lines_snoc(entries.subrange(1, entries.len() as int), x);
        assert(server_lines(entries[0].0, entries[0].1).add(
            catalog_lines(entries.subrange(1, entries.len() as int)).add(
                server_lines(x.0, x.1),
            ),
        ) =~= catalog_lines(entries).add(server_lines(x.0, x.1)));
    }
}

/// How the system prompt announces the MCP tools.
pub const MCP_TOOLS_HEADER: &'static str = "\n\nMCP tools are available. Call one as:\n{\"tool\": \"mcp\", \"server\": \"<server>\", \"name\": \"<tool>\", \"arguments\": {}}\n\nAvailable MCP tools:\n";

/// The mathematical shape of a tool catalog.
pub open spec fn catalog_view(v: Seq<(String, Vec<McpTool>)>) -> Seq<
    (Seq<char>, Seq<McpToolV>),
> {
    Seq::new(v.len(), |i: int| if 0 <= i < v.len() {
        (v[i].0@, v[i].1.deep_view())
    } else {
        (Seq::empty(), Seq::empty())
    })
}

/// The catalog section of the system prompt; empty when no server offers
/// tools to list.
pub open spec fn tools_prompt_spec(entries: Seq<(Seq<char>, Seq<McpToolV>)>) -> Seq<char> {
    if entries.len() == 0 {
        Seq::empty()
    } else {
        MCP_TOOLS_HEADER@.add(catalog_lines(entries))
    }
}

/// Render the catalog section of the system prompt.
#[verifier::loop_isolation(false)]
#[verifier::rlimit(100)]
pub fn tools_prompt(catalog: &Vec<(String, Vec<McpTool>)>) -> (r: String)
    ensures
        r@ == tools_prompt_spec(catalog_view(catalog@)),
{
    let ghost entries = catalog_view(catalog@);
    if catalog.len() == 0 {
        let empty_out = String::new();
        proof {
            assert(empty_out@ =~= tools_prompt_spec(entries));
        }
        return empty_out;
    }
    let mut out = String::from_str(MCP_TOOLS_HEADER);
    let mut i: usize = 0;
    proof {
        assert(entries.subrange(0, 0) =~= Seq::<(Seq<char>, Seq<McpToolV>)>::empty());
        assert(out@ =~= MCP_TOOLS_HEADER@.add(catalog_lines(entries.subrange(0, 0))));
    }
    while i < catalog.len()
        invariant
            0 <= i <= catalog@.len(),
            entries.len() == catalog@.len(),
            out@ == MCP_TOOLS_HEADER@.add(catalog_lines(entries.subrange(0, i as int))),
        decreases catalog@.len() - i,
    {
        let ghost server = entries[i as int].0;
        let ghost ts = entries[i as int].1;
        let mut k: usize = 0;
        proof {
            assert(ts.subrange(0, 0) =~= Seq::<McpToolV>::empty());
            assert(server_lines(server, ts.subrange(0, 0)) == Seq::<char>::empty());
            assert(out@ =~= MCP_TOOLS_HEADER@.add(
                catalog_lines(entries.subrange(0, i as int)),
            ).add(server_lines(server, ts.subrange(0, 0))));
        }
        while k < catalog[i].1.len()
            invariant
                0 <= i < catalog@.len(),
                0 <= k <= catalog@[i as int].1@.len(),
                ts.len() == catalog@[i as int].1@.len(),
                out@ == MCP_TOOLS_HEADER@.add(
                    catalog_lines(entries.subrange(0, i as int)),
                ).add(server_lines(server, ts.subrange(0, k as int))),
            decreases catalog@[i as int].1@.len() - k,
        {
            let t = &catalog[i].1[k];
            proof {
                assert(ts[k as int] == t@);
            }
            out.append("- ");
            out.append(catalog[i].0.as_str());
            crate::text::push_char(&mut out, '/');
            out.append(t.name.as_str());
            out.append(": ");
            match &t.description {
                Some(d) => {
                    let fl = first_line_of(d.as_str());
                    out.append(fl.as_str());
                },
                None => {},
            }
            crate::text::push_char(&mut out, '\n');
            proof {
                assert(ts.subrange(0, k + 1) =~= ts.subrange(0, k as int).push(ts[k as int]));
                lemma_server_lines_snoc(server, ts.subrange(0, k as int), ts[k as int]);
                assert(out@ =~= MCP_TOOLS_HEADER@.add(
                    catalog_lines(entries.subrange(0, i as int)),
                ).add(server_lines(server, ts.subrange(0, k + 1))));
            }
            k = k + 1;
        }
        proof {
            assert(ts.subrange(0, ts.len() as int) =~= ts);
            assert(entries.subrange(0, i + 1) =~= entries.subrange(0, i as int).push(
                entries[i as int],
            ));
            lemma_catalog_lines_snoc(entries.subrange(0, i as int), entries[i as int]);
            assert(out@ =~= MCP_TOOLS_HEADER@.add(
                catalog_lines(entries.subrange(0, i + 1)),
            ));
        }
        i = i + 1;
    }
    proof {
        assert(entries.subrange(0, entries.len() as int) =~= entries);
    }
    out
}

/// What a `mcp ...` command line asks for.
#[derive(Debug)]
pub enum McpCliCommand {
    /// Register a server: transport, collected headers, name, command or
    /// URL, and the remaining arguments.
    Add { transport: String, headers: Vec<(String, String)>, name: String, target: String, args: Vec<String> },
    /// Too few arguments for `add`.
    AddUsage,
    Remove { name: String },
    RemoveUsage,
    SetEnv { name: String, key: String, value: String },
    DeleteEnv { name: String, key: String },
    EnvUsage,
    List,
    Help,
    Unknown(String),
}

/// Scan the arguments of `add` from position `i`: `-t`/`--transport` takes
/// the next argument, `-H`/`--header` collects a trimmed `KEY: VALUE` pair,
/// anything else is positional.
pub open spec fn add_scan(
    args: Seq<Seq<char>>,
    i: int,
    transport: Seq<char>,
    headers: Seq<(Seq<char>, Seq<char>)>,
    positional: Seq<Seq<char>>,
) -> (Seq<char>, Seq<(Seq<char>, Seq<char>)>, Seq<Seq<char>>)
    decreases (if i < 0 {
        0int
    } else {
        args.len() - i
    }),
{
    if i < 0 || i >= args.len() {
        (transport, headers, positional)
    } else {
        let a = args[i];
        let ni = if i + 2 <= args.len() {
            i + 2
        } else {
            args.len() as int
        };
        if a == "--transport"@ || a == "-t"@ {
            let nt = if i + 1 < args.len() {
                args[i + 1]
            } else {
                transport
            };
            add_scan(args, ni, nt, headers, positional)
        } else if a == "--header"@ || a == "-H"@ {
            let nh = if i + 1 < args.len() {
                match crate::text::split_once_at(args[i + 1], ':') {
                    Some((k, v)) => kv_set(
                        headers,
                        crate::text::trim_spec(k),
                        crate::text::trim_spec(v),
                    ),
                    None => headers,
                }
            } else {
                headers
            };
            add_scan(args, ni, transport, nh, positional)
        } else {
            add_scan(args, i + 1, transport, headers, positional.push(a))
        }
    }
}

proof fn lemma_cli_words_distinct()
    ensures
        "add"@ != "remove"@ && "add"@ != "rm"@ && "add"@ != "env"@ && "add"@ != "list"@ && "add"@
            != "ls"@ && "add"@ != "help"@ && "add"@ != "-h"@ && "add"@ != "--help"@,
        "remove"@ != "rm"@ && "remove"@ != "env"@ && "remove"@ != "list"@ && "remove"@ != "ls"@
            && "remove"@ != "help"@ && "remove"@ != "-h"@ && "remove"@ != "--help"@,
        "rm"@ != "env"@ && "rm"@ != "list"@ && "rm"@ != "ls"@ && "rm"@ != "help"@ && "rm"@
            != "-h"@ && "rm"@ != "--help"@,
        "env"@ != "list"@ && "env"@ != "ls"@ && "env"@ != "help"@ && "env"@ != "-h"@ && "env"@
            != "--help"@,
        "list"@ != "ls"@ && "list"@ != "help"@ && "list"@ != "-h"@ && "list"@ != "--help"@,
        "ls"@ != "help"@ && "ls"@ != "-h"@ && "ls"@ != "--help"@,
        "help"@ != "-h"@ && "help"@ != "--help"@,
        "-h"@ != "--help"@,
        "-d"@ != "--delete"@,
{
    reveal_strlit("add");
    reveal_strlit("remove");
    reveal_strlit("rm");
    reveal_strlit("env");
    reveal_strlit("list");
    reveal_strlit("ls");
    reveal_strlit("help");
    reveal_strlit("-h");
    reveal_strlit("--help");
    reveal_strlit("-d");
    reveal_strlit("--delete");
    assert("add"@.len() == 3 && "remove"@.len() == 6 && "rm"@.len() == 2 && "env"@.len() == 3
        && "list"@.len() == 4 && "ls"@.len() == 2 && "help"@.len() == 4 && "-h"@.len() == 2
        && "--help"@.len() == 6 && "-d"@.len() == 2 && "--delete"@.len() == 8);
    assert("add"@[0] != "env"@[0]);
    assert("rm"@[0] != "ls"@[0] && "rm"@[0] != "-h"@[0] && "ls"@[0] != "-h"@[0]);
    assert("list"@[0] != "help"@[0]);
    assert("remove"@[0] != "--help"@[0]);
}

/// Interpret the arguments of the `mcp` subcommand.
#[verifier::loop_isolation(false)]
#[verifier::rlimit(100)]
pub fn parse_mcp_command(args: &Vec<String>) -> (r: McpCliCommand)
    ensures
        args@.len() == 0 ==> r is Help,
        args@.len() > 0 ==> {
            let av = args.deep_view();
            &&& (av[0] == "add"@ ==> {
                let (t, hs, pos) = add_scan(av, 1, "stdio"@, Seq::empty(), Seq::empty());
                &&& (pos.len() < 2 ==> r is AddUsage)
                &&& (pos.len() >= 2 ==> (r matches McpCliCommand::Add {
                    transport,
                    headers,
                    name,
                    target,
                    args: rest,
                } && transport@ == t && kv_view(headers@) == hs && name@ == pos[0] && target@
                    == pos[1] && rest.deep_view() == pos.subrange(2, pos.len() as int)))
            })
            &&& ((av[0] == "remove"@ || av[0] == "rm"@) ==> (av.len() < 2 ==> r is RemoveUsage)
                && (av.len() >= 2 ==> (r matches McpCliCommand::Remove { name } && name@
                == av[1])))
            &&& (av[0] == "env"@ ==> (av.len() < 3 ==> r is EnvUsage) && (av.len() >= 3 ==> (
            if av[2] == "-d"@ || av[2] == "--delete"@ {
                if av.len() < 4 {
                    r is EnvUsage
                } else {
                    r matches McpCliCommand::DeleteEnv { name, key } && name@ == av[1] && key@
                        == av[3]
                }
            } else {
                match crate::text::split_once_at(av[2], '=') {
                    Some((k, v)) => r matches McpCliCommand::SetEnv { name, key, value } && name@
                        == av[1] && key@ == k && value@ == v,
                    None => r is EnvUsage,
                }
            })))
            &&& ((av[0] == "list"@ || av[0] == "ls"@) ==> r is List)
            &&& ((av[0] == "help"@ || av[0] == "-h"@ || av[0] == "--help"@) ==> r is Help)
            &&& (!(av[0] == "add"@ || av[0] == "remove"@ || av[0] == "rm"@ || av[0] == "env"@
                || av[0] == "list"@ || av[0] == "ls"@ || av[0] == "help"@ || av[0] == "-h"@
                || av[0] == "--help"@) ==> (r matches McpCliCommand::Unknown(w) && w@ == av[0]))
        },
{
    if args.len() == 0 {
        return McpCliCommand::Help;
    }
    proof {
        lemma_cli_words_distinct();
    }
    let ghost av = args.deep_view();
    let a0 = args[0].as_str();
    if str_eq(a0, "add") {
        let mut transport = String::from_str("stdio");
        let mut headers: Vec<(String, String)> = Vec::new();
        let mut positional: Vec<String> = Vec::new();
        let mut i: usize = 1;
        proof {
            assert(kv_view(headers@) =~= Seq::<(Seq<char>, Seq<char>)>::empty());
            assert(positional.deep_view() =~= Seq::<Seq<char>>::empty());
        }
        while i < args.len()
            invariant
                1 <= i,
                av.len() == args@.len(),
                forall|q: int| 0 <= q < av.len() ==> av[q] == (#[trigger] args@[q])@,
                add_scan(av, 1, "stdio"@, Seq::empty(), Seq::empty()) == add_scan(
                    av,
                    i as int,
                    transport@,
                    kv_view(headers@),
                    positional.deep_view(),
                ),
            decreases av.len() - i,
        {
            let a = args[i].as_str();
            let ghost t0 = transport@;
            let ghost h0 = kv_view(headers@);
            let ghost p0 = positional.deep_view();
            if str_eq(a, "--transport") || str_eq(a, "-t") {
                if i + 1 < args.len() {
                    transport = args[i + 1].clone();
                }
                proof {
                    assert(add_scan(av, i as int, t0, h0, p0) == add_scan(
                        av,
                        (if i + 2 <= av.len() {
                            i + 2
                        } else {
                            av.len() as int
                        }),
                        transport@,
                        h0,
                        p0,
                    ));
                }
                if i + 1 >= args.len() {
                    i = args.len();
                } else {
                    i = i + 2;
                }
            } else if str_eq(a, "--header") || str_eq(a, "-H") {
                if i + 1 < args.len() {
                    let hv = args[i + 1].as_str();
                    match crate::text::find_char(hv, ':') {
                        Some(cpos) => {
                            proof {
                                crate::text::lemma_idx_of_is(hv@, ':', cpos as int);
                            }
                            let n2 = hv.unicode_len();
                            let kpart = crate::text::substring_of(hv, 0, cpos);
                            let vpart = crate::text::substring_of(hv, cpos + 1, n2);
                            let k = crate::text::trim_str(kpart.as_str());
                            let v = crate::text::trim_str(vpart.as_str());
                            upsert_kv(&mut headers, k.as_str(), v.as_str());
                        },
                        None => {
                            proof {
                                crate::text::lemma_idx_of_is(hv@, ':', hv@.len() as int);
                            }
                        },
                    }
                }
                proof {
                    assert(add_scan(av, i as int, t0, h0, p0) == add_scan(
                        av,
                        (if i + 2 <= av.len() {
                            i + 2
                        } else {
                            av.len() as int
                        }),
                        t0,
                        kv_view(headers@),
                        p0,
                    ));
                }
                if i + 1 >= args.len() {
                    i = args.len();
                } else {
                    i = i + 2;
                }
            } else {
                positional.push(args[i].clone());
                proof {
                    assert(positional.deep_view() =~= p0.push(av[i as int]));
                    assert(add_scan(av, i as int, t0, h0, p0) == add_scan(
                        av,
                        i + 1,
                        t0,
                        h0,
                        positional.deep_view(),
                    ));
                }
                i = i + 1;
            }
        }
        proof {
            assert(add_scan(av, i as int, transport@, kv_view(headers@), positional.deep_view())
                == (transport@, kv_view(headers@), positional.deep_view()));
        }
        if positional.len() < 2 {
            return McpCliCommand::AddUsage;
        }
        let name = positional[0].clone();
        let target = positional[1].clone();
        let mut rest: Vec<String> = Vec::new();
        let mut k: usize = 2;
        proof {
            assert(rest.deep_view() =~= positional.deep_view().subrange(2, 2));
        }
        while k < positional.len()
            invariant
                2 <= k <= positional@.len(),
                rest.deep_view() == positional.deep_view().subrange(2, k as int),
            decreases positional@.len() - k,
        {
            rest.push(positional[k].clone());
            proof {
                assert(rest.deep_view() =~= positional.deep_view().subrange(2, k + 1));
            }
            k = k + 1;
        }
        proof {
            assert(positional.deep_view().subrange(2, positional.deep_view().len() as int)
                =~= rest.deep_view());
        }
        McpCliCommand::Add { transport, headers, name, target, args: rest }
    } else if str_eq(a0, "remove") || str_eq(a0, "rm") {
        if args.len() < 2 {
            McpCliCommand::RemoveUsage
        } else {
            McpCliCommand::Remove { name: args[1].clone() }
        }
    } else if str_eq(a0, "env") {
        if args.len() < 3 {
            McpCliCommand::EnvUsage
        } else {
            let a2 = args[2].as_str();
            if str_eq(a2, "-d") || str_eq(a2, "--delete") {
                if args.len() < 4 {
                    McpCliCommand::EnvUsage
                } else {
                    McpCliCommand::DeleteEnv { name: args[1].clone(), key: args[3].clone() }
                }
            } else {
                match crate::text::find_char(a2, '=') {
                    Some(epos) => {
                        proof {
                            crate::text::lemma_idx_of_is(a2@, '=', epos as int);
                        }
                        let n2 = a2.unicode_len();
                        let key = crate::text::substring_of(a2, 0, epos);
                        let value = crate::text::substring_of(a2, epos + 1, n2);
                        McpCliCommand::SetEnv { name: args[1].clone(), key, value }
                    },
                    None => {
                        proof {
                            crate::text::lemma_idx_of_is(a2@, '=', a2@.len() as int);
                        }
                        McpCliCommand::EnvUsage
                    },
                }
            }
        }
    } else if str_eq(a0, "list") || str_eq(a0, "ls") {
        McpCliCommand::List
    } else if str_eq(a0, "help") || str_eq(a0, "-h") || str_eq(a0, "--help") {
        McpCliCommand::Help
    } else {
        McpCliCommand::Unknown(args[0].clone())
    }
}

} // verus!
