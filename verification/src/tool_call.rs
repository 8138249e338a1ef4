//! The tool-call protocol: what the model's free-form reply is parsed into,
//! and how a call is written back out as JSON.
//!
//! Parsing is lenient: the first JSON object in the reply that carries a
//! string `tool` field is decoded, whatever prose or markdown fences surround
//! it. Strictness lives downstream, in the allow-list. Serializing a
//! well-formed call and parsing the result always gives the call back.

use vstd::prelude::*;

verus! {

use crate::json::{
    Json,
    JsonModel,
    json_view,
    wf_json,
    ser,
    obj_get,
    obj_get_json,
    parse_value,
    serialize_json,
    clone_json,
    val_at,
};

/// A tool invocation requested by the model. The `tool` field discriminates;
/// the other fields carry that tool's arguments and stay empty otherwise.
#[derive(Debug)]
pub struct ToolCall {
    pub tool: String,
    pub command: String,
    pub code: String,
    pub path: String,
    pub content: String,
    pub pattern: String,
    pub directory: String,
    pub server: String,
    pub name: String,
    pub arguments: Json,
}

/// The mathematical shape of a tool call.
pub struct ToolCallV {
    pub tool: Seq<char>,
    pub command: Seq<char>,
    pub code: Seq<char>,
    pub path: Seq<char>,
    pub content: Seq<char>,
    pub pattern: Seq<char>,
    pub directory: Seq<char>,
    pub server: Seq<char>,
    pub name: Seq<char>,
    pub arguments: JsonModel,
}

impl View for ToolCall {
    type V = ToolCallV;

    open spec fn view(&self) -> ToolCallV {
        ToolCallV {
            tool: self.tool@,
            command: self.command@,
            code: self.code@,
            path: self.path@,
            content: self.content@,
            pattern: self.pattern@,
            directory: self.directory@,
            server: self.server@,
            name: self.name@,
            arguments: self.arguments@,
        }
    }
}

/// A shell command carrying one of the built-in destructive patterns.
pub open spec fn spec_destructive(tc: ToolCallV) -> bool {
    tc.tool == "run_cmd"@ && (exists|p: int|
        0 <= p < crate::config::default_danger_patterns().len() && crate::text::contains_sub(
            tc.command,
            #[trigger] crate::config::default_danger_patterns()[p],
        ))
}

/// The allow-list: the only tools the agent will dispatch.
pub open spec fn allowed_tool(t: Seq<char>) -> bool {
    ||| t == "run_cmd"@
    ||| t == "run_python"@
    ||| t == "read_file"@
    ||| t == "write_file"@
    ||| t == "search"@
    ||| t == "mcp"@
}

/// A call whose unused fields are at their defaults, as the decoder leaves
/// them; what the serializer represents faithfully.
pub open spec fn wf_tool_call(tc: ToolCallV) -> bool {
    &&& allowed_tool(tc.tool)
    &&& wf_json(tc.arguments)
    &&& (tc.tool == "run_cmd"@ ==> tc.code == Seq::<char>::empty() && tc.path
        == Seq::<char>::empty() && tc.content == Seq::<char>::empty() && tc.pattern
        == Seq::<char>::empty() && tc.directory == Seq::<char>::empty() && tc.server
        == Seq::<char>::empty() && tc.name == Seq::<char>::empty() && tc.arguments
        is Null)
    &&& (tc.tool == "run_python"@ ==> tc.command == Seq::<char>::empty() && tc.path
        == Seq::<char>::empty() && tc.content == Seq::<char>::empty() && tc.pattern
        == Seq::<char>::empty() && tc.directory == Seq::<char>::empty() && tc.server
        == Seq::<char>::empty() && tc.name == Seq::<char>::empty() && tc.arguments
        is Null)
    &&& (tc.tool == "read_file"@ ==> tc.command == Seq::<char>::empty() && tc.code
        == Seq::<char>::empty() && tc.content == Seq::<char>::empty() && tc.pattern
        == Seq::<char>::empty() && tc.directory == Seq::<char>::empty() && tc.server
        == Seq::<char>::empty() && tc.name == Seq::<char>::empty() && tc.arguments
        is Null)
    &&& (tc.tool == "write_file"@ ==> tc.command == Seq::<char>::empty() && tc.code
        == Seq::<char>::empty() && tc.pattern == Seq::<char>::empty() && tc.directory
        == Seq::<char>::empty() && tc.server == Seq::<char>::empty() && tc.name
        == Seq::<char>::empty() && tc.arguments is Null)
    &&& (tc.tool == "search"@ ==> tc.command == Seq::<char>::empty() && tc.code
        == Seq::<char>::empty() && tc.path == Seq::<char>::empty() && tc.content
        == Seq::<char>::empty() && tc.server == Seq::<char>::empty() && tc.name
        == Seq::<char>::empty() && tc.arguments is Null)
    &&& (tc.tool == "mcp"@ ==> tc.command == Seq::<char>::empty() && tc.code
        == Seq::<char>::empty() && tc.path == Seq::<char>::empty() && tc.content
        == Seq::<char>::empty() && tc.pattern == Seq::<char>::empty() && tc.directory
        == Seq::<char>::empty())
}

/// A call naming a tool off the allow-list, with every argument field at its
/// default — what decoding a bare `{"tool": ...}` object yields.
pub open spec fn wf_unknown_call(tc: ToolCallV) -> bool {
    &&& !allowed_tool(tc.tool)
    &&& tc.command == Seq::<char>::empty()
    &&& tc.code == Seq::<char>::empty()
    &&& tc.path == Seq::<char>::empty()
    &&& tc.content == Seq::<char>::empty()
    &&& tc.pattern == Seq::<char>::empty()
    &&& tc.directory == Seq::<char>::empty()
    &&& tc.server == Seq::<char>::empty()
    &&& tc.name == Seq::<char>::empty()
    &&& tc.arguments is Null
}

/// A call the parser stages, allow-listed or not; the allow-list is
/// enforced downstream, when the call is applied.
pub open spec fn staged_call(tc: ToolCallV) -> bool {
    wf_tool_call(tc) || wf_unknown_call(tc)
}

/// The text embeds the canonical form of `tc` right after a brace-free
/// prefix, with anything at all following.
pub open spec fn embedded_call(
    s: Seq<char>,
    tc: ToolCallV,
    prefix: Seq<char>,
    suffix: Seq<char>,
) -> bool {
    &&& staged_call(tc)
    &&& s == prefix.add(ser_tool_call(tc)).add(suffix)
    &&& forall|q: int| 0 <= q < prefix.len() ==> prefix[q] != '{'
}

/// The canonical JSON object for a call: the discriminator first, then that
/// tool's own fields.
pub open spec fn json_of_tc(tc: ToolCallV) -> JsonModel {
    if tc.tool == "run_cmd"@ {
        JsonModel::Obj(
            seq![
                ("tool"@, JsonModel::Str(tc.tool)),
                ("command"@, JsonModel::Str(tc.command)),
            ],
        )
    } else if tc.tool == "run_python"@ {
        JsonModel::Obj(
            seq![("tool"@, JsonModel::Str(tc.tool)), ("code"@, JsonModel::Str(tc.code))],
        )
    } else if tc.tool == "read_file"@ {
        JsonModel::Obj(
            seq![("tool"@, JsonModel::Str(tc.tool)), ("path"@, JsonModel::Str(tc.path))],
        )
    } else if tc.tool == "write_file"@ {
        JsonModel::Obj(
            seq![
                ("tool"@, JsonModel::Str(tc.tool)),
                ("path"@, JsonModel::Str(tc.path)),
                ("content"@, JsonModel::Str(tc.content)),
            ],
        )
    } else if tc.tool == "search"@ {
        JsonModel::Obj(
            seq![
                ("tool"@, JsonModel::Str(tc.tool)),
                ("pattern"@, JsonModel::Str(tc.pattern)),
                ("directory"@, JsonModel::Str(tc.directory)),
            ],
        )
    } else if tc.tool == "mcp"@ {
        JsonModel::Obj(
            seq![
                ("tool"@, JsonModel::Str(tc.tool)),
                ("server"@, JsonModel::Str(tc.server)),
                ("name"@, JsonModel::Str(tc.name)),
                ("arguments"@, tc.arguments),
            ],
        )
    } else {
        JsonModel::Obj(seq![("tool"@, JsonModel::Str(tc.tool))])
    }
}

/// The wire text of a call.
pub open spec fn ser_tool_call(tc: ToolCallV) -> Seq<char> {
    ser(json_of_tc(tc))
}

/// A string field of an object: absent means empty, present must be a string.
pub open spec fn field_str_or_empty(
    fs: Seq<(Seq<char>, JsonModel)>,
    key: Seq<char>,
) -> Option<Seq<char>> {
    match obj_get(fs, key) {
        Option::None => Some(Seq::<char>::empty()),
        Option::Some(JsonModel::Str(x)) => Some(x),
        Option::Some(_) => None,
    }
}

/// Decode an object's members into a call: `tool` must be a string, the
/// known argument fields must be strings where present, `arguments` is kept
/// as it is.
pub open spec fn tc_of_obj(fs: Seq<(Seq<char>, JsonModel)>) -> Option<ToolCallV> {
    match obj_get(fs, "tool"@) {
        Option::Some(JsonModel::Str(t)) => {
            if field_str_or_empty(fs, "command"@) is Some && field_str_or_empty(fs, "code"@)
                is Some && field_str_or_empty(fs, "path"@) is Some && field_str_or_empty(
                fs,
                "content"@,
            ) is Some && field_str_or_empty(fs, "pattern"@) is Some && field_str_or_empty(
                fs,
                "directory"@,
            ) is Some && field_str_or_empty(fs, "server"@) is Some && field_str_or_empty(
                fs,
                "name"@,
            ) is Some {
                Some(
                    ToolCallV {
                        tool: t,
                        command: field_str_or_empty(fs, "command"@)->Some_0,
                        code: field_str_or_empty(fs, "code"@)->Some_0,
                        path: field_str_or_empty(fs, "path"@)->Some_0,
                        content: field_str_or_empty(fs, "content"@)->Some_0,
                        pattern: field_str_or_empty(fs, "pattern"@)->Some_0,
                        directory: field_str_or_empty(fs, "directory"@)->Some_0,
                        server: field_str_or_empty(fs, "server"@)->Some_0,
                        name: field_str_or_empty(fs, "name"@)->Some_0,
                        arguments: match obj_get(fs, "arguments"@) {
                            Option::None => JsonModel::Null,
                            Option::Some(v) => v,
                        },
                    },
                )
            } else {
                None
            }
        },
        _ => None,
    }
}

/// What a model reply parses into: a structured call, or the reply itself.
#[derive(Debug)]
pub enum ParsedResponse {
    ToolCall(Box<ToolCall>),
    TextResponse(String),
}

impl ToolCall {
    /// Copy a call.
    pub fn clone_call(&self) -> (r: ToolCall)
        ensures
            r@ == self@,
    {
        ToolCall {
            tool: self.tool.clone(),
            command: self.command.clone(),
            code: self.code.clone(),
            path: self.path.clone(),
            content: self.content.clone(),
            pattern: self.pattern.clone(),
            directory: self.directory.clone(),
            server: self.server.clone(),
            name: self.name.clone(),
            arguments: clone_json(&self.arguments),
        }
    }

    /// Is this an MCP call?
    pub fn is_mcp(&self) -> (r: bool)
        ensures
            r == (self@.tool == "mcp"@),
    {
        crate::text::str_eq(self.tool.as_str(), "mcp")
    }

    /// Is this a shell command?
    pub fn is_run_cmd(&self) -> (r: bool)
        ensures
            r == (self@.tool == "run_cmd"@),
    {
        crate::text::str_eq(self.tool.as_str(), "run_cmd")
    }

    /// Is the tool on the allow-list?
    pub fn is_allowed_tool(&self) -> (r: bool)
        ensures
            r == allowed_tool(self@.tool),
    {
        crate::text::str_eq(self.tool.as_str(), "run_cmd") || crate::text::str_eq(
            self.tool.as_str(),
            "run_python",
        ) || crate::text::str_eq(self.tool.as_str(), "read_file") || crate::text::str_eq(
            self.tool.as_str(),
            "write_file",
        ) || crate::text::str_eq(self.tool.as_str(), "search") || crate::text::str_eq(
            self.tool.as_str(),
            "mcp",
        )
    }

    /// Does a shell command carry one of the built-in destructive patterns?
    #[verifier::loop_isolation(false)]
    pub fn is_destructive(&self) -> (r: bool)
        ensures
            r == spec_destructive(self@),
    {
        if !self.is_run_cmd() {
            return false;
        }
        let cfg = crate::config::Config::default();
        let patterns = cfg.dangerous_patterns;
        let ghost pats = crate::config::default_danger_patterns();
        let mut i: usize = 0;
        while i < patterns.len()
            invariant
                0 <= i <= patterns@.len(),
                patterns.deep_view() == pats,
                patterns@.len() == pats.len(),
                self@.tool == "run_cmd"@,
                forall|p: int|
                    0 <= p < i ==> !crate::text::contains_sub(self@.command, #[trigger] pats[p]),
            decreases patterns@.len() - i,
        {
            proof {
                assert(patterns@[i as int]@ == pats[i as int]);
            }
            if crate::text::contains_str(self.command.as_str(), patterns[i].as_str()) {
                proof {
                    assert(0 <= i < crate::config::default_danger_patterns().len()
                        && crate::text::contains_sub(
                        self@.command,
                        crate::config::default_danger_patterns()[i as int],
                    ));
                }
                return true;
            }
            i = i + 1;
        }
        proof {
            assert(forall|p: int|
                0 <= p < crate::config::default_danger_patterns().len()
                    ==> !crate::text::contains_sub(
                    self@.command,
                    #[trigger] crate::config::default_danger_patterns()[p],
                ));
        }
        false
    }
}

/// Decode a parsed JSON value into a call.
pub fn tool_call_of_json(j: &Json) -> (r: Option<ToolCall>)
    ensures
        j@ matches JsonModel::Obj(fs) ==> (match r {
            Some(tc) => tc_of_obj(fs) == Some(tc@),
            None => tc_of_obj(fs) is None,
        }),
        !(j@ is Obj) ==> r is None,
{
    match j {
        Json::Obj(_) => {},
        _ => {
            return None;
        },
    }
    let tool: String = match obj_get_json(j, "tool") {
        Some(Json::Str(t)) => t.clone(),
        Some(_) => {
            return None;
        },
        None => {
            return None;
        },
    };
    let command: String = match obj_get_json(j, "command") {
        Some(Json::Str(x)) => x.clone(),
        Some(_) => {
            return None;
        },
        None => String::new(),
    };
    let code: String = match obj_get_json(j, "code") {
        Some(Json::Str(x)) => x.clone(),
        Some(_) => {
            return None;
        },
        None => String::new(),
    };
    let path: String = match obj_get_json(j, "path") {
        Some(Json::Str(x)) => x.clone(),
        Some(_) => {
            return None;
        },
        None => String::new(),
    };
    let content: String = match obj_get_json(j, "content") {
        Some(Json::Str(x)) => x.clone(),
        Some(_) => {
            return None;
        },
        None => String::new(),
    };
    let pattern: String = match obj_get_json(j, "pattern") {
        Some(Json::Str(x)) => x.clone(),
        Some(_) => {
            return None;
        },
        None => String::new(),
    };
    let directory: String = match obj_get_json(j, "directory") {
        Some(Json::Str(x)) => x.clone(),
        Some(_) => {
            return None;
        },
        None => String::new(),
    };
    let server: String = match obj_get_json(j, "server") {
        Some(Json::Str(x)) => x.clone(),
        Some(_) => {
            return None;
        },
        None => String::new(),
    };
    let name: String = match obj_get_json(j, "name") {
        Some(Json::Str(x)) => x.clone(),
        Some(_) => {
            return None;
        },
        None => String::new(),
    };
    let arguments: Json = match obj_get_json(j, "arguments") {
        Some(v) => clone_json(v),
        None => Json::Null,
    };
    Some(
        ToolCall {
            tool,
            command,
            code,
            path,
            content,
            pattern,
            directory,
            server,
            name,
            arguments,
        },
    )
}

/// Write a call back out as its canonical JSON object.
pub fn json_of_tool_call(tc: &ToolCall) -> (r: Json)
    ensures
        r@ == json_of_tc(tc@),
{
    let mut fields: Vec<(String, Json)> = Vec::new();
    fields.push((String::from_str("tool"), Json::Str(tc.tool.clone())));
    if crate::text::str_eq(tc.tool.as_str(), "run_cmd") {
        fields.push((String::from_str("command"), Json::Str(tc.command.clone())));
    } else if crate::text::str_eq(tc.tool.as_str(), "run_python") {
        fields.push((String::from_str("code"), Json::Str(tc.code.clone())));
    } else if crate::text::str_eq(tc.tool.as_str(), "read_file") {
        fields.push((String::from_str("path"), Json::Str(tc.path.clone())));
    } else if crate::text::str_eq(tc.tool.as_str(), "write_file") {
        fields.push((String::from_str("path"), Json::Str(tc.path.clone())));
        fields.push((String::from_str("content"), Json::Str(tc.content.clone())));
    } else if crate::text::str_eq(tc.tool.as_str(), "search") {
        fields.push((String::from_str("pattern"), Json::Str(tc.pattern.clone())));
        fields.push((String::from_str("directory"), Json::Str(tc.directory.clone())));
    } else if crate::text::str_eq(tc.tool.as_str(), "mcp") {
        fields.push((String::from_str("server"), Json::Str(tc.server.clone())));
        fields.push((String::from_str("name"), Json::Str(tc.name.clone())));
        fields.push((String::from_str("arguments"), clone_json(&tc.arguments)));
    }
    let r = Json::Obj(fields);
    proof {
        assert(json_view(fields@[0].1) == JsonModel::Str(tc.tool@));
        if tc.tool@ == "run_cmd"@ {
            assert(json_view(fields@[1].1) == JsonModel::Str(tc.command@));
            assert(r@->Obj_0 =~= json_of_tc(tc@)->Obj_0);
        } else if tc.tool@ == "run_python"@ {
            assert(json_view(fields@[1].1) == JsonModel::Str(tc.code@));
            assert(r@->Obj_0 =~= json_of_tc(tc@)->Obj_0);
        } else if tc.tool@ == "read_file"@ {
            assert(json_view(fields@[1].1) == JsonModel::Str(tc.path@));
            assert(r@->Obj_0 =~= json_of_tc(tc@)->Obj_0);
        } else if tc.tool@ == "write_file"@ {
            assert(json_view(fields@[1].1) == JsonModel::Str(tc.path@));
            assert(json_view(fields@[2].1) == JsonModel::Str(tc.content@));
            assert(r@->Obj_0 =~= json_of_tc(tc@)->Obj_0);
        } else if tc.tool@ == "search"@ {
            assert(json_view(fields@[1].1) == JsonModel::Str(tc.pattern@));
            assert(json_view(fields@[2].1) == JsonModel::Str(tc.directory@));
            assert(r@->Obj_0 =~= json_of_tc(tc@)->Obj_0);
        } else if tc.tool@ == "mcp"@ {
            assert(json_view(fields@[1].1) == JsonModel::Str(tc.server@));
            assert(json_view(fields@[2].1) == JsonModel::Str(tc.name@));
            assert(json_view(fields@[3].1) == tc.arguments@);
            assert(r@->Obj_0 =~= json_of_tc(tc@)->Obj_0);
        } else {
            assert(r@->Obj_0 =~= json_of_tc(tc@)->Obj_0);
        }
    }
    r
}

/// Write a call as wire text.
pub fn serialize_tool_call(tc: &ToolCall) -> (r: String)
    ensures
        r@ == ser_tool_call(tc@),
{
    let j = json_of_tool_call(tc);
    serialize_json(&j)
}

proof fn lemma_obj_get_concrete(fs: Seq<(Seq<char>, JsonModel)>)
    requires
        fs.len() <= 4,
    ensures
        forall|key: Seq<char>| #[trigger]
            obj_get(fs, key) == (if fs.len() > 0 && fs[0].0 == key {
                Some(fs[0].1)
            } else if fs.len() > 1 && fs[1].0 == key {
                Some(fs[1].1)
            } else if fs.len() > 2 && fs[2].0 == key {
                Some(fs[2].1)
            } else if fs.len() > 3 && fs[3].0 == key {
                Some(fs[3].1)
            } else {
                None
            }),
{
    assert forall|key: Seq<char>| #[trigger]
        obj_get(fs, key) == (if fs.len() > 0 && fs[0].0 == key {
            Some(fs[0].1)
        } else if fs.len() > 1 && fs[1].0 == key {
            Some(fs[1].1)
        } else if fs.len() > 2 && fs[2].0 == key {
            Some(fs[2].1)
        } else if fs.len() > 3 && fs[3].0 == key {
            Some(fs[3].1)
        } else {
            None
        }) by {
        if fs.len() > 0 {
            let t1 = fs.subrange(1, fs.len() as int);
            assert(obj_get(fs, key) == (if fs[0].0 == key {
                Some(fs[0].1)
            } else {
                obj_get(t1, key)
            }));
            if fs.len() > 1 {
                assert(t1[0] == fs[1]);
                let t2 = t1.subrange(1, t1.len() as int);
                assert(t2 =~= fs.subrange(2, fs.len() as int));
                assert(obj_get(t1, key) == (if fs[1].0 == key {
                    Some(fs[1].1)
                } else {
                    obj_get(t2, key)
                }));
                if fs.len() > 2 {
                    assert(t2[0] == fs[2]);
                    let t3 = t2.subrange(1, t2.len() as int);
                    assert(t3 =~= fs.subrange(3, fs.len() as int));
                    assert(obj_get(t2, key) == (if fs[2].0 == key {
                        Some(fs[2].1)
                    } else {
                        obj_get(t3, key)
                    }));
                    if fs.len() > 3 {
                        assert(t3[0] == fs[3]);
                        let t4 = t3.subrange(1, t3.len() as int);
                        assert(t4 =~= fs.subrange(4, fs.len() as int));
                        assert(t4.len() == 0);
                        assert(obj_get(t3, key) == (if fs[3].0 == key {
                            Some(fs[3].1)
                        } else {
                            obj_get(t4, key)
                        }));
                        assert(obj_get(t4, key) is None);
                    } else {
                        assert(t3.len() == 0);
                        assert(obj_get(t3, key) is None);
                    }
                } else {
                    assert(t2.len() == 0);
                    assert(obj_get(t2, key) is None);
                }
            } else {
                assert(t1.len() == 0);
                assert(obj_get(t1, key) is None);
            }
        }
    }
}

proof fn lemma_tc_keys_distinct()
    ensures
        "tool"@ != "command"@ && "tool"@ != "code"@ && "tool"@ != "path"@ && "tool"@
            != "content"@ && "tool"@ != "pattern"@ && "tool"@ != "directory"@ && "tool"@
            != "server"@ && "tool"@ != "name"@ && "tool"@ != "arguments"@,
        "command"@ != "code"@ && "command"@ != "path"@ && "command"@ != "content"@ && "command"@
            != "pattern"@ && "command"@ != "directory"@ && "command"@ != "server"@ && "command"@
            != "name"@ && "command"@ != "arguments"@,
        "code"@ != "path"@ && "code"@ != "content"@ && "code"@ != "pattern"@ && "code"@
            != "directory"@ && "code"@ != "server"@ && "code"@ != "name"@ && "code"@
            != "arguments"@,
        "path"@ != "content"@ && "path"@ != "pattern"@ && "path"@ != "directory"@ && "path"@
            != "server"@ && "path"@ != "name"@ && "path"@ != "arguments"@,
        "content"@ != "pattern"@ && "content"@ != "directory"@ && "content"@ != "server"@
            && "content"@ != "name"@ && "content"@ != "arguments"@,
        "pattern"@ != "directory"@ && "pattern"@ != "server"@ && "pattern"@ != "name"@
            && "pattern"@ != "arguments"@,
        "directory"@ != "server"@ && "directory"@ != "name"@ && "directory"@ != "arguments"@,
        "server"@ != "name"@ && "server"@ != "arguments"@,
        "name"@ != "arguments"@,
{
    broadcast use vstd::string::group_string_axioms;

    reveal_strlit("tool");
    reveal_strlit("command");
    reveal_strlit("code");
    reveal_strlit("path");
    reveal_strlit("content");
    reveal_strlit("pattern");
    reveal_strlit("directory");
    reveal_strlit("server");
    reveal_strlit("name");
    reveal_strlit("arguments");
    assert("tool"@.len() == 4);
    assert("command"@.len() == 7);
    assert("code"@.len() == 4);
    assert("path"@.len() == 4);
    assert("content"@.len() == 7);
    assert("pattern"@.len() == 7);
    assert("directory"@.len() == 9);
    assert("server"@.len() == 6);
    assert("name"@.len() == 4);
    assert("arguments"@.len() == 9);
    assert("code"@[0] != "tool"@[0]);
    assert("path"@[0] != "tool"@[0]);
    assert("code"@[0] != "path"@[0]);
    assert("code"@[0] != "name"@[0]);
    assert("path"@[0] != "name"@[0]);
    assert("tool"@[0] != "name"@[0]);
    assert("pattern"@[0] != "content"@[0]);
    assert("server"@[0] != "pattern"@[0]);
    assert("content"@[0] != "server"@[0]);
    assert("command"@[2] != "content"@[2]);
    assert("command"@[0] != "pattern"@[0]);
    assert("directory"@[0] != "arguments"@[0]);
}

/// Decoding the canonical object of a staged call gives the call back,
/// whether or not its tool is on the allow-list.
pub proof fn lemma_tool_call_round_trip(tc: ToolCallV)
    requires
        staged_call(tc),
    ensures
        wf_json(json_of_tc(tc)),
        json_of_tc(tc) matches JsonModel::Obj(fs) && tc_of_obj(fs) == Some(tc),
{
    lemma_tc_keys_distinct();
    reveal_strlit("run_cmd");
    reveal_strlit("run_python");
    reveal_strlit("read_file");
    reveal_strlit("write_file");
    reveal_strlit("search");
    reveal_strlit("mcp");
    assert("run_cmd"@ != "run_python"@ && "run_cmd"@ != "read_file"@ && "run_cmd"@
        != "write_file"@ && "run_cmd"@ != "search"@ && "run_cmd"@ != "mcp"@) by {
        assert("run_cmd"@.len() != "run_python"@.len());
        assert("run_cmd"@.len() != "read_file"@.len());
        assert("run_cmd"@.len() != "write_file"@.len());
        assert("run_cmd"@.len() != "search"@.len());
        assert("run_cmd"@.len() != "mcp"@.len());
    }
    assert("run_python"@ != "read_file"@ && "run_python"@ != "write_file"@ && "run_python"@
        != "search"@ && "run_python"@ != "mcp"@) by {
        assert("run_python"@.len() != "read_file"@.len());
        assert("run_python"@[0] != "write_file"@[0]);
        assert("run_python"@.len() != "search"@.len());
        assert("run_python"@.len() != "mcp"@.len());
    }
    assert("read_file"@ != "write_file"@ && "read_file"@ != "search"@ && "read_file"@ != "mcp"@)
        by {
        assert("read_file"@.len() != "write_file"@.len());
        assert("read_file"@.len() != "search"@.len());
        assert("read_file"@.len() != "mcp"@.len());
    }
    assert("write_file"@ != "search"@ && "write_file"@ != "mcp"@) by {
        assert("write_file"@.len() != "search"@.len());
        assert("write_file"@.len() != "mcp"@.len());
    }
    assert("search"@ != "mcp"@) by {
        assert("search"@.len() != "mcp"@.len());
    }
    let m = json_of_tc(tc);
    let fs = m->Obj_0;
    lemma_obj_get_concrete(fs);
    assert(wf_json(m)) by {
        assert(forall|i: int| 0 <= i < fs.len() ==> wf_json(#[trigger] fs[i].1));
    }
    assert(obj_get(fs, "tool"@) == Some(JsonModel::Str(tc.tool)));
    assert(tc_of_obj(fs) == Some(tc));
}

impl ParsedResponse {
    /// Extract a tool call from a model reply: scan for the first JSON
    /// object carrying a string `tool` field; decode it, or fall back to the
    /// reply as plain text. A reply with no brace is always plain text. A
    /// reply that carries the canonical text of a staged call after any
    /// brace-free prose (a markdown fence opening, an explanation) always
    /// comes back as exactly that call, whatever follows it.
    #[verifier::loop_isolation(false)]
    #[verifier::rlimit(100)]
    pub fn parse(reply: &str) -> (r: ParsedResponse)
        ensures
            r matches ParsedResponse::TextResponse(t) ==> t@ == reply@,
            (forall|q: int| 0 <= q < reply@.len() ==> reply@[q] != '{') ==> (r matches
                ParsedResponse::TextResponse(t) && t@ == reply@),
            forall|tc: ToolCallV|
                wf_tool_call(tc) && reply@ == ser_tool_call(tc) ==> (r matches
                    ParsedResponse::ToolCall(c) && c@ == tc),
            forall|tc: ToolCallV, prefix: Seq<char>, suffix: Seq<char>|
                embedded_call(reply@, tc, prefix, suffix) ==> (r matches
                    ParsedResponse::ToolCall(c) && c@ == tc),
    {
        let cs = crate::text::chars_of(reply);
        let ghost s = cs@;
        proof {
            // the whole-reply case is the embedded case with nothing around
            assert forall|tc: ToolCallV|
                wf_tool_call(tc) && reply@ == ser_tool_call(tc) implies embedded_call(
                s,
                tc,
                Seq::<char>::empty(),
                Seq::<char>::empty(),
            ) by {
                assert(reply@ =~= Seq::<char>::empty().add(ser_tool_call(tc)).add(
                    Seq::<char>::empty(),
                ));
            }
            // where the embedded call starts, what stands there, and that
            // the prefix ends before the text does
            assert forall|tc: ToolCallV, prefix: Seq<char>, suffix: Seq<char>|
                embedded_call(s, tc, prefix, suffix) implies (val_at(
                s,
                prefix.len() as int,
                json_of_tc(tc),
                suffix,
            ) && prefix.len() < s.len() && s[prefix.len() as int] == '{') by {
                lemma_tool_call_round_trip(tc);
                crate::json::lemma_ser_head(json_of_tc(tc));
                assert(s =~= prefix.add(ser_tool_call(tc).add(suffix)));
                assert(s.subrange(0, s.len() as int) =~= s);
                crate::json::lemma_tail_shift(s, 0, prefix, ser_tool_call(tc).add(suffix));
                assert(s.subrange(prefix.len() as int, s.len() as int) == ser_tool_call(tc).add(
                    suffix,
                ));
                assert(s[prefix.len() as int + 0] == s.subrange(
                    prefix.len() as int,
                    s.len() as int,
                )[0]);
            }
        }
        let mut idx: usize = 0;
        while idx < cs.len()
            invariant
                0 <= idx <= s.len(),
                forall|tc: ToolCallV, prefix: Seq<char>, suffix: Seq<char>| #[trigger]
                    embedded_call(s, tc, prefix, suffix) ==> idx <= prefix.len(),
            decreases s.len() - idx,
        {
            if cs[idx] == '{' {
                proof {
                    // any embedded call starts exactly here: its brace-free
                    // prefix cannot hold this brace
                    assert forall|tc: ToolCallV, prefix: Seq<char>, suffix: Seq<char>|
                        embedded_call(s, tc, prefix, suffix) implies prefix.len() == idx by {
                        if idx < prefix.len() {
                            assert(s[idx as int] == prefix.add(ser_tool_call(tc).add(suffix))[
                                idx as int]);
                            assert(s =~= prefix.add(ser_tool_call(tc).add(suffix)));
                            assert(s[idx as int] == prefix[idx as int]);
                        }
                    }
                }
                let (o, _end) = parse_value(&cs, idx);
                match o {
                    Some(v) => {
                        let tool_field = obj_get_json(&v, "tool");
                        let is_candidate = match tool_field {
                            Some(Json::Str(_)) => true,
                            _ => false,
                        };
                        if is_candidate {
                            proof {
                                assert forall|tc: ToolCallV, prefix: Seq<char>, suffix: Seq<char>|
                                    embedded_call(s, tc, prefix, suffix) implies v@ == json_of_tc(
                                    tc,
                                ) by {
                                    lemma_tool_call_round_trip(tc);
                                    assert(val_at(s, idx as int, json_of_tc(tc), suffix));
                                }
                            }
                            match tool_call_of_json(&v) {
                                Some(tc) => {
                                    proof {
                                        assert forall|
                                            t2: ToolCallV,
                                            prefix: Seq<char>,
                                            suffix: Seq<char>,
                                        |
                                            embedded_call(s, t2, prefix, suffix) implies tc@
                                            == t2 by {
                                            lemma_tool_call_round_trip(t2);
                                        }
                                    }
                                    return ParsedResponse::ToolCall(Box::new(tc));
                                },
                                None => {
                                    proof {
                                        assert forall|
                                            t2: ToolCallV,
                                            prefix: Seq<char>,
                                            suffix: Seq<char>,
                                        | !embedded_call(s, t2, prefix, suffix) by {
                                            if embedded_call(s, t2, prefix, suffix) {
                                                lemma_tool_call_round_trip(t2);
                                            }
                                        }
                                    }
                                    return ParsedResponse::TextResponse(reply.to_owned());
                                },
                            }
                        } else {
                            proof {
                                assert forall|tc: ToolCallV, prefix: Seq<char>, suffix: Seq<char>|
                                    !embedded_call(s, tc, prefix, suffix) by {
                                    if embedded_call(s, tc, prefix, suffix) {
                                        lemma_tool_call_round_trip(tc);
                                        assert(val_at(s, idx as int, json_of_tc(tc), suffix));
                                        assert(v@ == json_of_tc(tc));
                                        assert(obj_get(json_of_tc(tc)->Obj_0, "tool"@) == Some(
                                            JsonModel::Str(tc.tool),
                                        ));
                                        match tool_field {
                                            Option::Some(x) => {
                                                crate::json::lemma_view_variant(*x);
                                            },
                                            Option::None => {},
                                        }
                                    }
                                }
                            }
                        }
                    },
                    None => {
                        proof {
                            assert forall|tc: ToolCallV, prefix: Seq<char>, suffix: Seq<char>|
                                !embedded_call(s, tc, prefix, suffix) by {
                                if embedded_call(s, tc, prefix, suffix) {
                                    assert(val_at(s, idx as int, json_of_tc(tc), suffix));
                                }
                            }
                        }
                    },
                }
            }
            proof {
                assert forall|tc: ToolCallV, prefix: Seq<char>, suffix: Seq<char>|
                    embedded_call(s, tc, prefix, suffix) implies idx + 1 <= prefix.len() by {
                    if prefix.len() == idx {
                        assert(s[prefix.len() as int] == '{');
                    }
                }
            }
            idx = idx + 1;
        }
        proof {
            assert forall|tc: ToolCallV, prefix: Seq<char>, suffix: Seq<char>| !embedded_call(
                s,
                tc,
                prefix,
                suffix,
            ) by {
                if embedded_call(s, tc, prefix, suffix) {
                    assert(prefix.len() < s.len());
                    assert(idx <= prefix.len());
                }
            }
        }
        ParsedResponse::TextResponse(reply.to_owned())
    }
}

} // verus!
