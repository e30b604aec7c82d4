//! Decisions of the JSON-RPC tool server: what a request method asks for,
//! the registry of tools and how a call to one is carried out, and the error
//! bodies of the protocol. Reading requests, running handlers and writing
//! responses happen outside.
use vstd::prelude::*;
use crate::error::{str_views, ToolError};
use crate::search::strings_view;
use crate::text::{owned, push_str, ranges_text, split_char, split_ranges, str_eq, string_of, to_chars};

verus! {

// ─── Requests ───────────────────────────────────────────────

/// What a request method asks the server for.
#[derive(Clone, Copy, Debug, PartialEq, Eq, Structural)]
pub enum Route {
    /// The handshake: answered with the server's description.
    Initialize,
    /// The list of tools.
    ListTools,
    /// A call of one tool.
    CallTool,
    /// The client's notice that it is ready: not answered.
    Initialized,
    /// Any other method: answered with a method-not-found error.
    Unknown,
}

/// The route of a method name.
pub open spec fn route_of(method: Seq<char>) -> Route {
    if method == "initialize"@ {
        Route::Initialize
    } else if method == "tools/list"@ {
        Route::ListTools
    } else if method == "tools/call"@ {
        Route::CallTool
    } else if method == "notifications/initialized"@ {
        Route::Initialized
    } else {
        Route::Unknown
    }
}

/// Routes a request by its method name.
pub fn route(method: &str) -> (r: Route)
    ensures
        r == route_of(method@),
{
    if str_eq(method, "initialize") {
        Route::Initialize
    } else if str_eq(method, "tools/list") {
        Route::ListTools
    } else if str_eq(method, "tools/call") {
        Route::CallTool
    } else if str_eq(method, "notifications/initialized") {
        Route::Initialized
    } else {
        Route::Unknown
    }
}

/// A protocol error: its JSON-RPC code and message.
pub struct RpcError {
    pub code: i64,
    pub message: String,
}

/// The error for a request line that is not valid JSON-RPC.
pub fn parse_error(msg: &str) -> (e: RpcError)
    ensures
        e.code == -32700,
        e.message@ == msg@,
{
    RpcError { code: -32700, message: owned(msg) }
}

/// The error for a method the server does not have.
pub fn method_not_found(method: &str) -> (e: RpcError)
    ensures
        e.code == -32601,
        e.message@ == "Method not found: "@ + method@,
{
    let mut message = owned("Method not found: ");
    push_str(&mut message, method);
    RpcError { code: -32601, message }
}

// ─── The registry ───────────────────────────────────────────

/// The description registered last for `name`, if any.
pub open spec fn desc_of(descs: Seq<(String, String)>, name: Seq<char>) -> Option<Seq<char>>
    decreases descs.len(),
{
    if descs.len() == 0 {
        None
    } else if descs.last().0@ == name {
        Some(descs.last().1@)
    } else {
        desc_of(descs.drop_last(), name)
    }
}

/// The tools of the server, in the order of registration (a name may be
/// registered more than once; calls go to the first), with their
/// descriptions (a later description of a name replaces an earlier one).
pub struct ToolRegistry {
    names: Vec<String>,
    descriptions: Vec<(String, String)>,
}

impl ToolRegistry {
    /// The names of the tools, in order of registration.
    pub closed spec fn tool_names(&self) -> Seq<Seq<char>> {
        strings_view(self.names@)
    }

    /// The description of a tool, if it has one.
    pub closed spec fn description(&self, name: Seq<char>) -> Option<Seq<char>> {
        desc_of(self.descriptions@, name)
    }

    /// A registry without tools.
    pub fn new() -> (r: ToolRegistry)
        ensures
            r.tool_names().len() == 0,
            forall|n: Seq<char>| r.description(n) is None,
    {
        ToolRegistry { names: Vec::new(), descriptions: Vec::new() }
    }

    /// Registers a tool without a description; returns its position.
    pub fn register(&mut self, name: &str) -> (idx: usize)
        ensures
            idx == old(self).tool_names().len(),
            final(self).tool_names() == old(self).tool_names().push(name@),
            forall|n: Seq<char>| final(self).description(n) == old(self).description(n),
    {
        let idx = self.names.len();
        let ghost before = self.names@;
        self.names.push(owned(name));
        proof {
            assert(strings_view(self.names@) =~= strings_view(before).push(name@));
        }
        idx
    }

    /// Registers a tool with a description; returns its position.
    pub fn register_with_desc(&mut self, name: &str, description: &str) -> (idx: usize)
        ensures
            idx == old(self).tool_names().len(),
            final(self).tool_names() == old(self).tool_names().push(name@),
            final(self).description(name@) == Some(description@),
            forall|n: Seq<char>| n != name@ ==> final(self).description(n) == old(self).description(n),
    {
        let ghost d0 = self.descriptions@;
        self.descriptions.push((owned(name), owned(description)));
        proof {
            assert(self.descriptions@.drop_last() =~= d0);
        }
        self.register(name)
    }

    /// The description of a tool, or the empty text when it has none.
    pub fn description_text(&self, name: &str) -> (r: String)
        ensures
            r@ == match self.description(name@) {
                Some(d) => d,
                None => Seq::empty(),
            },
    {
        let mut i = self.descriptions.len();
        proof {
            assert(self.descriptions@.take(i as int) =~= self.descriptions@);
        }
        while i > 0
            invariant
                i <= self.descriptions@.len(),
                desc_of(self.descriptions@, name@) == desc_of(self.descriptions@.take(i as int), name@),
            decreases i,
        {
            proof {
                assert(self.descriptions@.take(i as int).drop_last() =~= self.descriptions@.take(i - 1));
                assert(self.descriptions@.take(i as int).last() == self.descriptions@[i - 1]);
            }
            if str_eq(self.descriptions[i - 1].0.as_str(), name) {
                return owned(self.descriptions[i - 1].1.as_str());
            }
            i = i - 1;
        }
        String::new()
    }

    /// The tool list: each registered tool, in order, with its description
    /// (empty when it has none).
    pub fn list_tools(&self) -> (res: Vec<(String, String)>)
        ensures
            res@.len() == self.tool_names().len(),
            forall|i: int|
                0 <= i < res@.len() ==> (#[trigger] res@[i]).0@ == self.tool_names()[i] && res@[i].1@ == match self.description(
                    self.tool_names()[i],
                ) {
                    Some(d) => d,
                    None => Seq::empty(),
                },
    {
        let mut out: Vec<(String, String)> = Vec::new();
        let mut i: usize = 0;
        while i < self.names.len()
            invariant
                i <= self.names@.len(),
                out@.len() == i,
                forall|q: int|
                    0 <= q < i ==> (#[trigger] out@[q]).0@ == self.tool_names()[q] && out@[q].1@ == match self.description(
                        self.tool_names()[q],
                    ) {
                        Some(d) => d,
                        None => Seq::empty(),
                    },
            decreases self.names.len() - i,
        {
            let name = self.names[i].as_str();
            let desc = self.description_text(name);
            let ghost before = out@;
            out.push((owned(name), desc));
            proof {
                assert(self.tool_names()[i as int] == name@);
                assert forall|q: int| 0 <= q < i + 1 implies (#[trigger] out@[q]).0@ == self.tool_names()[q]
                    && out@[q].1@ == match self.description(self.tool_names()[q]) {
                    Some(d) => d,
                    None => Seq::empty(),
                } by {
                    if q < i {
                        assert(out@[q] == before[q]);
                    }
                }
            }
            i = i + 1;
        }
        out
    }

    /// The position of the first tool named `name`.
    pub fn find(&self, name: &str) -> (r: Option<usize>)
        ensures
            match r {
                Some(i) => i < self.tool_names().len() && self.tool_names()[i as int] == name@ && forall|j: int|
                    0 <= j < i ==> self.tool_names()[j] != name@,
                None => forall|j: int| 0 <= j < self.tool_names().len() ==> self.tool_names()[j] != name@,
            },
    {
        let mut i: usize = 0;
        while i < self.names.len()
            invariant
                i <= self.names@.len(),
                forall|j: int| 0 <= j < i ==> self.tool_names()[j] != name@,
            decreases self.names.len() - i,
        {
            if str_eq(self.names[i].as_str(), name) {
                return Some(i);
            }
            proof {
                assert(self.tool_names()[i as int] == self.names@[i as int]@);
            }
            i = i + 1;
        }
        None
    }

    /// How a call of the tool `method` is carried out, given whether the
    /// permission check allows it: refused when not allowed; otherwise run by
    /// the first tool of that name, with an audit record unless the tool is
    /// `wm_help` or `wm_initial`; an unknown tool is an invalid action.
    pub fn plan_call(&self, method: &str, permitted: bool) -> (res: Result<(usize, bool), ToolError>)
        ensures
            !permitted ==> (res matches Err(e) && e.code@ == "INTERNAL_ERROR"@ && e.message@ == "Action not permitted"@
                && e.hint is None),
            permitted ==> match res {
                Ok((i, audited)) => i < self.tool_names().len() && self.tool_names()[i as int] == method@
                    && (forall|j: int| 0 <= j < i ==> self.tool_names()[j] != method@) && audited == (method@
                    != "wm_help"@ && method@ != "wm_initial"@),
                Err(e) => (forall|j: int| 0 <= j < self.tool_names().len() ==> self.tool_names()[j] != method@)
                    && e.code@ == "INVALID_ACTION"@ && e.message@ == "Unknown action. Valid actions: "@ + method@
                    && (e.hint matches Some(h) && h@ == "Use help tool for detailed documentation."@),
            },
    {
        if !permitted {
            return Err(ToolError::internal("Action not permitted"));
        }
        match self.find(method) {
            Some(i) => {
                let audited = !str_eq(method, "wm_help") && !str_eq(method, "wm_initial");
                Ok((i, audited))
            },
            None => {
                let valid = [method];
                let e = ToolError::invalid_action(&valid);
                proof {
                    assert(str_views(valid@) =~= seq![method@]);
                }
                Err(e)
            },
        }
    }
}

// ─── Audit records ──────────────────────────────────────────

/// The action of a tool call for the audit log: the part of the tool name
/// after its first `.` and before the next one, `unknown` when it has none.
pub open spec fn audit_action_of(name: Seq<char>) -> Seq<char> {
    let parts = split_char(name, '.');
    if parts.len() > 1 {
        parts[1]
    } else {
        "unknown"@
    }
}

/// The action of a tool call for the audit log.
pub fn audit_action(name: &str) -> (r: String)
    ensures
        r@ == audit_action_of(name@),
{
    let v = to_chars(name);
    let rs = split_ranges(&v, '.');
    if rs.len() > 1 {
        let (a, b) = rs[1];
        proof {
            assert(ranges_text(v@, rs@)[1] == v@.subrange(a as int, b as int));
        }
        string_of(&v, a, b)
    } else {
        owned("unknown")
    }
}

/// The status of a tool call for the audit log.
pub fn audit_status(ok: bool) -> (r: &'static str)
    ensures
        r@ == if ok { "ok"@ } else { "error"@ },
{
    if ok {
        "ok"
    } else {
        "error"
    }
}

} // verus!
