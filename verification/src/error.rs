//! Structured tool errors.
use vstd::prelude::*;
use crate::text::{owned, push_str};

verus! {

/// An error returned by a tool: a stable code, a message and an optional hint.
#[derive(Debug, Clone, PartialEq, Eq)]
pub struct ToolError {
    pub code: &'static str,
    pub message: String,
    pub hint: Option<String>,
}

/// Plain view of a tool error.
pub struct ToolErrorView {
    pub code: Seq<char>,
    pub message: Seq<char>,
    pub hint: Option<Seq<char>>,
}

impl View for ToolError {
    type V = ToolErrorView;

    open spec fn view(&self) -> ToolErrorView {
        ToolErrorView {
            code: self.code@,
            message: self.message@,
            hint: match self.hint {
                Some(h) => Some(h@),
                None => None,
            },
        }
    }
}

/// View of an internal error with message `m`.
pub open spec fn internal_view(m: Seq<char>) -> ToolErrorView {
    ToolErrorView { code: "INTERNAL_ERROR"@, message: m, hint: None }
}

/// Texts of `list` joined by `sep`.
pub open spec fn join_texts(list: Seq<Seq<char>>, sep: Seq<char>) -> Seq<char>
    decreases list.len(),
{
    if list.len() == 0 {
        Seq::empty()
    } else if list.len() == 1 {
        list[0]
    } else {
        join_texts(list.drop_last(), sep) + sep + list.last()
    }
}

/// Views of a slice of string slices.
pub open spec fn str_views(v: Seq<&str>) -> Seq<Seq<char>> {
    v.map_values(|s: &str| s@)
}

impl ToolError {
    /// A required input field was missing.
    pub fn required_field(field: &str) -> (res: Self)
        ensures
            res.code@ == "REQUIRED_FIELD"@,
            res.message@ == field@ + " is required"@,
            res.hint is None,
    {
        let mut message = owned(field);
        push_str(&mut message, " is required");
        ToolError { code: "REQUIRED_FIELD", message, hint: None }
    }

    /// An entity could not be found.
    pub fn not_found(entity: &str, detail: &str) -> (res: Self)
        ensures
            res.code@ == "NOT_FOUND"@,
            res.message@ == entity@ + " not found: "@ + detail@,
            res.hint matches Some(h) && h@ == "Use the list tool to find available "@ + entity@,
    {
        let mut message = owned(entity);
        push_str(&mut message, " not found: ");
        push_str(&mut message, detail);
        let mut hint = owned("Use the list tool to find available ");
        push_str(&mut hint, entity);
        ToolError { code: "NOT_FOUND", message, hint: Some(hint) }
    }

    /// No project has been selected yet.
    pub fn no_project() -> (res: Self)
        ensures
            res.code@ == "NO_PROJECT"@,
            res.message@ == "No project set. Call project.set first."@,
            res.hint matches Some(h) && h@
                == "Use project.detect to find projects, or project.set to select one."@,
    {
        ToolError {
            code: "NO_PROJECT",
            message: owned("No project set. Call project.set first."),
            hint: Some(owned("Use project.detect to find projects, or project.set to select one.")),
        }
    }

    /// The requested action is not one of `valid`.
    pub fn invalid_action(valid: &[&str]) -> (res: Self)
        ensures
            res.code@ == "INVALID_ACTION"@,
            res.message@ == "Unknown action. Valid actions: "@ + join_texts(str_views(valid@), ", "@),
            res.hint matches Some(h) && h@ == "Use help tool for detailed documentation."@,
    {
        let mut message = owned("Unknown action. Valid actions: ");
        let ghost prefix = message@;
        let mut i: usize = 0;
        while i < valid.len()
            invariant
                i <= valid.len(),
                prefix == "Unknown action. Valid actions: "@,
                message@ == prefix + join_texts(str_views(valid@.take(i as int)), ", "@),
            decreases valid.len() - i,
        {
            if i > 0 {
                push_str(&mut message, ", ");
            }
            push_str(&mut message, valid[i]);
            proof {
                assert(str_views(valid@.take(i + 1)).drop_last() == str_views(valid@.take(i as int)));
                assert(str_views(valid@.take(i + 1)).last() == valid@[i as int]@);
            }
            i = i + 1;
        }
        proof {
            assert(valid@.take(valid.len() as int) == valid@);
        }
        ToolError {
            code: "INVALID_ACTION",
            message,
            hint: Some(owned("Use help tool for detailed documentation.")),
        }
    }

    /// An internal failure with the given message.
    pub fn internal(msg: &str) -> (res: Self)
        ensures
            res.code@ == "INTERNAL_ERROR"@,
            res.message@ == msg@,
            res.hint is None,
    {
        ToolError { code: "INTERNAL_ERROR", message: owned(msg), hint: None }
    }

    /// Display text: "[CODE] message".
    pub fn to_display_string(&self) -> (res: String)
        ensures
            res@ == "["@ + self.code@ + "] "@ + self.message@,
    {
        let mut s = owned("[");
        push_str(&mut s, self.code);
        push_str(&mut s, "] ");
        push_str(&mut s, self.message.as_str());
        s
    }
}

} // verus!
