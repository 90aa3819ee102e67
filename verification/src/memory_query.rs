//! The `graphify_memory_query` tool: validating its arguments into a scoped
//! query, and answering with the query result.

use vstd::prelude::*;
use crate::memory::{MemoryNode, MemoryQueryInput, MemoryQueryResult, MAX_QUERY_LIMIT};
use crate::plugin::{derive_workspace_key, path_hash};
use crate::text::{chars_to_string, hex, push_str, str_chars, trim, trim_chars};

verus! {

/// Result limit when the caller gives none.
pub const DEFAULT_LIMIT: usize = 10;

/// The tool arguments as read: each `None` when absent or of another JSON
/// type (`limit` must be an unsigned integer).
#[derive(Debug, Clone, PartialEq, Eq)]
pub struct MemoryQueryArgs {
    pub workspace_key: Option<String>,
    pub query: Option<String>,
    pub limit: Option<u64>,
}

/// Why the tool arguments are refused.
#[derive(Debug, Clone, PartialEq, Eq)]
pub enum ParseInputError {
    /// No workspace key was given and the current directory is unknown
    /// (the reason given).
    NoCurrentDir(String),
    /// No `query` text was given.
    MissingQuery,
    /// The workspace key is blank.
    EmptyWorkspaceKey,
    /// The query text is blank.
    EmptyQuery,
}

/// The text of an argument error.
pub open spec fn parse_error_text(e: ParseInputError) -> Seq<char> {
    match e {
        ParseInputError::NoCurrentDir(r) => "cannot determine current directory: "@ + r@,
        ParseInputError::MissingQuery => "missing required argument: query"@,
        ParseInputError::EmptyWorkspaceKey => "workspace_key must not be empty"@,
        ParseInputError::EmptyQuery => "query must not be empty"@,
    }
}

impl ParseInputError {
    /// The text of the error.
    pub fn message(&self) -> (s: String)
        ensures
            s@ == parse_error_text(*self),
    {
        match self {
            ParseInputError::NoCurrentDir(r) => {
                let mut v: Vec<char> = Vec::new();
                push_str(&mut v, "cannot determine current directory: ");
                push_str(&mut v, r.as_str());
                chars_to_string(v.as_slice())
            },
            ParseInputError::MissingQuery => String::from_str("missing required argument: query"),
            ParseInputError::EmptyWorkspaceKey => String::from_str("workspace_key must not be empty"),
            ParseInputError::EmptyQuery => String::from_str("query must not be empty"),
        }
    }
}

/// The limit asked for, the default when absent or beyond `usize`,
/// clamped to `1..=MAX_QUERY_LIMIT`.
pub open spec fn limit_of(limit: Option<u64>) -> usize {
    let l: int = match limit {
        Some(v) => if v <= usize::MAX {
            v as int
        } else {
            DEFAULT_LIMIT as int
        },
        None => DEFAULT_LIMIT as int,
    };
    if l < 1 {
        1
    } else if l > MAX_QUERY_LIMIT {
        MAX_QUERY_LIMIT
    } else {
        l as usize
    }
}

/// The workspace key given, unless absent or blank.
pub open spec fn given_key(args: MemoryQueryArgs) -> Option<Seq<char>> {
    match args.workspace_key {
        Some(k) => if trim(k@).len() > 0 {
            Some(k@)
        } else {
            None
        },
        None => None,
    }
}

/// What the tool arguments give: the scoped query input (the workspace key
/// given, else the key of the current directory), or why they are refused.
pub open spec fn parsed_input(args: MemoryQueryArgs, cwd: Result<String, String>) -> Result<
    (Seq<char>, Seq<char>, usize),
    ParseInputError,
> {
    let key: Result<Seq<char>, ParseInputError> = match given_key(args) {
        Some(k) => Ok(k),
        None => match cwd {
            Ok(c) => Ok(hex(path_hash(c@) as nat)),
            Err(r) => Err(ParseInputError::NoCurrentDir(r)),
        },
    };
    match key {
        Err(e) => Err(e),
        Ok(k) => match args.query {
            None => Err(ParseInputError::MissingQuery),
            Some(q) => if trim(k).len() == 0 {
                Err(ParseInputError::EmptyWorkspaceKey)
            } else if trim(q@).len() == 0 {
                Err(ParseInputError::EmptyQuery)
            } else {
                Ok((k, q@, limit_of(args.limit)))
            },
        },
    }
}

/// Validates and normalizes the tool arguments into a scoped query input.
/// Without a (non-blank) workspace key, the key of the current directory
/// `cwd` (as read, or the reason it could not be) is used.
pub fn parse_input(args: &MemoryQueryArgs, cwd: &Result<String, String>) -> (r: Result<
    MemoryQueryInput,
    ParseInputError,
>)
    ensures
        match parsed_input(*args, *cwd) {
            Ok((k, q, l)) => r matches Ok(i) && i.workspace_key@ == k && i.query@ == q && i.limit == l,
            Err(e) => r == Err::<MemoryQueryInput, ParseInputError>(e),
        },
{
    let given: Option<String> = match &args.workspace_key {
        Some(k) => {
            let v = str_chars(k.as_str());
            let t = trim_chars(v.as_slice());
            if t.len() > 0 {
                Some(k.clone())
            } else {
                None
            }
        },
        None => None,
    };
    let workspace_key = match given {
        Some(k) => k,
        None => match cwd {
            Ok(c) => derive_workspace_key(c.as_str()),
            Err(reason) => {
                return Err(ParseInputError::NoCurrentDir(reason.clone()));
            },
        },
    };
    let query = match &args.query {
        Some(q) => q,
        None => {
            return Err(ParseInputError::MissingQuery);
        },
    };
    let kv = str_chars(workspace_key.as_str());
    if trim_chars(kv.as_slice()).len() == 0 {
        return Err(ParseInputError::EmptyWorkspaceKey);
    }
    let qv = str_chars(query.as_str());
    if trim_chars(qv.as_slice()).len() == 0 {
        return Err(ParseInputError::EmptyQuery);
    }
    let asked: usize = match args.limit {
        Some(v) => if v <= usize::MAX as u64 {
            v as usize
        } else {
            DEFAULT_LIMIT
        },
        None => DEFAULT_LIMIT,
    };
    let limit = if asked < 1 {
        1
    } else if asked > MAX_QUERY_LIMIT {
        MAX_QUERY_LIMIT
    } else {
        asked
    };
    Ok(MemoryQueryInput { workspace_key, query: query.clone(), limit })
}

/// The answer to a query: `found` with the nodes, `not_found` with none,
/// and an error naming the reason when memory is unavailable.
pub fn query_reply(result: MemoryQueryResult) -> (r: Result<(String, Vec<MemoryNode>), String>)
    ensures
        match result {
            MemoryQueryResult::Found(nodes) => r matches Ok((s, ns)) && s@ == "found"@ && ns == nodes,
            MemoryQueryResult::NotFound => r matches Ok((s, ns)) && s@ == "not_found"@ && ns@.len() == 0,
            MemoryQueryResult::Unavailable(reason) => r matches Err(m) && m@
                == "semantic memory unavailable: "@ + reason@,
        },
{
    match result {
        MemoryQueryResult::Found(nodes) => Ok((String::from_str("found"), nodes)),
        MemoryQueryResult::NotFound => Ok((String::from_str("not_found"), Vec::new())),
        MemoryQueryResult::Unavailable(reason) => {
            let mut v: Vec<char> = Vec::new();
            push_str(&mut v, "semantic memory unavailable: ");
            push_str(&mut v, reason.as_str());
            Err(chars_to_string(v.as_slice()))
        },
    }
}

} // verus!
