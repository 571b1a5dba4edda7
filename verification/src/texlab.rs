//! The texlab forward-search and build requests.
//!
//! Both are fire-and-forget requests to one chosen server; the reply is a
//! status code echoed back to the user.

use vstd::prelude::*;

use crate::position::lines_fit;
use crate::strutil::push_str;
use crate::types::Document;
use crate::types::EditorMeta;
use crate::types::EditorPosition;
use crate::types::LspPosition;
use crate::types::ServerId;
use crate::types::ServerRegistry;

verus! {

/// Marker for the `textDocument/forwardSearch` request.
pub struct ForwardSearch {}

/// Marker for the `textDocument/build` request.
pub struct Build {}

/// The request parameters of a build: only the document.
pub struct BuildTextDocumentParams {
    pub buffile: String,
}

/// The status of a forward search, as texlab reports it.
#[derive(Clone, Copy, PartialEq, Eq, Structural, Debug)]
pub enum ForwardSearchStatus {
    Success,
    Error,
    Failure,
    Unconfigured,
}

/// The status of a build, as texlab reports it.
#[derive(Clone, Copy, PartialEq, Eq, Structural, Debug)]
pub enum BuildStatus {
    Success,
    Error,
    Failure,
    Cancelled,
}

/// A forward-search reply.
#[derive(Clone, Copy, PartialEq, Eq, Structural, Debug)]
pub struct ForwardSearchResult {
    pub status: ForwardSearchStatus,
}

/// A build reply.
#[derive(Clone, Copy, PartialEq, Eq, Structural, Debug)]
pub struct BuildResult {
    pub status: BuildStatus,
}

/// The wire code of a forward-search status.
pub open spec fn spec_forward_search_status_of_code(code: i32) -> Option<ForwardSearchStatus> {
    if code == 0 {
        Option::Some(ForwardSearchStatus::Success)
    } else if code == 1 {
        Option::Some(ForwardSearchStatus::Error)
    } else if code == 2 {
        Option::Some(ForwardSearchStatus::Failure)
    } else if code == 3 {
        Option::Some(ForwardSearchStatus::Unconfigured)
    } else {
        Option::None
    }
}

impl ForwardSearchStatus {
    /// Decodes the wire code 0..=3.
    pub fn from_code(code: i32) -> (r: Option<ForwardSearchStatus>)
        ensures
            r == spec_forward_search_status_of_code(code),
    {
        if code == 0 {
            Option::Some(ForwardSearchStatus::Success)
        } else if code == 1 {
            Option::Some(ForwardSearchStatus::Error)
        } else if code == 2 {
            Option::Some(ForwardSearchStatus::Failure)
        } else if code == 3 {
            Option::Some(ForwardSearchStatus::Unconfigured)
        } else {
            Option::None
        }
    }

    /// The status's display word.
    pub fn word(&self) -> (r: &'static str)
        ensures
            r@ == spec_forward_search_word(*self),
    {
        match self {
            ForwardSearchStatus::Success => "Success",
            ForwardSearchStatus::Error => "Error",
            ForwardSearchStatus::Failure => "Failure",
            ForwardSearchStatus::Unconfigured => "Unconfigured",
        }
    }
}

pub open spec fn spec_forward_search_word(s: ForwardSearchStatus) -> Seq<char> {
    match s {
        ForwardSearchStatus::Success => "Success"@,
        ForwardSearchStatus::Error => "Error"@,
        ForwardSearchStatus::Failure => "Failure"@,
        ForwardSearchStatus::Unconfigured => "Unconfigured"@,
    }
}

/// The wire code of a build status.
pub open spec fn spec_build_status_of_code(code: i32) -> Option<BuildStatus> {
    if code == 0 {
        Option::Some(BuildStatus::Success)
    } else if code == 1 {
        Option::Some(BuildStatus::Error)
    } else if code == 2 {
        Option::Some(BuildStatus::Failure)
    } else if code == 3 {
        Option::Some(BuildStatus::Cancelled)
    } else {
        Option::None
    }
}

pub open spec fn spec_build_word(s: BuildStatus) -> Seq<char> {
    match s {
        BuildStatus::Success => "Success"@,
        BuildStatus::Error => "Error"@,
        BuildStatus::Failure => "Failure"@,
        BuildStatus::Cancelled => "Cancelled"@,
    }
}

impl BuildStatus {
    /// Decodes the wire code 0..=3.
    pub fn from_code(code: i32) -> (r: Option<BuildStatus>)
        ensures
            r == spec_build_status_of_code(code),
    {
        if code == 0 {
            Option::Some(BuildStatus::Success)
        } else if code == 1 {
            Option::Some(BuildStatus::Error)
        } else if code == 2 {
            Option::Some(BuildStatus::Failure)
        } else if code == 3 {
            Option::Some(BuildStatus::Cancelled)
        } else {
            Option::None
        }
    }

    /// The status's display word.
    pub fn word(&self) -> (r: &'static str)
        ensures
            r@ == spec_build_word(*self),
    {
        match self {
            BuildStatus::Success => "Success",
            BuildStatus::Error => "Error",
            BuildStatus::Failure => "Failure",
            BuildStatus::Cancelled => "Cancelled",
        }
    }
}

/// The server a texlab request goes to: the one the request named, the
/// main server otherwise.
pub open spec fn spec_texlab_server(language_server: Option<ServerId>, n_servers: int) -> ServerId {
    match language_server {
        Option::Some(id) => if id < n_servers {
            id
        } else {
            0
        },
        Option::None => 0,
    }
}

/// The forward-search entry point: the chosen server and the position
/// under its encoding.
pub fn forward_search(
    meta: &EditorMeta,
    position: EditorPosition,
    language_server: Option<ServerId>,
    registry: &ServerRegistry,
    document: Option<&Document>,
) -> (r: Option<(ServerId, LspPosition)>)
    requires
        registry.servers@.len() > 0,
        position.line >= 1,
        position.column >= 1,
        match document {
            Option::Some(doc) => lines_fit(doc.lines@),
            Option::None => true,
        },
    ensures
        r is Some <==> document is Some,
        r is Some ==> (r->0).0 == spec_texlab_server(
            language_server,
            registry.servers@.len() as int,
        ),
        r is Some ==> (r->0).1 == crate::position::editor_position_to_lsp_spec(
            position,
            document->0.lines@,
            registry.servers@[spec_texlab_server(
                language_server,
                registry.servers@.len() as int,
            ) as int].offset_encoding,
        ),
{
    let doc = match document {
        Option::Some(doc) => doc,
        Option::None => {
            return Option::None;
        },
    };
    let server: ServerId = match language_server {
        Option::Some(id) => if id < registry.servers.len() {
            id
        } else {
            0
        },
        Option::None => 0,
    };
    let lsp_position = crate::position::editor_position_to_lsp(
        position,
        &doc.lines,
        registry.get(server).offset_encoding,
    );
    Option::Some((server, lsp_position))
}

/// The forward-search reply: echoed to the user.
pub fn forward_search_response(result: ForwardSearchResult) -> (r: String)
    ensures
        r@ == "echo Forward Search "@ + spec_forward_search_word(result.status) + " (texlab)"@,
{
    let mut out = crate::strutil::str_chars("echo Forward Search ");
    push_str(&mut out, result.status.word());
    push_str(&mut out, " (texlab)");
    proof {
        assert(out@ =~= "echo Forward Search "@ + spec_forward_search_word(result.status)
            + " (texlab)"@);
    }
    crate::strutil::chars_to_string(&out)
}

/// The build entry point: the chosen server.
pub fn build(
    meta: &EditorMeta,
    language_server: Option<ServerId>,
    registry: &ServerRegistry,
) -> (r: (ServerId, BuildTextDocumentParams))
    requires
        registry.servers@.len() > 0,
    ensures
        r.0 == spec_texlab_server(language_server, registry.servers@.len() as int),
        r.1.buffile@ == meta.buffile@,
{
    let server: ServerId = match language_server {
        Option::Some(id) => if id < registry.servers.len() {
            id
        } else {
            0
        },
        Option::None => 0,
    };
    (server, BuildTextDocumentParams { buffile: meta.buffile.clone() })
}

/// The build reply: echoed to the user.
pub fn build_response(result: BuildResult) -> (r: String)
    ensures
        r@ == "echo Build "@ + spec_build_word(result.status) + " (texlab)"@,
{
    let mut out = crate::strutil::str_chars("echo Build ");
    push_str(&mut out, result.status.word());
    push_str(&mut out, " (texlab)");
    proof {
        assert(out@ =~= "echo Build "@ + spec_build_word(result.status) + " (texlab)"@);
    }
    crate::strutil::chars_to_string(&out)
}

} // verus!
