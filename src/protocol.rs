//! Messages of the tool protocol that the search server speaks.
use vstd::prelude::*;
use vstd::string::StringExecFns;

verus! {

/// Protocol revision the server implements.
pub const PROTOCOL_VERSION: &'static str = "2024-11-05";

/// Name the server reports.
pub const SERVER_NAME: &'static str = "rpm-repo-search";

/// Version the server reports.
pub const SERVER_VERSION: &'static str = "0.1.0";

/// Result of a tool call.
pub struct ToolResult {
    pub content: Vec<TextContent>,
    pub is_error: Option<bool>,
}

/// A piece of text content.
pub struct TextContent {
    /// Always "text".
    pub content_type: String,
    pub text: String,
}

impl TextContent {
    pub fn new(text: String) -> (r: TextContent)
        ensures
            r.content_type@ == "text"@,
            r.text == text,
    {
        TextContent { content_type: String::from_str("text"), text }
    }
}

impl ToolResult {
    /// A successful result holding `text`.
    pub fn success(text: String) -> (r: ToolResult)
        ensures
            r.content@.len() == 1,
            r.content@[0].content_type@ == "text"@,
            r.content@[0].text == text,
            r.is_error is None,
    {
        let mut content: Vec<TextContent> = Vec::new();
        content.push(TextContent::new(text));
        ToolResult { content, is_error: None }
    }

    /// A failed result with the message `text`.
    pub fn error(text: String) -> (r: ToolResult)
        ensures
            r.content@.len() == 1,
            r.content@[0].content_type@ == "text"@,
            r.content@[0].text == text,
            r.is_error == Some(true),
    {
        let mut content: Vec<TextContent> = Vec::new();
        content.push(TextContent::new(text));
        ToolResult { content, is_error: Some(true) }
    }
}

/// Parameters of the initialize request.
pub struct InitializeParams {
    pub protocol_version: String,
    pub capabilities: ClientCapabilities,
    pub client_info: ClientInfo,
}

pub struct ClientCapabilities {
    pub roots: Option<RootsCapability>,
}

pub struct RootsCapability {
    pub list_changed: bool,
}

pub struct ClientInfo {
    pub name: String,
    pub version: String,
}

/// Answer to the initialize request.
pub struct InitializeResult {
    pub protocol_version: String,
    pub capabilities: ServerCapabilities,
    pub server_info: ServerInfo,
}

pub struct ServerCapabilities {
    pub tools: ToolsCapability,
}

pub struct ToolsCapability {
    pub list_changed: bool,
}

pub struct ServerInfo {
    pub name: String,
    pub version: String,
}

impl InitializeResult {
    /// The server's protocol revision, its tool support (a fixed tool
    /// list) and its name and version.
    pub fn new() -> (r: InitializeResult)
        ensures
            r.protocol_version@ == PROTOCOL_VERSION@,
            !r.capabilities.tools.list_changed,
            r.server_info.name@ == SERVER_NAME@,
            r.server_info.version@ == SERVER_VERSION@,
    {
        InitializeResult {
            protocol_version: String::from_str(PROTOCOL_VERSION),
            capabilities: ServerCapabilities { tools: ToolsCapability { list_changed: false } },
            server_info: ServerInfo {
                name: String::from_str(SERVER_NAME),
                version: String::from_str(SERVER_VERSION),
            },
        }
    }
}

} // verus!
