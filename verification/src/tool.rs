//! The tool's interface to its host: schema, description, reply shape and
//! the context text it starts from.

use vstd::prelude::*;

use crate::text::{str_trim, trim_spec};

verus! {

pub const TOOL_SCHEMA: &'static str = r#"{
            "type": "object",
            "required": ["action"],
            "properties": {
                "action": {
                    "type": "string",
                    "enum": ["scan", "add_wallet", "remove_wallet", "version"]
                },
                "last_synced_ms": {
                    "type": "integer",
                    "description": "Timestamp (ms) of the previous scan. Required for: scan"
                },
                "watch_wallets": {
                    "type": "array",
                    "items": { "type": "string" },
                    "description": "Current wallet list. Required for all actions"
                },
                "wallet": {
                    "type": "string",
                    "description": "Ethereum address (0x-prefixed). Required for: add_wallet, remove_wallet"
                },
                "api_key": {
                    "type": "string",
                    "description": "Polymarket API key (POLY_API_KEY). Optional for public endpoints, required for private ones"
                },
                "clob_base": {
                    "type": "string",
                    "description": "Override CLOB base URL (optional, scan only)"
                }
            }
        }"#;

pub const TOOL_DESCRIPTION: &'static str = "Stateless Polymarket trade scanner. \
         Pass last_synced_ms and watch_wallets on every call — the tool has no storage. \
         scan returns new trades as JSONL plus an updated last_synced_ms (unchanged on error). \
         add_wallet / remove_wallet return the updated watch_wallets list.";

/// JSON schema of the tool's parameters.
pub fn schema() -> (s: String)
    ensures
        s@ == TOOL_SCHEMA@,
{
    TOOL_SCHEMA.to_owned()
}

/// What the tool tells the agent about itself.
pub fn description() -> (s: String)
    ensures
        s@ == TOOL_DESCRIPTION@,
{
    TOOL_DESCRIPTION.to_owned()
}

/// The tool's reply: exactly one of an output and an error.
#[derive(Debug)]
pub struct ToolResponse {
    pub output: Option<String>,
    pub error: Option<String>,
}

/// The reply for the outcome of a request.
pub fn tool_response(outcome: Result<String, String>) -> (r: ToolResponse)
    ensures
        match outcome {
            Ok(o) => r.output == Some(o) && r.error is None,
            Err(e) => r.output is None && r.error == Some(e),
        },
{
    match outcome {
        Ok(output) => ToolResponse { output: Some(output), error: None },
        Err(e) => ToolResponse { output: None, error: Some(e) },
    }
}

/// The context text to parse: the trimmed context when it is given and not
/// blank; `None` means the tool starts from a fresh default context.
pub fn context_payload<'a>(context: Option<&'a str>) -> (r: Option<&'a str>)
    ensures
        match context {
            Some(c) => if trim_spec(c@).len() > 0 {
                r matches Some(t) && t@ == trim_spec(c@)
            } else {
                r is None
            },
            None => r is None,
        },
{
    match context {
        Some(ctx) => {
            let trimmed = str_trim(ctx);
            if !trimmed.is_empty() {
                Some(trimmed)
            } else {
                None
            }
        },
        None => None,
    }
}

} // verus!
