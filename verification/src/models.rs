use serde_json::Value;
use vstd::prelude::*;

verus! {

/// One part of the content of a message.
#[derive(Debug)]
pub enum ContentItem {
    InputText { text: String },
    OutputText { text: String },
    InputImage { image_url: String },
}

/// One segment of the raw reasoning of the model.
#[derive(Debug)]
pub enum ReasoningItemContent {
    ReasoningText { text: String },
    Text { text: String },
}

/// One part of the structured output of a tool.
#[derive(Debug)]
pub enum FunctionCallOutputContentItem {
    InputText { text: String },
    InputImage { image_url: String },
    EncryptedContent,
}

/// What a tool returned: plain text, or a list of parts.
#[derive(Debug)]
pub enum FunctionCallOutputBody {
    Text(String),
    ContentItems(Vec<FunctionCallOutputContentItem>),
}

/// The output of a tool call.
#[derive(Debug)]
pub struct FunctionCallOutputPayload {
    pub body: FunctionCallOutputBody,
}

/// One item of a conversation history.
///
/// Each variant holds what a Chat Completions request can depend on. The action
/// of a local shell call is held as the JSON document that is sent for it.
#[derive(Debug)]
pub enum ResponseItem {
    Message { role: String, content: Vec<ContentItem> },
    Reasoning { content: Option<Vec<ReasoningItemContent>> },
    LocalShellCall { call_id: Option<String>, action: Value },
    FunctionCall { name: String, arguments: String, call_id: String },
    FunctionCallOutput { call_id: String, output: FunctionCallOutputPayload },
    CustomToolCall { call_id: String, name: String, input: String },
    CustomToolCallOutput { call_id: String, output: FunctionCallOutputPayload },
    AdditionalTools,
    AgentMessage,
    ToolSearchCall,
    ToolSearchOutput,
    WebSearchCall,
    ImageGenerationCall,
    Compaction,
    CompactionTrigger,
    ContextCompaction,
    Other,
}

/// Where a session comes from: the label under which a subagent reports itself,
/// or none for a session that is no subagent.
#[derive(Debug)]
pub struct SessionSource {
    pub subagent: Option<String>,
}

} // verus!
