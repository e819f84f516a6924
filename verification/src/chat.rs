use crate::headers::{build_session_headers, insert_header, subagent_header, HeaderFields};
use crate::json::{json_array, json_bool, json_object, json_string, object_insert, object_new, Json};
use crate::messages::build_messages;
use crate::models::{ResponseItem, SessionSource};
use crate::provider::{ApiError, Provider};
#[allow(unused_imports)]
use crate::headers::{
    header_fields, lemma_field_names, optional_string, session_fields, set_field, subagent_label,
};
#[allow(unused_imports)]
use crate::json::{json_view, json_views};
#[allow(unused_imports)]
use crate::messages::request_messages;
use http::HeaderMap;
use serde_json::Value;
use vstd::prelude::*;

verus! {

/// Assembled request body plus headers for Chat Completions streaming calls.
#[derive(Debug)]
pub struct ChatRequest {
    pub body: Value,
    pub headers: HeaderMap,
}

/// What a Chat Completions request is assembled from.
pub struct RequestSettings {
    pub model: Seq<char>,
    pub instructions: Seq<char>,
    pub input: Seq<ResponseItem>,
    pub tools: Seq<Json>,
    pub session_id: Option<Seq<char>>,
    pub thread_id: Option<Seq<char>>,
    pub subagent: Option<Seq<char>>,
}

/// The body of a request.
pub open spec fn request_body(settings: RequestSettings) -> Json {
    Json::Object(
        map![
            "model"@ => Json::String(settings.model),
            "messages"@ => Json::Array(request_messages(settings.instructions, settings.input)),
            "stream"@ => Json::Bool(true),
            "tools"@ => Json::Array(settings.tools),
        ],
    )
}

/// The header fields of a request.
pub open spec fn request_fields(settings: RequestSettings) -> HeaderFields {
    set_field(
        session_fields(settings.session_id, settings.thread_id),
        "x-openai-subagent"@,
        settings.subagent,
    )
}

/// Assembles a Chat Completions request from a conversation history.
pub struct ChatRequestBuilder<'a> {
    model: &'a str,
    instructions: &'a str,
    input: &'a [ResponseItem],
    tools: &'a [Value],
    session_id: Option<String>,
    thread_id: Option<String>,
    session_source: Option<SessionSource>,
}

impl<'a> View for ChatRequestBuilder<'a> {
    type V = RequestSettings;

    closed spec fn view(&self) -> RequestSettings {
        RequestSettings {
            model: self.model@,
            instructions: self.instructions@,
            input: self.input@,
            tools: json_views(self.tools@),
            session_id: optional_string(self.session_id),
            thread_id: optional_string(self.thread_id),
            subagent: subagent_label(self.session_source),
        }
    }
}

impl<'a> ChatRequestBuilder<'a> {
    /// A request without session, thread and subagent.
    pub fn new(
        model: &'a str,
        instructions: &'a str,
        input: &'a [ResponseItem],
        tools: &'a [Value],
    ) -> (builder: Self)
        ensures
            builder@ == (RequestSettings {
                model: model@,
                instructions: instructions@,
                input: input@,
                tools: json_views(tools@),
                session_id: None,
                thread_id: None,
                subagent: None,
            }),
    {
        Self {
            model,
            instructions,
            input,
            tools,
            session_id: None,
            thread_id: None,
            session_source: None,
        }
    }

    /// The request with the given session.
    pub fn session_id(self, id: Option<String>) -> (builder: Self)
        ensures
            builder@ == (RequestSettings { session_id: optional_string(id), ..self@ }),
    {
        Self { session_id: id, ..self }
    }

    /// The request with the given thread.
    pub fn thread_id(self, id: Option<String>) -> (builder: Self)
        ensures
            builder@ == (RequestSettings { thread_id: optional_string(id), ..self@ }),
    {
        Self { thread_id: id, ..self }
    }

    /// The request from the given source.
    pub fn session_source(self, source: Option<SessionSource>) -> (builder: Self)
        ensures
            builder@ == (RequestSettings { subagent: subagent_label(source), ..self@ }),
    {
        Self { session_source: source, ..self }
    }

    /// Assembles the request. This never fails, and nothing of the provider
    /// enters the request.
    pub fn build(self, _provider: &Provider) -> (request: Result<ChatRequest, ApiError>)
        ensures
            request is Ok,
            json_view(request->Ok_0.body) == request_body(self@),
            header_fields(request->Ok_0.headers) == request_fields(self@),
    {
        let messages = build_messages(self.instructions, self.input);
        let mut tools: Vec<Value> = Vec::new();
        for idx in 0..self.tools.len()
            invariant
                json_views(tools@) == json_views(self.tools@).take(idx as int),
        {
            let ghost before = json_views(tools@);
            tools.push(self.tools[idx].clone());
            assert(json_views(tools@) == before.push(json_views(self.tools@)[idx as int]));
        }
        assert(json_views(tools@) == json_views(self.tools@));
        let mut payload = object_new();
        object_insert(&mut payload, "model".to_string(), json_string(self.model.to_string()));
        object_insert(&mut payload, "messages".to_string(), json_array(messages));
        object_insert(&mut payload, "stream".to_string(), json_bool(true));
        object_insert(&mut payload, "tools".to_string(), json_array(tools));

        let subagent = subagent_header(&self.session_source);
        let mut headers = build_session_headers(self.session_id, self.thread_id);
        if let Some(label) = subagent {
            proof {
                lemma_field_names(header_fields(headers), label@);
            }
            insert_header(&mut headers, "x-openai-subagent", label.as_str());
        }
        Ok(ChatRequest { body: json_object(payload), headers })
    }
}

} // verus!
