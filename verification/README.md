# chat_request

Assembles Chat Completions streaming requests (body and headers) from a
conversation history, with contracts that Verus proves.

- `src/chat.rs`: the builder of a request.
- `src/messages.rs`, `src/tool_calls.rs`: the messages that a history stands for.
- `src/reasoning.rs`: which message each piece of reasoning is sent with.
- `src/headers.rs`: the headers of a request, and what is relied on of `http`.
- `src/json.rs`: a mathematical model of JSON documents, and what is relied on of
  `serde_json`.
- `src/text.rs`: white space and equality of strings, and what is relied on of the
  standard library.
- `src/laws.rs`, `src/reasoning_laws.rs`: what holds of every request.
- `app/`: items that are given by how they serialise.
