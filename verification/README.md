# alagent

The logic of an LLM agent runtime, verified with Verus.

- `src/` is the verified library: conversation memory with a turn limit,
  the event log of an execution, the chat messages replayed from it, the
  state machine that runs the tool calls of a model reply through before-
  and after-tool callbacks, context optimisers (compaction, sliding window),
  web-search result compression, fixed-length text chunking, top-k ranking,
  embedding batching, and the checks and reports of the file-system tool
  server.
- `app/` is the ordinary Rust around it: calls to the chat and embedding
  APIs, the MCP client and server, web search over HTTP, file-system I/O,
  JSON persistence, and the floating-point parts (cosine similarity, the
  calculator tool, human-readable sizes).
- `tests/` exercises the library on concrete values.
