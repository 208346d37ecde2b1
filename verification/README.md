# context_engine

Semantic code search over source repositories: files are parsed into symbols and
calls, cut into chunks and embedded; a query is searched for, expanded along the
call graph, merged, ranked by a language model and answered with numbered lines.

- `src/` is the library, verified with Verus. It holds all decisions: syntax
  extraction (`parsing`), index maintenance (`indexing`), queries (`query`), the
  retrieval tool (`mcp`), and how all of them are written down (`store`, `paths`,
  `text`). Work that needs the outside is a step function from state and event
  to next state and action: `indexing::consumer`, `indexing::run`, `query::run`,
  `mcp::retrieval`.
- `tests/` runs the library, with the real grammars and parsers linked.
- `app/` is the server around it: settings, disk, HTTP, MCP and the helper
  programs that stand for the database, the embedding service and the model.

What the proofs rest on besides Verus is marked `external_body` or
`assume_specification`: tree-sitter and its grammars (`parsing::grammars`),
serde_json (`query::json`), regex (`query::reranker`), chrono (`mcp`), and three
functions of std (`text`).
