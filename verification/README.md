# atomic_core

The logic behind Atomic's chat, agents and MCP server, with its behaviour
stated in contracts and proved by Verus.

- `src/providers`: the requests that OpenRouter, OpenAI-compatible servers and
  Ollama get, how their answers and streams are read, and how failures are
  classified.
- `src/agent_runtime`: an agent run as a state machine, the trimming of its
  history to a model's context, its tools, and the ledger of what it may cite.
- `src/chat_tools`, `src/chat_title`: what a chat turn can read and write within
  a conversation's scope, and how a conversation gets its title.
- `src/mcp`: the tools that agents reach the knowledge base through.
- `src/routes`: what the chat routes decide, and the registry of running turns.
- `src/mock_ai`: a scripted AI server for tests.
- `src/json`, `src/text`: JSON values and text.
- `src/outside`: the calls into other crates. Their contracts are trusted.

`tests/` holds the tests of the library. `app/` holds what surrounds it: HTTP
clients, the loop that drives a run, the servers, and the traits that storage
implements.
