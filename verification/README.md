# strap_in

A coding-agent harness for OpenAI-compatible chat endpoints: the model reads
and edits code through a handful of tools, replies stream to the terminal,
and a plan board tracks the steps the model announces.

The library (`src/`) holds the logic, each function with a Verus contract:

- `text` — character-level text operations (trimming, decimal notation,
  UTF-8 byte lengths, clipping output to a byte limit, searching, lines).
- `types` — messages, tool calls, tool definitions and streamed deltas,
  with their views.
- `client` — framing of event-stream lines, accumulation of streamed
  deltas into a reply, endpoint settings.
- `agent` — the system prompt, the conversation history, compaction, and
  the steps of a user turn (when to ask the model, run tools, or stop).
- `plan` — numbered plans parsed from the model's text, the plan board,
  and the history entry written for a plan.
- `subagents` — the registry of sub-agents and their ids.
- `tools` — tool definitions, argument decoding and dispatch, and the text
  each tool answers with.
- `spinner` — spinner frames and the progress bar.

The program (`app/`) does the I/O around it: the clock, HTTP streaming, the file
system, processes, the terminal, the web board and the REPL.

`tests/` exercises the library on concrete values.
