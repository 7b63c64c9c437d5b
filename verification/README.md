# Kumo

A personal agent gateway: one Telegram bot, one owner, one model provider, and a host to act on.
Messages to the bot become turns of a tool-calling agent; anything that touches the host is put to
the owner first.

The library in `src/` holds the gateway's rules, verified with Verus. `app/` is the program around
it: the Telegram dispatcher, the HTTP client, the MCP child processes, the SQLite file and the
terminal dialogues.

## The library

| Module | What it holds |
| --- | --- |
| `text`, `order`, `table`, `chat_table` | Text as sequences of characters, stable orderings, small keyed tables |
| `json`, `clock` | JSON values and points in time, on top of `serde_json`, `chrono` and `chrono-tz` |
| `provider`, `wire` | Messages to a model, its requests, and its replies |
| `agent` | A turn and a read-only investigation as state machines; approval of host actions |
| `tools` | The tools that the model is offered, and what each call amounts to |
| `compaction` | When and where a conversation is folded into a summary |
| `storage` | Sessions, facts, the audit trail, settings, background commands and reminders as tables |
| `scheduler` | What is told of finished commands and of missed, failed or delivered reminders |
| `chunks`, `markdown` | Cutting an answer into messages, and rendering them as MarkdownV2 |
| `gateway`, `replies`, `settings` | What an incoming message is, and how each command is answered |
| `prompts`, `pending` | What the owner is asked in the middle of a turn, and which prompts wait |
| `commands` | The owner's own command templates |
| `config`, `onboarding`, `cli`, `daemon`, `service`, `logging`, `mcp` | Configuration, the command line, the background process, and MCP results |

State machines take events and return the next step; the program performs the step and hands the
event back. Times, fresh ids and what the host reports are arguments, so every contract says what
holds for all of them. Paths come as lists of components, since how a path is spelled is the
operating system's business.

What the library takes from other crates stands behind a few functions marked `external_body`, each
with a comment on what is claimed of the crate. `Cargo.toml` also names `takecell`, which nothing
here calls: it comes with `teloxide`, and is held below the version that asks for a newer compiler
than this project's.

## Laws

Properties that span functions are public proof functions whose names start with `law_`, next to
the functions they speak of: that requests and their results are never parted, that a turn ends,
that nothing which needs approval runs without it, that no reminder is claimed twice or revived,
that chunks fit and keep their text, that converted text is valid MarkdownV2, and others.
