# Tau

Tau is a harness for a coding agent. The harness stands between the user's
clients, an agent that talks to a language model, and extensions that provide
tools. It keeps the history of every session, decides whose turn it is, sends
tool calls on their way one after another, and remembers what it published for
clients that join later.

`src/` is the library: everything that the harness and its helpers decide and
compute, proved with [Verus](https://github.com/verus-lang/verus). Reading,
writing, waiting and talking to other machines is left to `app/`.

## Where things are

| Modules | What they hold |
| --- | --- |
| `state`, `laws`, `startup`, `skill_reads`, `counting` | the harness as a state machine, and what holds of it whatever happens |
| `harness`, `handlers`, `clients`, `serve`, `closing` | the harness itself, step by step |
| `session`, `prompt`, `discovery`, `skills`, `skill_tool` | histories, prompts and skills |
| `tool_turn` | which tool calls may run beside each other |
| `chat_completions`, `think_tags`, `pool`, `pool_run`, `agent` | requests to language models |
| `models`, `settings`, `secrets`, `minting`, `router` | choices and rules |
| `provider_cli`, `provider_store`, `inspect`, `display`, `debug_log` | what is shown and written down |
| `extension_data`, `paths`, `runtime_dir`, `socket` | decisions about files and sockets |
| `event`, `messages`, `context`, `cbor`, `json`, `diff` | the values that are exchanged |
| `assoc`, `order`, `text`, `calendar`, `error` | the ground everything stands on |

A function of the harness says what it does in terms of `State`: its
contract equates the state after it with a function of the state before it.
`laws`, `startup`, `skill_reads` and `counting` then prove what holds of those functions
together.

## What is trusted

The library calls `serde_json`, `json5`, `blake3`, `rand` and a few functions of
the standard library. Each call stands in a small function marked
`external_body`, whose comment says what is taken for granted of it.
