# rustpilot

The core of a desktop agent as a verified library: what a task is, how a run of an agent goes from
the request over plan, tools and evidence to the answer, what is sent to a model and how a long
conversation is kept short, and what the tools of the agent compute.

Every function of the library has a contract that Verus proves, but for two kinds: of the time,
which `now` gives, nothing can be said, and the helpers that turn the values of `serde_json` and
`toml` into those of the library and back belong to the calls that read and write them. What those
calls give stands in the contracts of the calls. The laws that span several functions stand as
public proof functions whose names begin with `law_`.

## Layout

- `src/agent.rs`, `src/agents.rs`, `src/flow.rs`, `src/plan.rs`: agents, their kinds and the plans
  that they work off
- `src/tasks/`: the records of a task, and its life from the request to the answer
- `src/memory.rs`, `src/chat.rs`, `src/pairs.rs`: what an agent remembers, and the rule that a
  conversation has to keep
- `src/agent_loop/`: budgets, shortening, the order in which calls run, and the life of a turn
- `src/coding/`: reading, searching, patching and editing the files of a project
- `src/tools/`: pages, searches, tables, charts, pictures and keys
- `src/attachments.rs`, `src/base64.rs`, `src/config.rs`, `src/bedrock.rs`: files, settings and
  another provider
- `src/json*.rs`, `src/text.rs`, `src/offsets.rs`, `src/number.rs`, `src/order.rs`, `src/table.rs`,
  `src/name_map.rs`, `src/deep.rs`, `src/hash.rs`, `src/ids.rs`: the values that all of this is
  made of
- `app/`: files, processes, the network and the loop around the library
- `tests/`: the library on concrete values

## What is trusted

`serde_json` and `toml` read and write texts, `uuid` draws identifiers, and the standard library
gives the time, the lower case of a text, the text of bytes that may not be UTF-8, and appends
characters. What is believed of each stands in the contract of the function that calls it, in
`src/json_text.rs`, `src/config.rs`, `src/ids.rs`, `src/text.rs` and `src/tasks/prompt.rs`.
