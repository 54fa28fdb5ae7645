# coda_agent

Agents that talk to a language model, call tools and hand work to each other. The library decides;
what it decides is carried out around it.

## Layout

- `src/` is the library, verified with Verus.
  - `agent`, `process`, `llm`, `ids`, `task`, `execution`, `persist`: threads, their history, what
    passes between them, and what is stored of them.
  - `prompt`, `subagents`, `capabilities`, `config`, `program`: what an agent is made of.
  - `message_view`, `compaction`: which part of a history the model sees, and what may be replaced by
    a summary.
  - `runtime`: a session. `turn`, `scopes`, `delivery` and `cleanup` keep its books; `agent_loop`,
    `auto_compact`, `generation`, `tools`, `turn_run` and `driver` are the state machines of a thread;
    `protocol` shows that all of them keep a history that a provider accepts; `storage`, `recovery`
    and `bootstrap` carry a session from one process to the next.
  - `text`, `lists`, `string_map`: what the rest is built on.
- `app/` runs sessions: it waits for models, tools and storage, and drives the state machines.
- `tests/` are scenarios on concrete values.

## Reading the contracts

Every type has a view: a type of the same name ending in `View`, made of sequences, maps and numbers.
Contracts speak of views. A public proof function whose name begins with `law_` states a property that
spans several functions.

What the library asks of other crates stands behind functions marked `external_body` and
`assume_specification` items, in `ids` (identities and the clock), `agent` (recorded JSON), `tools`
(the arguments of a call) and `text`. The comment above each one says what is taken for granted.
