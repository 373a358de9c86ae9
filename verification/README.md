# Continuous planning

A durable, staged plan for a conversation with a model: a Supervisor plans, one Implementer
executes the selected step, and every change of the plan is a numbered revision.

`src/` is the library, verified with Verus:

- `plan`, `request`, `model`: the plan, the requests that change it, validation, timing and the
  forecast; `model_laws` and `forecast_laws` state what every request keeps.
- `message`, `message_parser`, `message_items`: the bounded message documents of the Supervisor;
  `message_laws` states that a document is read whole or not at all, however it is cut, and
  that the user is shown the texts for the user while it streams in.
- `runtime`, `delivery`, `attention`, `evidence`, `binding`, `lifecycle`, `tool`: the state of one
  conversation and its transitions. Where a transition needs the host (storage, another
  conversation, a clock), the library returns the next step and takes its outcome back.
  `delivery_laws` and `evidence_laws` state what survives failures and restarts.
- `fragments`, `history`, `protocol`: bounded context, cursors and pages, and the notifications
  that clients see.
- `display`, `progress`, `layout`, `render`, `pane`: the task list as drawing operations on a grid.
- `text`, `json`: text measured in bytes, and the calls into other libraries that only compute.

`app/` is the host around it: the database, the conversations, the wire format and the terminal.
`tests/` runs the compiled library.
