# xai_grok_pager

Pager-side state of the agent UI, verified with Verus:

- `agent_mode`: the Shift+Tab mode ring and each mode's label, badge and
  system-prompt fragment.
- `debug_loop`: the hypothesis → instrument → reproduce → analyze → fix →
  verify tracker and the `[rivo-debug]` log-marker contract.
- `side_chat`: durable side chats and their store (create, switch, close
  archives, open re-opens).
- `side_panel`: the side-panel split preference, the process-local tab state,
  the tab-strip hit targets and what the strip paints.
- `window_manager`: tiled windows, their splits, layouts, tiles and pills.
- `commands`: the `/btw`, `/side`, `/sides`, `/multitask` and `/window`
  slash commands.
- `storage`: which directory holds the pager's files and their names.
- `geometry`, `ids`, `text`, `seqs`: rectangles and the layout solver,
  random ids and the clock, string helpers, sequence facts.

`src/` is the verified library; every public function states its result in
its `ensures`, and the `law_*` proof functions state the properties that
span several calls.  Calls into ratatui, uuid, chrono and
agent-client-protocol go through a few trusted wrappers whose doc comments
say what is assumed of them.

`app/` holds what Verus does not see: serde records of the persisted types,
the files under the home directory, and painting into a ratatui buffer.
`tests/` runs the library on concrete values.
