# quiet_tui

A terminal transcript that stays quiet: runs of finished tool calls fold into one Work row once
nothing can be added to them, and everything that a user has to act on stays visible.

`src/` is the library, verified with Verus. `tests/` runs it. `app/` holds what touches the
terminal, the file system and the clock.

## Modules

- `text`, `web_url`, `json`, `output_scan`, `keyed`, `geometry`: texts, links, JSON documents,
  the scan of command output, keyed collections and screen areas.
- `history_cell`, `dynamic_tool`, `lifecycle`, `agent_fleet`, `card`: the records of a
  conversation and the cards that some of them show.
- `tool_run_projection`, `tool_classification`, `classification_memo`, `compact_tool_group_item`,
  `compact_tool_groups`: which records form a run, when a run is sealed, and how it folds.
- `pager_layout`, `prepared_cell`, `pager_content`, `viewport_model`, `conversation_viewport`: the
  rows of the retained conversation, their layouts, scrolling, selection and the live tail.
- `screen_model`, `owned_screen`, `pane`, `app_model`, `app`, `app_pointer`, `app_frame`: a
  screen with its groups, the two panes, and what events and frames do to them.
- `legacy_tool_history`, `legacy_turns`: compact rows restored from old rollouts.
- `hook_lifecycle`, `quiet_metrics`, `ledger`, `markdown_render_cache`, `active_cell_selection`,
  `version`, `quiet_bench`: hooks, counters, caches, versions and measured frames.
- `group_laws`, `viewport_laws`, `screen_laws`, `unfold_laws`, `splice_laws`: what holds across
  functions.

Contracts are stated over mathematical models: `ViewportModel`, `ScreenModel`, `PaneModel` and
`AppModel` are the views of `ConversationViewport`, `OwnedScreen`, `Pane` and `App`. An operation
states which model it leaves behind and, where it can do so, what it asks the host to do and which
counters it moves. A ledger holds the counters beside the classifications that were made: a look at
an exec or MCP cell is scanned once for each state of the cell, and counts by what the memo holds
of it. A frame counts the layouts of the committed cells that were not laid out at its width, and
the draws of those on the screen.

The layouts that a view needs between two frames, to find a row or to keep its place, count with
the next frame.
