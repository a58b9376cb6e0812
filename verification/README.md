# agent_engine

The logic of a coding agent that works in the terminal, written in Verus: what
it says to the model, how it reads the streamed reply, which tools it may run,
what it stores, and what it shows. Every function of the library states what it
returns or changes, and Verus proves it.

## Layout

`src/` is the library.

| Part | Modules |
|------|---------|
| Conversation | `types`, `context`, `ids` |
| Model protocol | `llm` (requests, retries), `sse` (streamed replies), `json` |
| Run of an agent | `agent`, `run` (rounds), `drive` (a turn, event by event) |
| Tools | `tool` (registry), `builtin` (descriptions), `tools` (what they decide), `permission`, `pattern`, `snapshot`, `git` |
| Sessions | `storage` (messages as rows), `config` (paths) |
| Interface | `tui`, `turn`, `app_state`, `export`, `keys`, `view`, `markdown`, `markdown_render`, `table`, `style`, `theme`, `width`, `duration` |
| Program | `cli` |
| Text and numbers | `text`, `number` |

`app/` is the program around it: the terminal, the database, the network, the
file system and the repository. It carries out what the library decides and
hands back what happened.

`tests/` runs the library with the crates that it calls.

## What is proved

Beside the contract of each function, public proof functions state what holds
of several together. Some of them:

- a stored message is read back as it was (`storage::save_message`), where the
  JSON in it is compact and not nested too deep to be read (`storage::storable`);
- how the text of a stream is cut into pieces does not matter
  (`sse::pieces_do_not_matter`; bytes are read as text piece by piece, so a cut
  within a character does), and a reply is what was streamed
  (`run::replies_are_what_was_streamed`);
- the usage of a reply counts once (`run::a_reply_is_counted_once`), and a turn
  leaves what it used in the total once (`drive::turns_are_paid_once`);
- six replies in a row that call tools and say nothing end a run
  (`run::six_sterile_rounds_end_a_run`);
- an edit leaves everything but the text that was found as it was
  (`tools::edits_keep_the_rest`);
- a turn stays in order and ends once (`drive::turns_stay_orderly`,
  `drive::turns_end_once`);
- a planning agent does nothing without approval but read and search
  (`cli::planning_needs_approval`);
- undo takes back the last snapshot of a file
  (`snapshot::undo_reverts_snapshot`);
- wrapping a line drops no characters
  (`markdown_render::wrapping_drops_nothing`).

Calls into other crates stand behind small functions whose contracts say what
is relied on: `serde_json` in `json`, `regex` and `glob` in `pattern`,
`unicode-width` and `textwrap` in `width`, `uuid` in `ids`.
