# mtg_forge_rs

Rules-engine pieces for a Magic: The Gathering simulator, written in Verus:
each function carries a `requires`/`ensures` contract that Verus proves.

Layout:

- `src/` — the verified library.
  - Cards and mana: `ids`, `card`, `mana`, `mana_payment` (payment
    resolvers), `mana_engine` (which permanents produce mana, can a cost be
    paid).
  - Loading: `text` (character-level parsing helpers), `card_loader`
    (card files), `deck` (deck lists), `database` (cards by name, card file
    paths), `hand_setup`, `stop_condition`.
  - Game state: `game_state` (zones, players, the action log and undo),
    `priority` (rounds of priority as steps), `game_text` (the lines the
    game prints).
  - Game rules: `combat` (attackers and blockers), `declarations` (checks
    on declaring attackers and blockers), `legal_actions` (who may
    attack or block, what may be cast or played), `ordering` (stable
    ordering by key), `evaluator` and
    `heuristic` (board and creature scores).
  - Controllers: `controller`, `zero_controller`, `zero_controller_v2`,
    `fixed_script_controller`, `scripted_controller`, `random_controller`,
    `random_controller_v2`,
    `heuristic_choices`, `interactive`, `replay_controller`.
  - Logging and snapshots: `logger`, `snapshot`, `state_hash`,
    `json_strip`, `game_result`, `actions`, `error`.
- `tests/` — tests run against the compiled library.
- `app/` — the unverified rim: reading files and directories, drawing
  random numbers with a given probability, prompting a human player.
