# lost_oppai

The logic of the game Lost Oppai and of its dialogue tools, as a library
whose behaviour is stated in Verus contracts and proved.

- `src/` — the verified library:
  - `tiles`, `bitmask`, `bitmap`: the tile map of the endless world, how its
    tiles collapse into water, grass and path, and which atlas tile and
    collider each tile gets;
  - `graph`: the path graph between the world's hotspots (Kruskal's spanning
    forest and the extra edges for outer hotspots);
  - `chunk_manager`, `flora`, `fauna`, `player`: chunks on screen, flora on
    grass, the birds' and the player's states;
  - `npc`, `runner`, `typewriter`, `option_selection`, `menu`: characters,
    dialogue runners and their commands, the typewriter that writes lines,
    choosing options, the main menu;
  - `yarn`, `dialogue_flow`, `graph_output`, `petgraph_specs`: statistics
    and checks over the yarn dialogue files, and the conversation-flow
    graph drawn from them;
  - `text`: characters, lines, splitting and trimming.
- `tests/` — tests on concrete values.
- `app/` — the command-line tools: `graph` writes a DOT file per dialogue,
  `lines` reports who speaks how many lines.
