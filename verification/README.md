# ace_of_the_heavens

The rules of a fast two-player, rollback-networked aerial dogfight, as a
Verus-verified library, with the game shell around it.

- `src/` — the verified rules: input encoding (`input`), player ordering,
  session start-up and the packets of text messages (`network`), scoring, rematches and seed agreement
  (`game_logic`), damage, dodging and collisions (`player`), gun heat and
  animations (`shooting`), sound scheduling (`audio`), map layouts (`map`),
  and console commands and their text form (`console`, `text`).
- `tests/` — tests on concrete values.
- `app/` — the Bevy game: rendering, physics in floating point, timers,
  audio playback, the clock, the network socket and the rollback session.
  It hands the library plain values and acts on what comes back.
