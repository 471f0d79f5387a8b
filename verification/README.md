# Fruit Splat

A tower defence with fruit: fruit walk a winding track toward the exit, the
player buys towers to pop them, and a popped fruit bursts into smaller, faster
ones. Written in Rust with macroquad; the rules of the game are a library whose
behaviour is stated in `requires` / `ensures` contracts and proved by Verus.

## Layout

- `src/` is the verified library, `fruit_splat`. It works on whole numbers:
  lengths in pixels, distances along a lane in hundredths of a pixel,
  durations in milliseconds or microseconds, speed factors in thousandths.
  - `fruit` — the fruit ladder, armour, splitting, walking and chilling.
  - `tower` — the tower kinds, their upgrade tables, placed towers and spike piles.
  - `wave` — what each wave sends, the boss schedule, the speed ramp.
  - `mode` — the three difficulty settings.
  - `tracks` — the route table.
  - `combat` — volleys, target ranking, landing hits, fruit walking over spikes.
  - `turn` — one tower's turn: cool down, then lay, chill or fire.
  - `run` — the state of a game: screens, cash, lives, waves, the board.
  - `scenery` — each route's theme and prop mix, and the seeded generator.
  - `chance` — the one call into macroquad's random number generator.
- `tests/` exercises the library on concrete values.
- `app/` is the program around it: the window, input, the lanes' geometry,
  shots in flight and all the drawing.

## Shields

A shielded fruit shrugs off every hit until a tower that breaks shields
reaches it. Each fruit but the boss is rolled for a shield as it spawns, with
a chance the caller names in thousandths. The game names no rate, so the
program passes 0 and shields only appear in the screenshot demo.
