# Bad Spaceship

A game about building rockets out of loose parts and flying them off a small planet,
alone or in a room with others, with a headless test client and a buoyancy simulator
beside it.

- `src/` is the game's logic as a library, verified with Verus. It works on whole numbers:
  lengths in micrometres, times in nanoseconds, ratios, directions and colours in
  millionths, angles in microradians, screen coordinates in thousandths of a pixel. What
  the physics engine, the renderer, the network or trigonometry gives comes in as plain
  arguments.
  - `client`: input, camera, launch and flight, multiplayer, and how everything looks
  - `bot`: the headless test client
  - `buoyancy`: the hollow body in the water tank
  - `playground`: the platform with a character and parts to pick up, for an older engine;
    `app/` has no program for it
  - `geom`, `lists`, `text`, `chance`: what the others share
- `tests/` runs the library on concrete values.
- `app/` is the program around it: window, physics, network and the page, on bevy, avian,
  egui and lightyear. `bot` or `buoyancy` as the first argument starts those; otherwise it
  is the game.
