# boids

An evolutionary boids simulation: boids eat apples and poison, steer with
genes that mutate from parent to child, and die when their health runs out.

- `src/` — the verified library: the meal decisions (`eat`: what is eaten,
  which apple and poison a boid steers toward, how the food list shrinks),
  the wall push (`walls`), the per-frame walk over the population (`sweep`)
  and the `Food` kinds (`food`).
- `app/` — the window, drawing, randomness and floating-point physics, built
  on macroquad and rand, calling the library for each decision.
- `tests/` — tests of the library.
