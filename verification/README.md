# Flock Lab

A boids flocking and crowd simulation demo. The verified library (`src/`)
holds the integer and collection logic; the floating-point simulation, the
rendering and the window loop live in `app/` and call into it.

- `spatial_hash`: cell-keyed buckets of agent indices and the 27-cell
  neighbour query, with its membership laws.
- `population`: keeping agents, predators, obstacles and trails at their
  configured sizes, and advancing the bounded trails.
- `settings`: clamping of the count settings.
- `instances`: capacity policy of the renderer's instance buffer.
- `input`: routing of input events and the viewport's resize decision.
- `mesh`: the dart mesh's index list.
- `ui`: control-panel state.
