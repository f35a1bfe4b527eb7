# DARTsim

A discrete-event simulator for tail-delay control in reconfigurable
systems. A single server moves over a directed graph of configurations,
each holding its own queue of jobs; moving between two of them costs a
random reconfiguration time, and reaching a target may require crossing
intermediate configurations, which the server may also serve on the way.
The simulator implements DART and three baselines (Tian & Shone's `K`-stop
index, with and without en-route service, and Duenyas & Van Oyen's
reward-rate index).

## Layout

```
src/      the library, proved with Verus
  config.rs       policy keys, the structural and policy rules of a configuration
  topology.rs     the reconfiguration graph: means, per-edge families, adjacency
  dist.rs         first hops of shortest-path trees, and the walk along them
  policy.rs       DART's commitment rule, the Duenyas-Van Oyen state machine,
  policy/         the candidate sequences of Tian's K-stop index
  event.rs        event kinds
  simulation.rs   the server's state machine, job conservation, seed streams
  stats.rs        histogram bins, reservoir sampling, stride thinning
tests/    tests of the library
app/      the executable: TOML loading, float scores and sampling, the event
          loop, aggregation and output
```

The library holds what integers, booleans and indices decide; every public
function states its result in its contract, and the laws that relate
several calls are public proof functions. Everything that computes on
floating-point rates, times and ages — urgencies and indices, shortest-path
distances, random draws, percentiles — lives in `app/`, which calls the
library for each decision those numbers feed.

## Usage

```sh
dartsim --config run.toml [--output human|json|csv]
dartsim-samples --config run.toml [--mode weighted|per-queue] [--cap N]
```

The second command is the same executable invoked under the name
`dartsim-samples`, or as `dartsim samples ...`.
