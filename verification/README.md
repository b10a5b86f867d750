# push_learn

Reinforcement learning for a two-joint planar arm that pushes a block to a goal: in a deterministic
simulator, and inside an ensemble of networks that has learned how the simulator's state moves.

```text
policy:  observation    -> action
model:   state + action -> next state
```

The library in `src/` is written and verified with Verus.

| Module   | What it holds                                                                      |
| -------- | ---------------------------------------------------------------------------------- |
| `num`    | the numbers that everything else is written over, and names for what they compute  |
| `text`   | comparing, joining and splitting text                                              |
| `env`    | observations, states, rewards and the simulator                                    |
| `rl`     | random streams, networks, Adam, PPO, SAC and the replay ring                       |
| `world`  | datasets of episodes, ensembles and their training                                 |
| `stages` | recording, imitating, imagining, comparing and evaluating; command-line options    |

All code is generic over `num::Scalar`, a number type with the arithmetic of floating point. Nothing
is assumed of what its operations return. What a function computes is stated for every number type
whose operations always give the same result for the same operands (`num::repeatable`); that lengths
fit, indices are in bounds and counters behave is stated for all of them.

The program in `app/` uses single-precision numbers. It reads arguments and files, prints, and turns
the library's values into JSON and back. Its stages are independent and pass files to each other:
training in the simulator, `--collect-data`, `--train-world`, `--compare-world`, `--imagine`,
`--evaluate` and `--evaluate-world`; `--help` lists the options.
