# Moonshine

The decisions of a game-streaming host, as a verified library: what it measures, when it
captures, where it sends frames, and how it ends a session. The functions in `src/` carry
contracts that Verus proves, but for the few that call into other crates, whose contracts are
believed. `app/` is ordinary Rust around it: sockets, threads, files, the service manager and
the compositor's protocol objects.

## Capture and streaming

| Module | What it decides |
| --- | --- |
| `capture_trigger` | which applied content makes a scene worth capturing |
| `buffer_timing` | how old the buffer of a direct capture is |
| `video` | stream settings, where frames go, what sending them adds to the counters |
| `metrics` | counters and the measurements of a frame |

## Session processes

| Module | What it decides |
| --- | --- |
| `units` | the names and properties of a session's units |
| `launcher` | runtime programs, and the script that runs Xwayland in its scope |
| `bus` | what the service manager's answers mean |
| `processes` | control group paths and their population |
| `initialization` | the order in which units are created |
| `termination` | how the processes of a session are ended |
| `session` | who asks for the end of a session, and who carries it out |

## Benchmark

| Module | What it decides |
| --- | --- |
| `plan` | arguments, settings and the plan of a session |
| `campaign` | the order of runs, their set-up, and what comes of all of them |
| `measurement` | which frames count, and when their receipt does |
| `receiver` | which shards of a frame have come in |
| `accumulator`, `distribution`, `report` | what a measurement comes to |
| `quality` | whether it can be relied on |
| `raw`, `environment` | records of single frames, and of the machine |

`time`, `text`, `decimal`, `names`, `sums` and `net` hold what the others share.

## What is trusted

Calls into other crates stand behind small functions with nothing else in them: histograms
(`hdrhistogram`) in `distribution`, random identifiers (`uuid`) in `units`, the search for
programs (`which`) and shell quoting (`shlex`) in `launcher`. `text` states what
`String::push` does. Their doc comments say what is claimed.

Means and rates are floating-point numbers. The library hands out sums and counts, and
fractions; `app/` divides.
