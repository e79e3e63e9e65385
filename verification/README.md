# taskmgr

The logic of a task manager for Windows, with its behaviour stated in contracts and proved by Verus.

The library in `src/` takes what the system said as plain values and decides what it means: which
rows, texts, graphs and layouts a page shows, what an action on a process does step by step, and
which faults are reported. It makes no call into the system itself.

- `processes`: the rows of the processes, their order and columns, the menu, and the actions on a
  process: ending it or its tree, priority, affinity and debuggers.
- `process_identity`: processes told apart by number and time of creation.
- `applications`: the windows that count as tasks, and their icons.
- `cpu`: the topology, the features, the firmware description and the counters of the processors.
- `gpu`: the graphics adapters, their counters, metadata, histories and page.
- `perfpage`, `perf_layout`, `perf_drawing`, `perf_graphs`, `history`: the performance page and its
  charts.
- `text`, `utf16`, `bytes`, `bits`, `table`, `seqs`, `rect`, `percent`, `pdh`, `options`,
  `resource`, `win32`: what these have in common.

`app/` connects the library with the system: it asks Windows, hands the answers over, and does what
comes back. Floating point stays there. The library speaks of measured percentages through the
traits `Utilization`, `ProcessorValue` and `RelativePerformance`.

`tests/` runs the library on concrete values.

The layouts of records and counter items are those of 64-bit Windows.
