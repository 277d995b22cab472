# vvdaw

The core of an experimental audio workstation, written in Verus and proved
against its contracts.

## Layout

- `src/` — the verified library.
  - `graph`, `topology`, `adjacency`, `heap`: nodes, connections and the
    processing order (dependency order by Kahn's algorithm, smallest ready id
    first, taken from a min-heap; id order when the connections form a
    cycle).
  - `session`: the saved form of a graph, its validation, and the
    conversions between sessions and graphs.
  - `engine`: how the audio thread applies commands (graph changes only while
    stopped) and advances the stream position.
  - `builtin`, `sampler`: parameter storage and buffer checks of the
    built-in processors; looping sample playback.
  - `loader`, `ipc`, `stream`, `param_changes`: VST3 loader decisions, the
    plugin subprocess protocol, plugin state streams and parameter queues.
  - `wav`, `waveform`, `ui2d`, `ui3d`: WAV file checks and stereo layout,
    and the state kept by the user interfaces.
- `tests/` — tests of the library.
- `app/` — a command-line front end: WAV file input and output, session
  files, plugin directory scans, and the sample arithmetic of the built-in
  processors.

## Proved properties

Among the properties proved about the library:

- the processing order lists every node once, and every node after the nodes
  feeding it whenever the connections form no cycle;
- the dependency sort fails exactly when no such order exists;
- saving a graph as a session and loading it back yields the same nodes and
  connections;
- while the engine runs, no command changes the graph;
- reading a plugin state stream gives back what was written;
- stored process-state codes decode to the state that was stored.
