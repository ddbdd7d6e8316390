# narvo_app

The runner of the Narvo engine, as a library whose behaviour is stated in
contracts and proved by Verus.

- `src/cli.rs` — the command line: which command a list of arguments names,
  which flags conflict, and the sentence each refusal is reported with.
- `src/modes.rs` — the demo simulations a headless run can drive, by name.
- `src/headless.rs` — the decisions of the headless runner that need no world:
  replaying a recording tick by tick, how long a replay runs, the loop's
  counters (frames, ticks, waiting on an agent), and what a finished run
  reports.
- `src/ipc.rs` — where an agent's request meets a run: names of entities, the
  queue of requests and answers, the recording's cut at the first accepted
  write, stepping the budget, and the refusals.
- `src/audio.rs` — which sound cues a tick's counters produce.
- `src/inspector.rs` — the debug overlay's lines.
- `src/frame.rs` — the frame clock, the screenshot request, the overlay's
  switches.
- `src/content.rs` — the built-in demo texture.
- `src/assets.rs` — where a scene's assets are looked for.
- `src/text.rs` — decimal and hexadecimal text, and number parsing.

`app/main.rs` is the executable around the library: it reads the arguments,
writes to the terminal, and refuses the commands this build has no engine for.
