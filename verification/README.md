# midi_clock_shifter

A tool that receives MIDI clock, models it, and re-emits it ahead of (or
behind) time to several MIDI outputs, so video and clip triggers land on the
beat despite downstream latency.

`src/` is the verified library (Verus). It holds the tool's discrete
decisions on clock, transport and ports:

- `config` — offset/trim ranges and clamping, per-output settings, input source.
- `engine` — the real-time messages (`RtMsg`) and their status bytes;
  - `engine::estimator` — the acquisition phases (no signal, collecting the
    initial fit's samples, tracking), outlier streak and re-initialisation,
    lock state;
  - `engine::scheduler` — per-output tick position and pending start;
  - `engine::transport` — resync quantum and target boundary, start/stop/lock
    handling, which bytes go out for a due tick, the output position counter;
  - `engine::stream` — one output's view of the engine loop, event by event,
    the laws of the byte stream it is sent, and `tick_pass`, one output's turn
    in the loop's tick pass, proved to follow that view.
- `ports` — port-name matching (exact, then `N- ` prefix stripped), loop
  protection, hot-plug reconnect rules for outputs and inputs.
- `display` — beat cells, output status and panel rows.
- `logging` — the bounded log-line buffer.
- `sim` — the splitmix64 generator behind the simulator's jitter.
- `clock` — the `TimeSource` abstraction and a manually advanced clock.

`app/` is the Windows program around it: the egui window, the engine thread
(its loop, channels and waiting), `midir` and virtualMIDI I/O, configuration
files, the `log` backend with its level filter, and the floating-point timing
(PLL estimator, send times with slewing and catch-up, simulator pacing).
