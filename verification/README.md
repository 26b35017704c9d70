# clippiboy

The decisions behind ClippiBoy, a replay-buffer recorder for games, written
in Verus and proved against their contracts.

`src/` is the library. Every function there is verified; the few calls into
std and outside crates go through small trusted wrappers whose doc comments
say what is assumed of them.

| module | what it decides |
| --- | --- |
| `buffer` | the packet ring of the replay buffer: trimming to length and memory budget without losing decodability, and which packets a clip gets |
| `audio::ring` | one ring of samples per audio source, on the device's timeline: gaps bridged, long absences restarted, clock drift pulled in at a limited rate |
| `audio` | which processes and devices the configured sources record, and that nothing is recorded twice |
| `audio::capture`, `audio::engine` | which timestamps to trust, which streams stop and start when the sources change |
| `audio::report` | what the start-up report says about sources in trouble |
| `capture` | which screen a saved selection means, drift of a running capture, fitting the picture to the target |
| `game` | turning an executable and a window title into a game name |
| `filing` | where a clip file belongs inside the clip folder |
| `edit`, `export` | trim plans, ffmpeg command lines, export recipes, crash repair |
| `encode`, `mft`, `gpu` | encoder choice, bitrate, rate control, keyframe distance, adapter choice, and the decisions of the loop that drives a hardware encoder |
| `profile` | the encoder report written at start-up |
| `convert` | the frame clock: what goes to the encoder on each tick |
| `config`, `control`, `hotkeys` | defaults and migration of the configuration; the local control port's rules; the hotkeys as typed |
| `ui` | which periodic interface tasks run on a given tick |

What holds across calls stands as public proof functions named `law_…`.

`tests/` runs the library on concrete values. `app/` is the program around
it: the configuration on disk, the log, the control port, and the parts that
are floating point.
