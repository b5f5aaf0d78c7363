# asl_dmr_bridge

The logic of a bridge between an AllStarLink node (USRP voice over UDP) and a
DMR network (Homebrew protocol), written in Rust and verified with Verus.

- `src/` is the library.  Every function states what it returns, and the proof
  that it does so is checked.  The laws of the library, which relate several
  functions, are the public proof functions named `law_*`.
- `tests/` runs the library on concrete values.
- `app/` is the program around it: sockets, files, timers, configuration,
  audio levelling in floating point, and the vocoder and audio devices.

| Module | What it holds |
| --- | --- |
| `types`, `audio`, `events`, `config` | identifiers, frames, events, rules of the configuration |
| `bytes`, `bits`, `text` | integers, bits and text as bytes |
| `fec`, `rs`, `bptc` | Hamming, Golay, quadratic residue, Reed-Solomon and product codes |
| `embedded_lc`, `talker_alias`, `sync`, `frame` | what a DMR burst is made of |
| `voice_channel` | channel coding of vocoder frames |
| `dmrd`, `usrp_wire`, `wav`, `rates` | packets and files |
| `voice`, `ptt` | calls, and the half-duplex state machine |
| `homebrew`, `brandmeister`, `provision` | the session with the master, its description of the station, static talkgroups |
| `usrp`, `usrp_tool` | the FM side, and the tool that sends and receives its voice |
| `stats`, `levels`, `subscriber` | counters, audio levels, the table of subscribers |

Times are nanoseconds on a clock that only moves on; the caller reads it.
