# plinth_plugin

Event handling for audio plugins (CLAP, VST3, standalone), verified with Verus.

- `src/` is the verified library: MIDI capability and note expression declarations,
  decoding of raw MIDI bytes, the events a processor receives and the splitting of a
  buffer at parameter events, the hidden VST3 parameters that stand for MIDI
  controllers, the ordering of VST3 parameter changes, which host events a plugin
  takes, the answers a VST3 component gives about buses, controllers and note
  expressions, the checks on a plugin's parameters and what a call of `process`
  does. Floating point values pass through it as bit patterns.
- `app/` reads CLAP and VST3 event lists and parameter changes through their C
  interfaces, scales values with floating point arithmetic, formats note expression
  values, and connects MIDI input ports.
- `tests/` exercises the library on concrete values.
