# midi_monitor

A MIDI monitor plugin whose core is verified with Verus.

- `src/` is the verified library:
  - `midi`: controller lanes (`Cc`), their indices and names, and the
    controllers that turn all notes off.
  - `cc_mon`: received messages (`CcValueTime`, values in steps of 1/16383,
    times in nanoseconds), per-channel note tracking (`ChannelInfo`), the
    bounded per-lane histories and channel ids (`Histories`), and the choice
    of columns to draw.
  - `plugin`: the messages the monitor records for each MIDI event.
  - `comm_channel`: a triple buffer that hands messages from a writer to a
    reader in order.
- `app/` is the plugin itself: the host interface (nih_plug), the queue
  between the audio thread and the GUI, the clock, and the iced GUI, which
  draws with floating point.
- `tests/` runs the library on concrete values.
