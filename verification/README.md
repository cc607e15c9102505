# tsq

A toy eight-step sequencer: kick, closed and open hi-hat, and a tone voice
(sine or square) playing the C major scale, one note per step, at 120 BPM.

- `src/` is the verified core: the pattern and its random draw
  (`pattern`), the sample clock (`clock`) with the binary64 rounding of its step length
  (`binary64`), the state shared by the audio
  callback and the controls (`state`), what each audio frame starts
  (`engine`), the terminal rows (`display`) and the lamps and key commands
  of the control panel (`panel`).
- `app/` is the program: audio output through cpal, the fundsp voices, and
  the keyboard loop through crossterm.
- `tests/` runs the library on concrete values.
