# ptl

Print labels on Brother P-Touch printers over USB.

The library (`src/`) holds the label logic with machine-checked contracts:

- `bitmap`, `compose`: label bitmaps, horizontal concatenation, padding,
  cut marks and the composition of several labels into one strip;
- `raster`, `protocol`, `session`: the raster column encoding, the printer's
  command bytes and status reply, device selection, status polling, the
  message sequence of a print job and its split into USB transfers;
- `picture`: grayscale images scaled to the tape height (resampling by the
  `image` crate) and turned into ink;
- `devices`: the table of supported models and tape widths;
- `text`, `labels`: argument and JSON-line handling, `VID:PID` parsing, font
  family choice;
- `editor`: the interactive editor's key handling;
- `laws`: properties that relate several operations.

`app/` is the command-line program: argument parsing, configuration file,
USB transfers, text shaping with cosmic-text, PNG input and output, and the
terminal interface.
