# rustercam

A camera picture as ASCII art in the terminal, live or recorded.

`src/` is the library, verified with Verus: rendering camera frames to
characters and colours, the `.tcam` recording format with its writer and its
reader, HTML and SVG captures, the list of cameras, the screens, and the
program's state with what keys do to it. `src/roundtrip.rs` and the modules
below it hold the proofs that what is read of a recording is what was written.

`tests/` runs the library on examples. `app/` is the program around it: the
command line, the terminal, cameras, files, and the figures that are not whole
numbers.

| Module | Holds |
| --- | --- |
| `app` | the program's state and its keys |
| `capture` | cameras and the commands that read them |
| `cli` | what the command line chooses from |
| `color`, `luma` | colours, the palette, brightness, escape sequences |
| `encoder`, `decoder`, `format`, `recording`, `rle`, `wire` | recordings |
| `export` | HTML and SVG captures |
| `frame`, `render` | camera frames and rendered frames |
| `names` | file names |
| `playback`, `ui` | screens |
| `roundtrip` | what is read is what was written |
| `text` | numerals and fills |

Calls into `byteorder`, `flate2`, `rand` and parts of the standard library stand
behind small functions whose contracts are believed, not proved; each names the
function that it calls.
