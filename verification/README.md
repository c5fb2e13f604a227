# prospi

A library for reading and editing the player records of a running baseball
game, and an editor window on top of it.

Everything that decides or computes stands in `src/`, in Verus, with its
contract: how records are laid out and packed, how players are found in the
game's memory, what an edit changes and what it leaves alone, how experience
turns into abilities, how the overall rating is made up, how the library of
original pitches and the team names are kept in files.

The library never touches another process. It works on a `Proc`, an image of
the game: the bytes that were fetched, the regions that were reported, and the
writes that are still to be sent. `app/` is the program around it. It opens the
game, fetches what an operation reads, runs the operation on the image, and
sends the writes in order. What goes through all of memory (`Scan`, `Search`,
`GrowthHunt`) says what it wants to read next and takes the bytes piece by
piece, from an image or from the game alike.

| | |
|---|---|
| `process`, `bytes`, `sweep`, `pattern`, `search` | the image, numbers in it, searching it |
| `offsets`, `player`, `fields`, `balls`, `abil` | what a record holds |
| `edit`, `growth`, `koshien`, `recruit` | writing records, experience and the school mode |
| `overall` | the overall rating |
| `scan`, `roster`, `session` | finding, listing and choosing players |
| `traits`, `skills`, `pitches`, `training` | the edits of the window |
| `cheats`, `research` | features that are held on; comparing snapshots |
| `library`, `library_file`, `teams`, `json` | the two files |
| `text`, `digits`, `unicode`, `order`, `show` | names, numbers, sorting, labels |
| `*_laws` | what holds of several operations together |

The trusted part is small: `unicode.rs` says what four functions of `std` return
and `json.rs` what `serde_json` does.
