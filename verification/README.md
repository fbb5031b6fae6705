# hyprresume

Session persistence for [Hyprland](https://hyprland.org): saves the open
applications and puts them back on the right workspaces after a reboot. The
decisions are a library that Verus proves correct; the program around it does
the input and output.

## The library

`src/` computes and decides; it opens no socket and reads no file.

| module     | what it holds                                                              |
|------------|----------------------------------------------------------------------------|
| `models`   | saved windows and sessions, windows and monitors of the compositor, events |
| `text`     | words, lines, trimming, decimals, with their models over `Seq<char>`       |
| `command`  | the command line that starts a saved window again                          |
| `client`   | the requests to the compositor and the meaning of its replies              |
| `plan`     | tiled windows by workspace, inferred layouts, workspaces and monitors      |
| `run`      | the course of a restore: steps, actions, answers, validity                 |
| `restore`  | `RestoreEngine` and `RestoreRun`, which carry a restore out                |
| `watch`    | compositor events and the watch for windows that are late                  |
| `plugin`   | the compositor plugin: expectations, placement, the `sessionctl` protocol  |
| `cli`      | what the command line says                                                 |
| `history`  | laws of whole restores                                                     |
| `progress` | every restore ends                                                         |
| `protocol` | what the restore and the plugin make of each other                         |

A restore is a loop around two functions. `RestoreRun::poll` says what is to be
done: send a request, wait for a window, infer layouts. `RestoreRun::advance`
takes the answer. `accepts` tells whether an answer fits the question.

Layouts are inferred in floating point, so a plan comes in from outside, with
its ratios as text. Coordinates in the plugin are the bit patterns of the numbers
that the compositor works with.

A registration has ten fields, set apart by blanks. For a window that was saved
without a monitor the restore sends the name `-`, which no monitor has.

Two things are believed and not proved: that `String::push` appends a
character, and that a time is formatted by its arguments alone and exists for
the years that `chrono` supports.

## The program

`app/` holds the command line, the sockets, the session files and the callbacks
of the plugin's C++ shim.

## Tests

`tests/` runs the library on concrete values, against the standard library where
it has a function of the same meaning.
