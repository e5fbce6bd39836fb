# lightbot

A chat bot for QQ: it listens to NapCat over a WebSocket, decides which messages to
answer, asks a language model, and keeps conversations, a memory and a timeline.

- `src/` is the library, written and proved in Verus. It holds every rule of the bot, on
  plain values: no file, socket, process or clock is touched but through a handful of
  small functions whose contracts are taken on trust and say so.
- `tests/` runs the library.
- `app/` is the program around it: connections, files, processes, the settings file, and
  everything that is reckoned in floating point.

The contract of a function says what it gives for every input. What holds across
functions is stated by the proof functions named `law_…`, each in the module it is about.
