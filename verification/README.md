# AirCard

AirCard customises the card artwork and the keypad of a paired iPhone.

- `src/` is the library, verified with Verus: the property lists, the USB and file
  protocols, pairing, the log scanner, the StreamingZip archives, the AirTraffic
  conversation, the backups of the original artwork, and the state of the window. Its
  functions do no input or output. Work that goes back and forth with a phone is written
  as steps: a step says what to do next, and takes what came of it.
- `app/` is the program around it: sockets, TLS, files, the worker process and the window.
- `tests/` runs the library on concrete values.

Apple's own libraries, the preparation of artwork and the reading of theme packages stand
behind the `Platform` trait in `app/platform.rs`.
