# syber

Remote desktop over QUIC: a server that captures the screen, encodes it to
H.264 and replays the client's keyboard and mouse, and a client that decodes
the stream and forwards its input.

- `src/` is the verified library (Verus): configuration and its defaults,
  passwords, recent connections, certificate PEM/base64 handling and
  fingerprints, the framing of encoder output, the video intake of the client,
  key and button codes and how each server replays them, and the session state
  shared between the windows and their sessions. Laws of the library are the
  `law_*` proof functions.
- `tests/` runs the library on concrete values, with the real openh264, rcgen
  and ring behind it.
- `app/` is the program around it: the egui windows, the QUIC sessions, screen
  capture, input injection and the JSON configuration files.
