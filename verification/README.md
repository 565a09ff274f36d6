# phantom-screen-server

A remote desktop server: it captures an X11 display, or single windows of it, encodes the video as
H.264 and streams it to a browser over WebTransport. The browser sends input back.

- `src/` is the library: protocols, state machines, rules and command lines, verified with Verus.
- `app/` is the program around it: processes, sockets, the X server and GStreamer.
- `tests/` holds the library's tests.

## What is proved

Every function of the library has a contract that says what it returns. Beyond that, proof
functions whose names begin with `law_` state what holds across functions. Among them:

- every input message and every window description that is written is read back;
- a client that takes a snapshot and then every event has the table that the monitor has;
- a resize that is carried out leaves the display at the size that was asked for, rounded to even,
  and whatever holds on to the display is shut down before it is restarted;
- no delta frame of a window is sent without the keyframe that it builds on;
- the loop that sends the display's frames follows every restart of the pipeline.

## What is trusted

The contracts of a few calls are taken as given; each is marked `external_body` or
`assume_specification` and says what it claims:

- `jsonwebtoken::decode` (`auth`),
- `from_slice` and `Deserializer::into_iter` of `serde_json` (`payload`),
- `Certificate::from_der`, `Certificate::hash` and `Sha256Digest::fmt` of `wtransport`
  (`certificate`),
- `GetPropertyReply::value32` of `x11rb` (`description`),
- `String::push`, `str::from_utf8` and `String::from_utf8_lossy` of the standard library (`text`).

## Running

`--jwt-secret`, or `PHANTOM_JWT_SECRET` in the environment, makes sessions require a token. The
HTTP server listens on the port after the WebTransport port. Run with `--help` for the rest.
