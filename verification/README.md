# r357

A daemon that plays the Polish internet radio [Radio 357](https://radio357.pl/)
through PulseAudio, meant for small computers with a sound card. What it does is
decided by a library that is verified with Verus.

The daemon is controlled over HTTP:

* `GET /status` tells whether it plays, and which song
* `POST /start` starts playback
* `POST /stop` stops every playback that runs

The library says which failures may be retried (all of them). The program hands them to
the `backoff` crate, which repeats a failing playback with growing pauses for up to
twenty minutes.

## Layout

* `src/` is the verified library. `icy` separates audio from metadata and
  `icy_stream` states what that means for the stream; `title` finds the song title in
  a metadata block; `headers` judges the station's answer; `playback` leads an attempt
  from connection to sound; `retry` sorts failures; `player` holds the player's state
  and turns commands into playbacks; `control` is the HTTP interface; `service` and
  `ipv4` are about addresses and the mDNS announcement; `logging` chooses the log's
  destination; `error` and `text` serve the others.
* `app/` is the program around it: sockets, sound, tasks and the command line.
* `tests/` exercises the library.

Calls into other crates stand behind small functions whose contracts Verus takes on
trust. Each of them says in its documentation which function it calls and what is
claimed of it.
