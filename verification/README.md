# remote-lab

A small remote desktop. The host captures its screen and accepts pointer, scroll and key
input over a WebSocket; the viewer shows the stream in a window. The host serves a viewer
page on the same port, so a browser will do as well.

There is no TLS and no password: use it on networks you trust.

## Layout

- `src/` is the library, verified with Verus. Every function states what it returns, and
  the laws that span functions are public proof functions (`lemma_..`).
  - `frame`: the binary frame, built and parsed
  - `scale`: dropping the alpha channel, fitting a width, nearest-neighbour scaling
  - `capture`: from a captured screen to a frame, and the pace of the frames
  - `jpeg`: which JPEG data the decoder can be handed
  - `input`, `keys`: input messages, and what the host does for them
  - `viewer`: the window's state, and the messages for what happens in it
  - `stream`: what each end of the socket does with what arrives
  - `http`: telling a WebSocket request from a browser, and the head of the page's response
  - `session`, `calendar`: consent, the session log and its time stamps
  - `text`: decimal numbers, trimming, ASCII case
- `app/` is ordinary Rust around it: sockets, screen capture, input injection, the window.
- `tests/` runs the library on concrete values.

What is believed without proof is the behaviour of three calls: the JPEG encoder and the
decoder of the `image` crate (`capture::encode_jpeg`, `viewer::decode_picture`) and
`std::str::from_utf8` (`http::utf8_text`). Their doc comments say what is claimed of each.

The decoder panics on some frames that no common encoder writes.
`RemoteViewer::push_frame` is not to be called with them; `RemoteViewer::try_push_frame` tells
them apart, and the window in `app/` decodes them outside of the library.

Build with optimisations (`--release`): besides being fast enough for a stream, the decoder
then has no overflow checks, which some damaged data would trip.

Numbers in the single-precision format are held in the library by their bit patterns
(`input::Single`); multiplying and rounding them is left to `app/`.

## Host options

```
remote-lab host [OPTIONS]

  --bind <ADDR>           default 0.0.0.0:9753
  --monitor <INDEX>       default 0
  --fps <N>               default 12
  --jpeg-quality <1-100>  default 60
  --max-width <PX>        default 1280  (0 = capture native resolution)
  --list-monitors         print monitors and exit
```

The viewer takes the host's address: `remote-lab viewer --url ws://<host>:9753/`.
