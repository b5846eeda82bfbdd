# pixelflut

Encoders and helpers for streaming images to a Pixelflut server, verified with Verus.

## Layout

- `src/ascii.rs`: the mathematical model of the text that the encoders write (decimal and
  hexadecimal digits, little-endian bytes) and the lemmas about it.
- `src/pixelflut_base/`: a command builder over a byte buffer (`pixelflut_builder`), the
  row-by-row image encoder (`blit_image`) and the chunked encoder with `OFFSET` commands
  (`blit_image_ng`).
- `src/pixelflut_gstreamer/`: the encoders of the streaming elements (`encoding_helpers`,
  `conv_utils`, `encoding_ng`, `pixelflut_builder`), the host list grammar (`hostspec`) and
  its parser, the round-robin connection pool and the connection plan (`connectionpool`),
  the partitioning of a frame into row ranges (`rsimage2pixelflut`), how a sink sends a
  buffer (`pxmultitcpsink`), how often a buffer is forwarded (`rsduplicator`), the partition
  metadata and the thread pool setup.
- `tests/`: tests of the library on concrete values.
- `app/`: the GStreamer plugin around the library (elements, sockets, buffers, threads).

Every function in `src/` is verified, except a few small trusted wrappers (marked
`#[verifier::external_body]`) that call into `arrayvec`, `bit-set` and the standard library,
and whose contracts follow those crates' sources. Each public function states in its
contract what it returns or writes, over the spec functions of its module. The proof functions named `law_*`
state the properties that hold across calls.
