# av1an_core

A video encoder that cuts a video into chunks, encodes the chunks in parallel and joins them again
has to decide a lot between its processes and files. This crate makes those decisions, and Verus
proves that they are what they are said to be.

- `src/broker`: what a worker does with the queue and with each chunk (searching for a quality,
  reusing a probe, running passes, retrying, shutting down), which cores it is bound to, and how a
  crash of the encoder is reported.
- `src/concat`: joining the encoded chunks: IVF files byte by byte, one file at a time or all in
  memory, and the plans for mkvmerge and FFmpeg.
- `src/decimal.rs`, `src/little_endian.rs`: numbers as text and as bytes.
- `app`: the threads, processes and files around it, which are not verified.

The files that end in `_laws.rs`, and public proof functions elsewhere, state what holds of whole
runs and whole files: for instance that a joined IVF file is read back as the frames of all its
parts, or that a second request to terminate ends all work on a chunk.
