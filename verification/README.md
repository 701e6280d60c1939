# v8pcm

Decoder for Video8 PCM audio captured as RF: 13-byte blocks with a
CRC-16, eight 8-bit non-linear words per block, 132 blocks and 525 stereo
sample times per NTSC field.

- `src/` is the verified library (Verus): the CRC (`crc`), the 8-to-10-bit
  expansion (`expand`), field de-interleaving (`field`), concealment of
  missing samples (`conceal`), raw PCM and WAV framing (`output`), stream
  bookkeeping (`stream`) and the integer side of demodulation: bit packing,
  block search in a bit stream, the local search schedule and the phase
  countdown (`demod`).
- `app/` is the program around it: the five tools (`v8crc`, `v8decode`,
  `v8demod`, `v8tune`, `v8wav`, chosen by program name or first argument),
  libsndfile access, and the floating-point signal processing.
- `tests/` exercises the library on concrete data.
