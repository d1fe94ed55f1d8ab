# isobmff_media

Sample entries, descriptors, sample layers, the sequence of boxes and the file
structure of the ISO base media file format (ISO/IEC 14496-12) and of the MP4
file format (ISO/IEC 14496-14), written in Verus: every function in `src/` is
verified against its contract.

## Layout

- `src/bytes.rs`: the failures of one box, big-endian fields and the cursor
  fields are read with.
- `src/text.rs`: numbers and box types written out as text, for the failures
  of every layer, each of which writes itself out with `message`.
- `src/sequence/`: the box header of §4.2, the boxes a payload holds, and a
  reader and a writer of the sequence of boxes a file is formed as, taking
  the input as it arrives and laying the file back down event by event.
- `src/mp4/`: the descriptors of ISO/IEC 14496-1, the `esds` box and the
  `mp4a`, `mp4s` and `mp4v` sample entries.
- `src/sample/`: the sample layer: sample tables and movie fragments resolved
  to the bytes each sample lies in, a reader gathering those bytes, writers of
  sample tables and movie fragments, segment indexes, random access and
  sample flags.
- `src/structure/`: the order the top-level boxes of a fragmented movie file
  and of a media segment come in, and the readers and writers that wire the
  layers above into one machine per kind of file and direction. Reading a
  box into its value and writing a `moof` out of its value are a box codec's
  work: a reader hands the box it gathered whole over and goes on once its
  value is handed back, and a writer hands the layout of a fragment over and
  lays the `moof` written from it down. The fragmented reader can also be
  resumed at a fragment or an index an index points at.
- `tests/`: tests run against the compiled library.
- `app/`: the failures of the library as `Display` and `Error` types, and the readers and writers
  driven to the end of what they are handed, with a box codec the caller
  brings.
