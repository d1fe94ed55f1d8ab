use isobmff_media::sample::boxes::{
    DataEntry, MovieBox, MovieFragmentBox, SampleDescriptionEntry, SampleSizes, TrackBox, TrackExtendsBox,
};
use isobmff_media::sample::error::SampleErrorKind;
use isobmff_media::sample::movie_fragment_writer::{build_movie_fragment, FragmentLayout};
use isobmff_media::sample::sample::Sample;
use isobmff_media::structure::error::{FTYP, MOOF, MOOV, STYP};
use isobmff_media::structure::fragmented_reader::FragmentedReader;
use isobmff_media::structure::fragmented_writer::FragmentedWriter;
use isobmff_media::structure::segment_reader::MediaSegmentReader;
use isobmff_media::structure::segment_writer::MediaSegmentWriter;
use isobmff_media::structure::stack::{media_data_base, BoxValue, BrandsBox, GatheredBox, StackError, StackErrorKind, ValueKind};

/// The payload of the brands handed over here: `isom`, minor version 512, `isom` and `iso6` compatible
fn brands_payload() -> Vec<u8> {
    b"isom\0\0\x02\0isomiso6".to_vec()
}

/// The payload the movie is laid down with here: what it declares is handed back by the test
fn movie_payload() -> Vec<u8> {
    vec![0x4d; 24]
}

/// The payload a fragment's `moof` is laid down with here, of the length the tests lay it out for
fn moof_payload() -> Vec<u8> {
    vec![0x46; 24]
}

/// Where the media data of a fragment starts, counted from the first byte of its `moof`
const MEDIA_DATA_BASE: u64 = 8 + 24 + 8;

/// Movie of track 1, fragmented with samples that last 1024 units and occupy 4 bytes
fn movie() -> MovieBox {
    let trak = TrackBox {
        track_id: 1,
        sample_descriptions: vec![SampleDescriptionEntry { box_type: *b"avc1", payload: vec![0, 0, 0, 0, 0, 0, 0, 1] }],
        data_entries: vec![DataEntry::Url { location: None }],
        time_to_sample: Vec::new(),
        sample_to_chunk: Vec::new(),
        sample_sizes: SampleSizes::PerSample(Vec::new()),
        chunk_offsets: Vec::new(),
    };
    let trex = TrackExtendsBox {
        track_id: 1,
        default_sample_description_index: 1,
        default_sample_duration: 1_024,
        default_sample_size: 4,
        default_sample_flags: 0,
    };
    MovieBox { tracks: vec![trak], track_extends: Some(vec![trex]) }
}

/// A sample of track 1
fn sample() -> Sample {
    Sample::new(1, 0, 1_024, 0, 0, 1, b"SAMP".to_vec())
}

/// The sample of track 1 that follows [`sample`]
fn next_sample() -> Sample {
    Sample::new(1, 1_024, 1_024, 0, 0, 1, b"DATA".to_vec())
}

/// Every byte the fragmented writer laid down, drained through a buffer of `length` bytes
fn drained(writer: &mut FragmentedWriter, length: usize) -> Vec<u8> {
    let mut file = Vec::new();
    let mut buffer = vec![0; length];
    loop {
        let filled = writer.poll_output(&mut buffer);
        if filled == 0 {
            return file;
        }
        file.extend_from_slice(&buffer[..filled]);
    }
}

/// Every byte the segment writer laid down, drained through a buffer of `length` bytes
fn drained_segment(writer: &mut MediaSegmentWriter, length: usize) -> Vec<u8> {
    let mut segment = Vec::new();
    let mut buffer = vec![0; length];
    loop {
        let filled = writer.poll_output(&mut buffer);
        if filled == 0 {
            return segment;
        }
        segment.extend_from_slice(&buffer[..filled]);
    }
}

/// The `moof` a fragment laid out as `layout` is written as, its media data past the `moof` here
fn fragment_of(layout: &FragmentLayout) -> MovieFragmentBox {
    build_movie_fragment(layout, MEDIA_DATA_BASE).unwrap()
}

#[test]
fn a_file_handed_no_brands_opens_with_the_brands_the_writer_declares() {
    let mut writer = FragmentedWriter::new();

    writer.handle_movie(movie_payload()).unwrap();
    writer.finish().unwrap();
    let file = drained(&mut writer, 64);

    assert_eq!(&file[..20], b"\0\0\0\x14ftypiso6\0\0\0\0iso6");
    assert_eq!(&file[24..28], b"moov");
}

#[test]
fn the_brands_handed_over_are_laid_down_as_they_stand() {
    let mut writer = FragmentedWriter::new();

    writer.handle_file_type(brands_payload()).unwrap();
    writer.handle_movie(movie_payload()).unwrap();
    writer.finish().unwrap();
    let file = drained(&mut writer, 7);

    assert_eq!(&file[..8], b"\0\0\0\x18ftyp");
    assert_eq!(file[8..24].to_vec(), brands_payload());
    assert_eq!(&file[28..32], b"moov");
    assert_eq!(file.len(), 24 + 32);
}

#[test]
fn a_fragment_closed_before_the_movie_is_rejected() {
    let mut writer = FragmentedWriter::new();

    writer.handle_file_type(brands_payload()).unwrap();
    writer.begin_fragment(1).unwrap();
    let layout = writer.finish_fragment().unwrap();

    assert_eq!(writer.lay_down_fragment(moof_payload(), layout.media_data), Err(StackError::box_out_of_order(MOOF)));
}

#[test]
fn writer_a_sample_handed_over_while_no_fragment_is_open_is_rejected() {
    let no_fragment = Err(StackErrorKind::Sample(SampleErrorKind::NoFragmentOpen));

    let mut writer = FragmentedWriter::new();
    assert_eq!(writer.handle_sample(sample()).map_err(StackError::kind), no_fragment);

    let mut writer = MediaSegmentWriter::new();
    assert_eq!(writer.handle_sample(sample()).map_err(StackError::kind), no_fragment);
}

#[test]
fn writer_a_file_declared_over_without_a_movie_is_rejected() {
    let mut writer = FragmentedWriter::new();

    writer.handle_file_type(brands_payload()).unwrap();

    assert_eq!(writer.finish(), Err(StackError::missing_mandatory_box(MOOV)));
}

#[test]
fn writer_a_failed_writer_reports_the_same_failure_for_every_call_after_it() {
    let mut writer = FragmentedWriter::new();
    let failure = StackError::box_out_of_order(FTYP);
    writer.handle_movie(movie_payload()).unwrap();

    assert_eq!(writer.handle_file_type(brands_payload()), Err(failure));
    assert_eq!(writer.begin_fragment(1), Err(failure));
    assert_eq!(writer.finish(), Err(failure));

    let mut writer = MediaSegmentWriter::new();
    writer.handle_segment_type(brands_payload()).unwrap();
    let failure = writer.finish().unwrap_err();

    assert_eq!(writer.handle_segment_type(brands_payload()), Err(failure));
    assert_eq!(writer.begin_fragment(1), Err(failure));
    assert_eq!(writer.finish(), Err(failure));
}

#[test]
fn writer_a_failed_writer_hands_over_the_bytes_it_had_already_laid_down() {
    let mut writer = FragmentedWriter::new();
    writer.handle_file_type(brands_payload()).unwrap();
    assert!(writer.handle_file_type(brands_payload()).is_err());
    let mut buffer = [0; 8];
    assert_eq!(writer.poll_output(&mut buffer), 8);
    assert_eq!(buffer, *b"\0\0\0\x18ftyp");

    let mut writer = MediaSegmentWriter::new();
    writer.handle_segment_type(brands_payload()).unwrap();
    assert!(writer.finish().is_err());
    let mut buffer = [0; 8];
    assert_eq!(writer.poll_output(&mut buffer), 8);
    assert_eq!(buffer, *b"\0\0\0\x18styp");
}

#[test]
fn writer_anything_handed_over_after_finishing_is_rejected() {
    let mut writer = FragmentedWriter::new();
    writer.handle_file_type(brands_payload()).unwrap();
    writer.handle_movie(movie_payload()).unwrap();
    writer.finish().unwrap();

    assert_eq!(writer.handle_sample(sample()), Err(StackError::already_finished()));
    assert_eq!(writer.finish(), Err(StackError::already_finished()));

    let mut writer = MediaSegmentWriter::new();
    writer.begin_fragment(1).unwrap();
    let layout = writer.finish_fragment().unwrap();
    writer.lay_down_fragment(moof_payload(), layout.media_data).unwrap();
    writer.finish().unwrap();

    assert_eq!(writer.handle_sample(sample()), Err(StackError::already_finished()));
    assert_eq!(writer.finish(), Err(StackError::already_finished()));
}

#[test]
fn a_segment_declaring_no_brands_is_laid_down_all_the_same() {
    let mut writer = MediaSegmentWriter::new();

    writer.begin_fragment(1).unwrap();
    let layout = writer.finish_fragment().unwrap();
    writer.lay_down_fragment(moof_payload(), layout.media_data).unwrap();

    assert_eq!(writer.finish(), Ok(()));
    let segment = drained_segment(&mut writer, 64);
    assert_eq!(&segment[4..8], b"moof");
    assert!(segment.ends_with(b"\0\0\0\x08mdat"));
}

#[test]
fn brands_handed_over_after_a_fragment_are_rejected() {
    let mut writer = MediaSegmentWriter::new();

    writer.begin_fragment(1).unwrap();
    let layout = writer.finish_fragment().unwrap();
    writer.lay_down_fragment(moof_payload(), layout.media_data).unwrap();

    assert_eq!(writer.handle_segment_type(brands_payload()), Err(StackError::box_out_of_order(STYP)));
}

#[test]
fn writer_a_segment_declared_over_without_a_fragment_is_rejected() {
    let mut writer = MediaSegmentWriter::new();

    writer.handle_segment_type(brands_payload()).unwrap();

    assert_eq!(writer.finish(), Err(StackError::missing_mandatory_box(MOOF)));
}

#[test]
fn a_fragment_left_open_fails_the_end_of_the_file() {
    let mut writer = FragmentedWriter::new();
    writer.handle_movie(movie_payload()).unwrap();
    writer.begin_fragment(1).unwrap();

    assert_eq!(writer.finish().map_err(StackError::kind), Err(StackErrorKind::Sample(SampleErrorKind::FragmentStillOpen)));
}

/// Reads `file` back, handing the reader the movie and the fragments it was written with
fn read_back(file: &[u8], fragments: &[MovieFragmentBox]) -> Vec<Sample> {
    let mut reader = FragmentedReader::new();
    let mut fragments = fragments.iter();
    let mut answer = |reader: &mut FragmentedReader, outcome: Result<Option<GatheredBox>, StackError>| {
        let mut outcome = outcome;
        while let Some(gathered) = outcome.unwrap() {
            let value = match gathered.kind {
                ValueKind::Movie => BoxValue::Movie(movie()),
                ValueKind::MovieFragment => BoxValue::MovieFragment(fragments.next().unwrap().clone()),
                _ => BoxValue::Brands(BrandsBox { major_brand: 0, minor_version: 0, compatible_brands: Vec::new() }),
            };
            outcome = reader.handle_value(Ok(value));
        }
    };
    let taken = reader.handle_input(file);
    answer(&mut reader, taken);
    let finished = reader.finish();
    answer(&mut reader, finished);
    let mut samples = Vec::new();
    while let Some(sample) = reader.poll_sample() {
        samples.push(sample);
    }
    samples
}

#[test]
fn a_file_laid_down_reads_back_as_the_samples_it_was_handed() {
    let mut writer = FragmentedWriter::new();
    writer.handle_movie(movie_payload()).unwrap();
    let mut fragments = Vec::new();
    for (sequence_number, samples) in [(1, vec![sample()]), (2, vec![next_sample()])] {
        writer.begin_fragment(sequence_number).unwrap();
        for sample in samples {
            writer.handle_sample(sample).unwrap();
        }
        let layout = writer.finish_fragment().unwrap();
        fragments.push(fragment_of(&layout));
        writer.lay_down_fragment(moof_payload(), layout.media_data).unwrap();
    }
    writer.finish().unwrap();
    let file = drained(&mut writer, 5);

    assert_eq!(read_back(&file, &fragments), vec![sample(), next_sample()]);
}

#[test]
fn a_segment_laid_down_reads_back_as_the_samples_it_was_handed() {
    let mut writer = MediaSegmentWriter::new();
    writer.handle_segment_type(brands_payload()).unwrap();
    writer.begin_fragment(1).unwrap();
    writer.handle_sample(sample()).unwrap();
    writer.handle_sample(next_sample()).unwrap();
    let layout = writer.finish_fragment().unwrap();
    let fragment = fragment_of(&layout);
    writer.lay_down_fragment(moof_payload(), layout.media_data).unwrap();
    writer.finish().unwrap();
    let segment = drained_segment(&mut writer, 3);

    let mut reader = MediaSegmentReader::new(movie());
    let mut outcome = reader.handle_input(&segment);
    while let Some(gathered) = outcome.unwrap() {
        let value = match gathered.kind {
            ValueKind::MovieFragment => BoxValue::MovieFragment(fragment.clone()),
            _ => BoxValue::Brands(BrandsBox { major_brand: 0, minor_version: 0, compatible_brands: Vec::new() }),
        };
        outcome = reader.handle_value(Ok(value));
    }
    assert!(matches!(reader.finish(), Ok(None)));
    assert_eq!(reader.poll_sample(), Some(sample()));
    assert_eq!(reader.poll_sample(), Some(next_sample()));
    assert_eq!(reader.poll_sample(), None);
}

/// Flags of a sample no other depends on, a sync sample
const SYNC_SAMPLE: u32 = 0x0200_0000;

/// Flags of a sample depending on others, no sync sample
const NON_SYNC_SAMPLE: u32 = 0x0101_0000;

/// Flags every field of which is at its highest
const EVERY_FIELD_AT_ITS_HIGHEST: u32 = 0x0fff_ffff;

/// Movie of the tracks `track_ids`, continued in fragments, whose `trex` defaults no fragment falls back on
fn movie_never_fallen_back_on(track_ids: &[u32]) -> MovieBox {
    let tracks = track_ids
        .iter()
        .map(|&track_id| TrackBox {
            track_id,
            sample_descriptions: vec![SampleDescriptionEntry { box_type: *b"avc1", payload: vec![0, 0, 0, 0, 0, 0, 0, 1] }],
            data_entries: vec![DataEntry::Url { location: None }],
            time_to_sample: Vec::new(),
            sample_to_chunk: Vec::new(),
            sample_sizes: SampleSizes::PerSample(Vec::new()),
            chunk_offsets: Vec::new(),
        })
        .collect();
    let trex = track_ids
        .iter()
        .map(|&track_id| TrackExtendsBox {
            track_id,
            default_sample_description_index: 9,
            default_sample_duration: 1,
            default_sample_size: 1,
            default_sample_flags: EVERY_FIELD_AT_ITS_HIGHEST,
        })
        .collect();
    MovieBox { tracks, track_extends: Some(trex) }
}

/// The file `fragments` make through a fragmented writer, and the `moof` of each fragment
fn written_file(fragments: Vec<Vec<Sample>>) -> (Vec<u8>, Vec<MovieFragmentBox>) {
    let mut writer = FragmentedWriter::new();
    writer.handle_file_type(brands_payload()).unwrap();
    writer.handle_movie(movie_payload()).unwrap();
    let mut written = Vec::new();
    for (position, samples) in fragments.into_iter().enumerate() {
        writer.begin_fragment(position as u32 + 1).unwrap();
        for sample in samples {
            writer.handle_sample(sample).unwrap();
        }
        let layout = writer.finish_fragment().unwrap();
        written.push(fragment_of(&layout));
        writer.lay_down_fragment(moof_payload(), layout.media_data).unwrap();
    }
    writer.finish().unwrap();
    (drained(&mut writer, 64), written)
}

/// The samples a fragmented reader reads off `file` handed over `cut_length` bytes at a time
fn samples_of(file: &[u8], cut_length: usize, movie: &MovieBox, fragments: &[MovieFragmentBox]) -> Vec<Sample> {
    let mut reader = FragmentedReader::new();
    let mut fragments = fragments.iter();
    let mut samples = Vec::new();
    let mut answer = |reader: &mut FragmentedReader, outcome: Result<Option<GatheredBox>, StackError>| {
        let mut outcome = outcome;
        while let Some(gathered) = outcome.unwrap() {
            let value = match gathered.kind {
                ValueKind::Movie => BoxValue::Movie(movie.clone()),
                ValueKind::MovieFragment => BoxValue::MovieFragment(fragments.next().unwrap().clone()),
                _ => BoxValue::Brands(BrandsBox { major_brand: 0, minor_version: 0, compatible_brands: Vec::new() }),
            };
            outcome = reader.handle_value(Ok(value));
        }
    };
    for piece in file.chunks(cut_length) {
        let taken = reader.handle_input(piece);
        answer(&mut reader, taken);
        while let Some(sample) = reader.poll_sample() {
            samples.push(sample);
        }
    }
    let finished = reader.finish();
    answer(&mut reader, finished);
    while let Some(sample) = reader.poll_sample() {
        samples.push(sample);
    }
    samples
}

#[test]
fn the_samples_are_read_back_as_they_were_handed_over_however_the_file_was_cut() {
    let video = |decode_time, sample_flags, data: &[u8]| Sample::new(1, decode_time, 3_000, 0, sample_flags, 1, data.to_vec());
    let audio = |decode_time, offset, data: &[u8]| Sample::new(2, decode_time, 1_024, offset, 0, 1, data.to_vec());
    let two_track_fragments = || {
        vec![
            vec![
                video(0, SYNC_SAMPLE, b"VIDEO_01"),
                video(3_000, NON_SYNC_SAMPLE, b"VIDEO_02"),
                audio(0, 512, b"AUD1"),
                video(6_000, NON_SYNC_SAMPLE, b"VIDEO_03"),
            ],
            vec![video(9_000, SYNC_SAMPLE, b"VIDEO_04"), audio(1_024, -256, b"AUD2")],
        ]
    };
    let movie = movie_never_fallen_back_on(&[1, 2]);
    let (file, fragments) = written_file(two_track_fragments());
    let handed_over = two_track_fragments().concat();

    for cut_length in [file.len(), 1, 3, 7, 64, file.len() - 1] {
        assert_eq!(samples_of(&file, cut_length, &movie, &fragments), handed_over, "cut at {cut_length}");
    }
}

#[test]
fn a_sync_sample_of_a_video_track_filled_for_fragments_is_read_back() {
    let sample = Sample::new(1, 0, 3_000, 0, SYNC_SAMPLE, 1, b"VIDEO_01".to_vec());
    let movie = movie_never_fallen_back_on(&[1]);
    let (file, fragments) = written_file(vec![vec![sample.clone()]]);

    assert_eq!(samples_of(&file, file.len(), &movie, &fragments), vec![sample]);
}

#[test]
fn the_samples_are_read_back_as_they_were_handed_over_however_the_segment_was_cut() {
    let video = |decode_time, data: &[u8]| Sample::new(1, decode_time, 3_000, 0, 0, 1, data.to_vec());
    let audio = |decode_time, offset, data: &[u8]| Sample::new(2, decode_time, 1_024, offset, 0, 1, data.to_vec());
    let two_track_fragments = || {
        vec![
            vec![video(90_000, b"VIDEO_01"), audio(30_720, 512, b"AUD1"), video(93_000, b"VIDEO_02")],
            vec![video(96_000, b"VIDEO_03"), audio(31_744, -256, b"AUD2")],
        ]
    };
    let movie = movie_never_fallen_back_on(&[1, 2]);
    let mut writer = MediaSegmentWriter::new();
    writer.handle_segment_type(brands_payload()).unwrap();
    let mut fragments = Vec::new();
    for (position, samples) in two_track_fragments().into_iter().enumerate() {
        writer.begin_fragment(position as u32 + 1).unwrap();
        for sample in samples {
            writer.handle_sample(sample).unwrap();
        }
        let layout = writer.finish_fragment().unwrap();
        fragments.push(fragment_of(&layout));
        writer.lay_down_fragment(moof_payload(), layout.media_data).unwrap();
    }
    writer.finish().unwrap();
    let segment = drained_segment(&mut writer, 64);
    let handed_over = two_track_fragments().concat();

    for cut_length in [segment.len(), 1, 3, 7, 64, segment.len() - 1] {
        let mut reader = MediaSegmentReader::new(movie.clone());
        let mut values = fragments.iter();
        let mut samples = Vec::new();
        for piece in segment.chunks(cut_length) {
            let mut outcome = reader.handle_input(piece);
            while let Some(gathered) = outcome.unwrap() {
                let value = match gathered.kind {
                    ValueKind::MovieFragment => BoxValue::MovieFragment(values.next().unwrap().clone()),
                    _ => BoxValue::Brands(BrandsBox { major_brand: 0, minor_version: 0, compatible_brands: Vec::new() }),
                };
                outcome = reader.handle_value(Ok(value));
            }
            while let Some(sample) = reader.poll_sample() {
                samples.push(sample);
            }
        }
        assert!(matches!(reader.finish(), Ok(None)));
        while let Some(sample) = reader.poll_sample() {
            samples.push(sample);
        }
        assert_eq!(samples, handed_over, "cut at {cut_length}");
    }
}

#[test]
fn the_media_data_starts_past_the_moof_and_the_header_of_its_mdat() {
    assert_eq!(media_data_base(24, 100), 8 + 24 + 8);
    assert_eq!(media_data_base(0xFFFF_FFF8, 0), 16 + 0xFFFF_FFF8 + 8);
    assert_eq!(media_data_base(24, 0xFFFF_FFF8), 8 + 24 + 16);
    assert_eq!(media_data_base(u64::MAX - 4, 0), u64::MAX);
}
