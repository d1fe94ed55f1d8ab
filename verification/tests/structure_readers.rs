use isobmff_media::bytes::{BoxError, BoxErrorKind};
use isobmff_media::sample::boxes::{
    DataEntry, MovieBox, MovieFragmentBox, SampleDescriptionEntry, SampleSizes, TrackBox, TrackExtendsBox,
    TrackFragmentBox, TrackFragmentHeaderBox, TrackRunBox, TrackRunSample,
};
use isobmff_media::sample::random_access::{
    MovieFragmentRandomAccessBox, TrackFragmentRandomAccessBox, TrackFragmentRandomAccessEntry,
};
use isobmff_media::sample::error::SampleErrorKind;
use isobmff_media::sample::sample::Sample;
use isobmff_media::sample::segment_index::{ReferenceType, SegmentIndexBox, SegmentIndexReference};
use isobmff_media::sequence::error::ErrorKind as SequenceErrorKind;
use isobmff_media::structure::error::{four_cc, FTYP, MDAT, MOOF, MOOV};
use isobmff_media::structure::fragmented_reader::FragmentedReader;
use isobmff_media::structure::segment_reader::MediaSegmentReader;
use isobmff_media::structure::stack::{
    is_value_of_kind, BoxValue, BrandsBox, GatheredBox, StackError, StackErrorKind, ValueKind,
};

/// A box of type `fourcc` carrying `payload`, its size stated in the compact field
fn framed(fourcc: &[u8; 4], payload: &[u8]) -> Vec<u8> {
    let total = (8 + payload.len()) as u32;
    [total.to_be_bytes().as_slice(), fourcc.as_slice(), payload].concat()
}

/// The bytes a box read into a value is written as here: its value is handed back by the test
fn written(fourcc: &[u8; 4]) -> Vec<u8> {
    framed(fourcc, &[0x5a; 24])
}

/// The brands the files and segments here declare
fn brands() -> BrandsBox {
    BrandsBox { major_brand: four_cc(*b"iso6"), minor_version: 0, compatible_brands: vec![four_cc(*b"iso6")] }
}

/// Movie of track 1, fragmented with samples that last 1024 units and occupy 4 bytes
fn movie() -> MovieBox {
    let trak = TrackBox {
        track_id: 1,
        sample_descriptions: vec![SampleDescriptionEntry { box_type: *b"avc1", payload: vec![0, 0, 0, 0, 0, 0, 0, 1] }],
        data_entries: vec![DataEntry::Url { location: None }],
        time_to_sample: Vec::new(),
        sample_to_chunk: Vec::new(),
        sample_sizes: SampleSizes::PerSample(Vec::new()),
        chunk_offsets: Vec::new(),
    };
    let trex = TrackExtendsBox {
        track_id: 1,
        default_sample_description_index: 1,
        default_sample_duration: 1_024,
        default_sample_size: 4,
        default_sample_flags: 0,
    };
    MovieBox { tracks: vec![trak], track_extends: Some(vec![trex]) }
}

/// Fragment carrying no sample
fn empty_fragment() -> MovieFragmentBox {
    MovieFragmentBox { sequence_number: 1, track_fragments: Vec::new() }
}

/// Fragment of one four-byte sample of track 1, lying just past the `moof` and the header of the `mdat` after it
fn fragment_of_one_sample() -> MovieFragmentBox {
    let tfhd = TrackFragmentHeaderBox {
        track_id: 1,
        base_data_offset: None,
        sample_description_index: None,
        default_sample_duration: None,
        default_sample_size: None,
        default_sample_flags: None,
        duration_is_empty: false,
        default_base_is_moof: true,
    };
    let row =
        TrackRunSample { sample_duration: None, sample_size: None, sample_flags: None, sample_composition_time_offset: None };
    let trun = TrackRunBox { data_offset: Some((written(b"moof").len() + 8) as i32), first_sample_flags: None, samples: vec![row] };
    MovieFragmentBox {
        sequence_number: 1,
        track_fragments: vec![TrackFragmentBox { tfhd, base_media_decode_time: None, runs: vec![trun] }],
    }
}

/// The sample the file and the segment of one sample carry
fn sample() -> Sample {
    Sample::new(1, 0, 1_024, 0, 0, 1, b"SAMP".to_vec())
}

/// A file of one fragment carrying [`sample`], with no brands
fn file_of_one_sample() -> Vec<u8> {
    [written(b"moov"), written(b"moof"), framed(b"mdat", b"SAMP")].concat()
}

/// A segment of one fragment carrying [`sample`], with no brands
fn segment_of_one_sample() -> Vec<u8> {
    [written(b"moof"), framed(b"mdat", b"SAMP")].concat()
}

/// The value each box gathered whole reads into, its fragments as `fragment`
fn value_of(gathered: &GatheredBox, fragment: &MovieFragmentBox) -> BoxValue {
    let value = match gathered.kind {
        ValueKind::FileType | ValueKind::SegmentType => BoxValue::Brands(brands()),
        ValueKind::Movie => BoxValue::Movie(movie()),
        ValueKind::MovieFragment => BoxValue::MovieFragment(fragment.clone()),
        ValueKind::SegmentIndex => BoxValue::SegmentIndex(SegmentIndexBox {
            reference_id: 1,
            timescale: 1_000,
            earliest_presentation_time: 0,
            first_offset: 0,
            references: vec![SegmentIndexReference {
                reference_type: ReferenceType::MediaContent,
                referenced_size: 100,
                subsegment_duration: 1_000,
                starts_with_sap: true,
                sap_type: 1,
                sap_delta_time: 0,
            }],
        }),
        ValueKind::MovieFragmentRandomAccess => BoxValue::MovieFragmentRandomAccess(random_access(gathered.payload.len() as u64)),
    };
    assert!(is_value_of_kind(&value, gathered.kind));
    value
}

/// Random access tables listing one sync sample of track 1, in the `moof` at `moof_offset`
fn random_access(moof_offset: u64) -> MovieFragmentRandomAccessBox {
    let entry = TrackFragmentRandomAccessEntry { time: 0, moof_offset, traf_number: 1, trun_number: 1, sample_number: 1 };
    MovieFragmentRandomAccessBox { tfra: vec![TrackFragmentRandomAccessBox { track_id: 1, entries: vec![entry] }] }
}

/// Hands every box the fragmented reader gathers whole back as its value, until the reader reads on no further
fn answered(
    reader: &mut FragmentedReader,
    outcome: Result<Option<GatheredBox>, StackError>,
    fragment: &MovieFragmentBox,
) -> Result<(), StackError> {
    let mut outcome = outcome;
    while let Some(gathered) = outcome? {
        outcome = reader.handle_value(Ok(value_of(&gathered, fragment)));
    }
    Ok(())
}

/// Hands every box the segment reader gathers whole back as its value, until the reader reads on no further
fn answered_segment(
    reader: &mut MediaSegmentReader,
    outcome: Result<Option<GatheredBox>, StackError>,
    fragment: &MovieFragmentBox,
) -> Result<(), StackError> {
    let mut outcome = outcome;
    while let Some(gathered) = outcome? {
        outcome = reader.handle_value(Ok(value_of(&gathered, fragment)));
    }
    Ok(())
}

/// Hands `file` to `reader` whole, then declares it over
fn read_into(reader: &mut FragmentedReader, file: &[u8], fragment: &MovieFragmentBox) -> Result<(), StackError> {
    let taken = reader.handle_input(file);
    answered(reader, taken, fragment)?;
    let finished = reader.finish();
    answered(reader, finished, fragment)
}

/// Hands `segment` to `reader` whole, then declares it over
fn read_segment_into(reader: &mut MediaSegmentReader, segment: &[u8], fragment: &MovieFragmentBox) -> Result<(), StackError> {
    let taken = reader.handle_input(segment);
    answered_segment(reader, taken, fragment)?;
    let finished = reader.finish();
    answered_segment(reader, finished, fragment)
}

/// What the fragmented reader makes of `file` handed over whole, then declared over
fn read(file: &[u8], fragment: &MovieFragmentBox) -> Result<FragmentedReader, StackError> {
    let mut reader = FragmentedReader::new();
    read_into(&mut reader, file, fragment)?;
    Ok(reader)
}

/// What the segment reader makes of `segment` handed over whole, then declared over
fn read_segment(segment: &[u8], fragment: &MovieFragmentBox) -> Result<MediaSegmentReader, StackError> {
    let mut reader = MediaSegmentReader::new(movie());
    read_segment_into(&mut reader, segment, fragment)?;
    Ok(reader)
}

/// Every sample the fragmented reader completed
fn drained(reader: &mut FragmentedReader) -> Vec<Sample> {
    let mut samples = Vec::new();
    while let Some(sample) = reader.poll_sample() {
        samples.push(sample);
    }
    samples
}

/// Every sample the segment reader completed
fn drained_segment(reader: &mut MediaSegmentReader) -> Vec<Sample> {
    let mut samples = Vec::new();
    while let Some(sample) = reader.poll_sample() {
        samples.push(sample);
    }
    samples
}

#[test]
fn reader_a_file_declaring_no_brands_is_read_all_the_same() {
    let file = [written(b"moov"), written(b"moof")].concat();
    let reader = read(&file, &empty_fragment()).unwrap();

    assert_eq!(reader.file_type(), None);
    assert_eq!(reader.movie(), Some(&movie()));
}

#[test]
fn reader_a_file_declared_over_without_a_movie_is_rejected() {
    assert_eq!(read(&written(b"ftyp"), &empty_fragment()).map(drop), Err(StackError::missing_mandatory_box(MOOV)));
}

#[test]
fn reader_a_box_read_into_a_value_declaring_a_payload_past_the_limit_is_rejected() {
    let mut reader = FragmentedReader::with_limits(4, 16_777_216);
    assert_eq!(reader.handle_input(&written(b"ftyp")).map_err(StackError::kind).map(drop), Err(StackErrorKind::PayloadLimitExceeded));

    let mut reader = MediaSegmentReader::with_limits(movie(), 4, 16_777_216);
    assert_eq!(reader.handle_input(&written(b"styp")).map_err(StackError::kind).map(drop), Err(StackErrorKind::PayloadLimitExceeded));
}

#[test]
fn reader_a_box_passed_over_is_not_bounded_by_the_limit() {
    let moov = written(b"moov");
    let file = [moov.clone(), framed(b"free", &[0x11; 4_096])].concat();
    let mut reader = FragmentedReader::with_limits(moov.len() as u64, 16_777_216);
    assert_eq!(read_into(&mut reader, &file, &empty_fragment()), Ok(()));

    let moof = written(b"moof");
    let segment = [moof.clone(), framed(b"free", &[0x11; 4_096])].concat();
    let mut reader = MediaSegmentReader::with_limits(movie(), moof.len() as u64, 16_777_216);
    assert_eq!(read_segment_into(&mut reader, &segment, &empty_fragment()), Ok(()));
}

#[test]
fn a_box_read_into_a_value_declaring_no_total_is_read_to_the_end_of_the_file() {
    let mut file = written(b"moov");
    file.splice(..4, [0x00, 0x00, 0x00, 0x00]);

    let mut reader = FragmentedReader::new();
    assert!(matches!(reader.handle_input(&file), Ok(None)));
    let gathered = reader.finish().unwrap().unwrap();
    assert_eq!(gathered.kind, ValueKind::Movie);
    assert_eq!(gathered.payload, vec![0x5a; 24]);
    assert!(matches!(reader.handle_value(Ok(BoxValue::Movie(movie()))), Ok(None)));

    assert_eq!(reader.movie(), Some(&movie()));
}

#[test]
fn reader_the_samples_completed_before_a_framing_failure_are_still_taken() {
    let broken = b"\0\0\0\x04free";
    let failure = Err(StackErrorKind::Sequence(SequenceErrorKind::Box(BoxErrorKind::SizeBelowHeader)));

    let mut file = file_of_one_sample();
    file.extend_from_slice(broken);
    let mut reader = FragmentedReader::new();
    let taken = reader.handle_input(&file);
    assert_eq!(answered(&mut reader, taken, &fragment_of_one_sample()).map_err(StackError::kind), failure);
    assert_eq!(reader.poll_sample().map(Sample::into_data), Some(b"SAMP".to_vec()));

    let mut segment = segment_of_one_sample();
    segment.extend_from_slice(broken);
    let mut reader = MediaSegmentReader::new(movie());
    let taken = reader.handle_input(&segment);
    assert_eq!(answered_segment(&mut reader, taken, &fragment_of_one_sample()).map_err(StackError::kind), failure);
    assert_eq!(reader.poll_sample().map(Sample::into_data), Some(b"SAMP".to_vec()));
}

#[test]
fn reader_the_bytes_the_reader_wants_fetched_complete_the_sample_as_the_media_data_would() {
    let mut file = file_of_one_sample();
    let media_data = file.split_off(file.len() - 4);
    let mut reader = FragmentedReader::new();
    let taken = reader.handle_input(&file);
    answered(&mut reader, taken, &fragment_of_one_sample()).unwrap();
    let wanted = reader.wanted_extent().unwrap();
    reader.handle_data(wanted.start, &media_data).unwrap();

    let media_data_start = file.len() as u64;
    assert_eq!(wanted, media_data_start..media_data_start + 4);
    assert_eq!(reader.poll_sample(), Some(sample()));

    let mut segment = segment_of_one_sample();
    let media_data = segment.split_off(segment.len() - 4);
    let mut reader = MediaSegmentReader::new(movie());
    let taken = reader.handle_input(&segment);
    answered_segment(&mut reader, taken, &fragment_of_one_sample()).unwrap();
    let wanted = reader.wanted_extent().unwrap();
    reader.handle_data(wanted.start, &media_data).unwrap();

    let media_data_start = segment.len() as u64;
    assert_eq!(wanted, media_data_start..media_data_start + 4);
    assert_eq!(reader.poll_sample(), Some(sample()));
}

#[test]
fn reader_a_failed_reader_reports_the_same_failure_for_every_call_after_it() {
    let mut reader = FragmentedReader::new();
    let failure = StackError::box_out_of_order(FTYP);
    let file = [written(b"ftyp"), written(b"ftyp")].concat();
    let taken = reader.handle_input(&file);
    assert_eq!(answered(&mut reader, taken, &empty_fragment()), Err(failure));
    assert_eq!(reader.handle_input(&written(b"moov")).map(drop), Err(failure));
    assert_eq!(reader.handle_data(0, b"SAMP"), Err(failure));
    assert_eq!(reader.finish().map(drop), Err(failure));

    let mut reader = MediaSegmentReader::new(movie());
    let failure = StackError::box_out_of_order(MDAT);
    let segment = framed(b"mdat", b"SAMP");
    assert_eq!(reader.handle_input(&segment).map(drop), Err(failure));
    assert_eq!(reader.handle_input(&written(b"moof")).map(drop), Err(failure));
    assert_eq!(reader.handle_data(0, b"SAMP"), Err(failure));
    assert_eq!(reader.finish().map(drop), Err(failure));
}

#[test]
fn reader_input_handed_over_after_finishing_is_rejected() {
    let mut reader = read(&written(b"moov"), &empty_fragment()).unwrap();
    assert_eq!(reader.handle_input(&written(b"ftyp")).map(drop), Err(StackError::already_finished()));
    assert_eq!(reader.handle_data(0, b"SAMP"), Err(StackError::already_finished()));
    assert_eq!(reader.finish().map(drop), Err(StackError::already_finished()));

    let mut reader = read_segment(&written(b"moof"), &empty_fragment()).unwrap();
    assert_eq!(reader.handle_input(&written(b"moof")).map(drop), Err(StackError::already_finished()));
    assert_eq!(reader.handle_data(0, b"SAMP"), Err(StackError::already_finished()));
    assert_eq!(reader.finish().map(drop), Err(StackError::already_finished()));
}

#[test]
fn reader_a_segment_declaring_no_brands_is_read_all_the_same() {
    let reader = read_segment(&written(b"moof"), &empty_fragment()).unwrap();

    assert_eq!(reader.segment_type(), None);
}

#[test]
fn reader_a_segment_declared_over_without_a_fragment_is_rejected() {
    assert_eq!(
        read_segment(&written(b"styp"), &empty_fragment()).map(drop),
        Err(StackError::missing_mandatory_box(MOOF))
    );
}

#[test]
fn the_brands_and_the_movie_a_file_declares_are_there_to_read() {
    let file = [written(b"ftyp"), file_of_one_sample()].concat();
    let mut reader = FragmentedReader::new();
    let taken = reader.handle_input(&file);
    answered(&mut reader, taken, &fragment_of_one_sample()).unwrap();

    assert_eq!(reader.file_type(), Some(&brands()));
    assert_eq!(reader.movie(), Some(&movie()));
    assert_eq!(reader.awaited(), None);
}

#[test]
fn a_box_gathered_whole_is_handed_over_with_its_header_and_payload() {
    let mut reader = FragmentedReader::new();
    let gathered = reader.handle_input(&framed(b"ftyp", b"iso6\0\0\0\0iso6")).unwrap().unwrap();

    assert_eq!(gathered.kind, ValueKind::FileType);
    assert_eq!(gathered.payload, b"iso6\0\0\0\0iso6".to_vec());
    assert_eq!(gathered.header.payload_len(), Some(12));
    assert_eq!(reader.awaited(), Some(ValueKind::FileType));
}

#[test]
fn the_samples_of_a_file_are_the_same_however_it_was_cut() {
    let file = [written(b"ftyp"), file_of_one_sample()].concat();
    for cut in 1..=file.len() {
        let mut reader = FragmentedReader::new();
        for piece in file.chunks(cut) {
            let taken = reader.handle_input(piece);
            answered(&mut reader, taken, &fragment_of_one_sample()).unwrap();
        }
        let finished = reader.finish();
        answered(&mut reader, finished, &fragment_of_one_sample()).unwrap();
        assert_eq!(drained(&mut reader), vec![sample()]);
    }
}

#[test]
fn the_samples_of_a_segment_are_the_same_however_it_was_cut() {
    let segment = [written(b"styp"), segment_of_one_sample()].concat();
    let fragment = fragment_of_one_sample();
    for cut in 1..=segment.len() {
        let mut reader = MediaSegmentReader::new(movie());
        for piece in segment.chunks(cut) {
            let taken = reader.handle_input(piece);
            answered_segment(&mut reader, taken, &fragment).unwrap();
        }
        let finished = reader.finish();
        answered_segment(&mut reader, finished, &fragment).unwrap();
        assert_eq!(drained_segment(&mut reader), vec![sample()]);
        assert_eq!(reader.segment_type(), Some(&brands()));
    }
}

#[test]
fn a_box_that_does_not_read_into_its_value_fails_the_reader() {
    let failure = BoxError::TruncatedPayload { needed: 8, available: 4 };
    let mut reader = FragmentedReader::new();
    assert!(matches!(reader.handle_input(&written(b"moov")), Ok(Some(_))));

    assert_eq!(reader.handle_value(Err(failure)).map(drop), Err(StackError::Box(failure)));
    assert_eq!(reader.finish().map(drop), Err(StackError::Box(failure)));
}

#[test]
fn the_subsegments_of_each_segment_index_are_placed_from_the_byte_after_it() {
    let sidx = written(b"sidx");
    let segment = [sidx.clone(), sidx.clone(), written(b"moof")].concat();
    let reader = read_segment(&segment, &empty_fragment()).unwrap();

    let indexes = reader.segment_indexes();
    let after = sidx.len() as u64;
    assert_eq!(indexes.len(), 2);
    assert_eq!(indexes[0].subsegments()[0].extent(), after..after + 100);
    assert_eq!(indexes[1].subsegments()[0].extent(), 2 * after..2 * after + 100);
}

#[test]
fn a_segment_reader_resolves_its_fragments_against_the_movie_it_was_made_with() {
    let mut reader = read_segment(&segment_of_one_sample(), &fragment_of_one_sample()).unwrap();

    assert_eq!(reader.movie(), &movie());
    assert_eq!(drained_segment(&mut reader), vec![sample()]);
}

#[test]
fn a_fragment_declaring_a_sample_the_media_data_never_completes_fails_the_end_of_the_file() {
    let mut file = file_of_one_sample();
    file.truncate(file.len() - 4);
    let mut reader = FragmentedReader::new();
    let taken = reader.handle_input(&file);
    answered(&mut reader, taken, &fragment_of_one_sample()).unwrap();

    let finished = reader.finish();
    assert_eq!(
        answered(&mut reader, finished, &fragment_of_one_sample()).map_err(StackError::kind),
        Err(StackErrorKind::Sequence(SequenceErrorKind::UnfinishedBox))
    );
}

#[test]
fn the_segment_indexes_of_a_file_are_placed_from_the_byte_after_each() {
    let sidx = written(b"sidx");
    let file = [written(b"moov"), sidx.clone(), written(b"free"), sidx.clone(), written(b"moof")].concat();
    let reader = read(&file, &empty_fragment()).unwrap();

    let first = (written(b"moov").len() + sidx.len()) as u64;
    let second = first + (written(b"free").len() + sidx.len()) as u64;
    let indexes = reader.segment_indexes();
    assert_eq!(indexes.len(), 2);
    assert_eq!(indexes[0].subsegments()[0].extent(), first..first + 100);
    assert_eq!(indexes[1].subsegments()[0].extent(), second..second + 100);
}

#[test]
fn an_mfra_read_again_takes_the_place_of_the_one_before() {
    let file = [written(b"moov"), written(b"mfra"), framed(b"mfra", &[0x5a; 40])].concat();
    let reader = read(&file, &empty_fragment()).unwrap();

    assert_eq!(reader.movie_fragment_random_access(), Some(&random_access(40)));
}

#[test]
fn a_file_with_no_mfra_has_no_random_access_tables() {
    let reader = read(&file_of_one_sample(), &fragment_of_one_sample()).unwrap();

    assert_eq!(reader.movie_fragment_random_access(), None);
    assert!(reader.segment_indexes().is_empty());
}

#[test]
fn an_mfra_declaring_a_payload_past_the_limit_is_rejected() {
    let mut reader = FragmentedReader::with_limits(24, 1 << 20);
    let file = [written(b"moov"), framed(b"mfra", &[0x5a; 25])].concat();

    assert_eq!(read_into(&mut reader, &file, &empty_fragment()).map_err(|failure| failure.kind()), Err(StackErrorKind::PayloadLimitExceeded));
}

#[test]
fn a_failure_of_a_reader_says_which_layer_it_came_from() {
    assert_eq!(
        StackError::PayloadLimitExceeded { box_type: MOOV, limit: 24 }.message(),
        "moov box carries more than the 24 bytes of payload a box read into a value may"
    );
    assert_eq!(
        StackError::Box(BoxError::OutOfRange { value: 300 }).message(),
        "box: 300 is past what its field carries"
    );
    assert_eq!(
        StackError::Sample(isobmff_media::sample::error::SampleError::fragment_still_open()).message(),
        "samples: fragment is still open"
    );
    assert_eq!(StackError::AlreadyFinished.message(), "file was declared over and takes nothing more");
}

/// [`fragment_of_one_sample`], stating that its sample is decoded at `decode_time`
fn fragment_decoded_at(decode_time: u64) -> MovieFragmentBox {
    let mut fragment = fragment_of_one_sample();
    fragment.track_fragments[0].base_media_decode_time = Some(decode_time);
    fragment
}

/// A file of two fragments, each of one sample; and where the second `moof` starts
fn file_of_two_fragments() -> (Vec<u8>, u64) {
    let first = [written(b"moov"), written(b"moof"), framed(b"mdat", b"SAMP")].concat();
    let second = first.len() as u64;
    ([first, written(b"moof"), framed(b"mdat", b"SAMQ")].concat(), second)
}

/// Resumes `reader` at `offset` and hands it the rest of `file` from there, then declares it over
fn resumed_at(reader: &mut FragmentedReader, file: &[u8], offset: u64, fragment: &MovieFragmentBox) -> Result<(), StackError> {
    reader.resume_at(offset)?;
    read_into(reader, &file[offset as usize..], fragment)
}

#[test]
fn resuming_at_the_second_fragment_yields_its_samples_alone() {
    let (file, second) = file_of_two_fragments();
    let fragment = fragment_decoded_at(2_048);

    let mut finished = read(&file, &fragment).unwrap();
    assert_eq!(drained(&mut finished).len(), 2);
    resumed_at(&mut finished, &file, second, &fragment).unwrap();

    let mut reading = FragmentedReader::new();
    let taken = reading.handle_input(&file[..second as usize]);
    answered(&mut reading, taken, &fragment).unwrap();
    drained(&mut reading);
    resumed_at(&mut reading, &file, second, &fragment).unwrap();

    let second_sample = || Sample::new(1, 2_048, 1_024, 0, 0, 1, b"SAMQ".to_vec());
    assert_eq!(drained(&mut finished), [second_sample()]);
    assert_eq!(drained(&mut reading), [second_sample()]);
    assert!(finished.movie().is_some());
}

#[test]
fn resuming_at_media_data_is_out_of_order_and_leaves_the_reader_failed() {
    let (file, second) = file_of_two_fragments();
    let fragment = fragment_decoded_at(0);
    let media_data = second + written(b"moof").len() as u64;
    let out_of_order = StackError::BoxOutOfOrder { box_type: MDAT };

    let mut reader = read(&file, &fragment).unwrap();

    assert_eq!(resumed_at(&mut reader, &file, media_data, &fragment), Err(out_of_order));
    assert_eq!(reader.resume_at(second), Err(out_of_order));
}

#[test]
fn resuming_at_a_fragment_stating_no_decode_time_is_refused() {
    let (file, second) = file_of_two_fragments();

    let mut reader = read(&file, &fragment_of_one_sample()).unwrap();

    assert_eq!(
        resumed_at(&mut reader, &file, second, &fragment_of_one_sample()).map_err(|failure| failure.kind()),
        Err(StackErrorKind::Sample(SampleErrorKind::MissingDecodeTime))
    );
}

#[test]
fn a_track_whose_time_a_fragment_stated_after_resuming_carries_on_without_one() {
    let (file, second) = file_of_two_fragments();
    let third = file.len() as u64;
    let longer = [file.clone(), written(b"moof"), framed(b"mdat", b"SAMR")].concat();

    let mut reader = read(&longer, &fragment_decoded_at(0)).unwrap();
    drained(&mut reader);
    reader.resume_at(second).unwrap();
    let taken = reader.handle_input(&longer[second as usize..third as usize]);
    answered(&mut reader, taken, &fragment_decoded_at(4_096)).unwrap();
    let taken = reader.handle_input(&longer[third as usize..]);
    answered(&mut reader, taken, &fragment_of_one_sample()).unwrap();
    let finished = reader.finish();
    answered(&mut reader, finished, &fragment_of_one_sample()).unwrap();

    let decode_times: Vec<u64> = drained(&mut reader).iter().map(|sample| sample.decode_time()).collect();
    assert_eq!(decode_times, [4_096, 5_120]);
}
