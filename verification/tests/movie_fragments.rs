use std::ops::Range;

use isobmff_media::sample::boxes::{
    DataEntry, MovieBox, MovieFragmentBox, SampleDescriptionEntry, SampleSizes, TrackBox, TrackExtendsBox,
    TrackFragmentBox, TrackFragmentHeaderBox, TrackRunBox, TrackRunSample,
};
use isobmff_media::sample::error::SampleError;
use isobmff_media::sample::movie_fragment::sample_extents;
use isobmff_media::sample::movie_fragment_writer::{
    build_movie_fragment, measuring_movie_fragment, run_data_offset, FragmentLayout, MovieFragmentWriter,
};
use isobmff_media::sample::sample::{Sample, SampleExtent};
use isobmff_media::sample::track_decode_times::TrackDecodeTimes;

/// Track `track_id` of the file itself, described by one entry
fn track(track_id: u32) -> TrackBox {
    TrackBox {
        track_id,
        sample_descriptions: vec![SampleDescriptionEntry { box_type: *b"avc1", payload: vec![0, 0, 0, 0, 0, 0, 0, 1] }],
        data_entries: vec![DataEntry::Url { location: None }],
        time_to_sample: Vec::new(),
        sample_to_chunk: Vec::new(),
        sample_sizes: SampleSizes::PerSample(Vec::new()),
        chunk_offsets: Vec::new(),
    }
}

/// Movie of the given tracks, each fragmented with samples that last 1024 units and occupy 4 bytes
fn movie(tracks: Vec<TrackBox>) -> MovieBox {
    let trex = tracks
        .iter()
        .map(|trak| TrackExtendsBox {
            track_id: trak.track_id,
            default_sample_description_index: 1,
            default_sample_duration: 1_024,
            default_sample_size: 4,
            default_sample_flags: 0,
        })
        .collect();
    MovieBox { tracks, track_extends: Some(trex) }
}

/// Movie of one track whose samples last 1024 units and occupy 4 bytes each
fn one_track_movie() -> MovieBox {
    movie(vec![track(1)])
}

/// Movie of one track, continued in no fragment
fn unfragmented_movie() -> MovieBox {
    MovieBox { tracks: vec![track(1)], track_extends: None }
}

/// Fragment header of one track, carrying the flag and defaults given
fn track_fragment_header(
    default_base_is_moof: bool,
    track_id: u32,
    base_data_offset: Option<u64>,
    default_sample_duration: Option<u32>,
    default_sample_size: Option<u32>,
) -> TrackFragmentHeaderBox {
    TrackFragmentHeaderBox {
        track_id,
        base_data_offset,
        sample_description_index: None,
        default_sample_duration,
        default_sample_size,
        default_sample_flags: None,
        duration_is_empty: false,
        default_base_is_moof,
    }
}

const NO_ROW: TrackRunSample =
    TrackRunSample { sample_duration: None, sample_size: None, sample_flags: None, sample_composition_time_offset: None };

/// Run of samples that take the size and duration of their defaults
fn run(data_offset: Option<i32>, sample_count: usize) -> TrackRunBox {
    TrackRunBox { data_offset, first_sample_flags: None, samples: vec![NO_ROW; sample_count] }
}

/// Fragment of `track_id`, anchored at the movie fragment, of the runs given
fn track_fragment(track_id: u32, runs: Vec<TrackRunBox>) -> TrackFragmentBox {
    TrackFragmentBox { tfhd: track_fragment_header(true, track_id, None, None, None), base_media_decode_time: None, runs }
}

/// Movie fragment carrying the given track fragments
fn movie_fragment(track_fragments: Vec<TrackFragmentBox>) -> MovieFragmentBox {
    MovieFragmentBox { sequence_number: 1, track_fragments }
}

/// Movie fragment claiming one four-byte sample of track 1, just past itself
fn one_sample_movie_fragment() -> MovieFragmentBox {
    movie_fragment(vec![track_fragment(1, vec![run(Some(100), 1)])])
}

/// Extent of a sample of `track_id` as the defaults of the movies here settle it
fn extent(track_id: u32, decode_time: u64, data: Range<u64>) -> SampleExtent {
    SampleExtent::new(track_id, decode_time, 1_024, 0, 0, 1, 1, data)
}

/// Resolves `movie_fragment` at `moof_start` against a movie whose tracks stand at `decode_times`
fn resolved_from(
    movie_fragment: &MovieFragmentBox,
    movie: &MovieBox,
    moof_start: u64,
    decode_times: &mut TrackDecodeTimes,
) -> Result<Vec<SampleExtent>, SampleError> {
    sample_extents(movie_fragment, movie, moof_start, decode_times)?.into_iter().collect()
}

/// Resolves `movie_fragment` at the start of the file against a movie no fragment was resolved for
fn resolved(movie_fragment: &MovieFragmentBox, movie: &MovieBox) -> Result<Vec<SampleExtent>, SampleError> {
    resolved_from(movie_fragment, movie, 0, &mut TrackDecodeTimes::new())
}

/// Times of a movie whose track 1 stands at `decode_time`
fn track_1_at(decode_time: u64) -> TrackDecodeTimes {
    let mut decode_times = TrackDecodeTimes::new();
    decode_times.reach(1, decode_time);
    decode_times
}

#[test]
fn a_sample_takes_what_its_row_states_over_the_defaults_of_the_fragment_and_the_track() {
    let rows = vec![TrackRunSample {
        sample_duration: Some(512),
        sample_size: Some(2),
        sample_flags: Some(0x0100_0000),
        sample_composition_time_offset: Some(-8),
    }];
    let track_fragment = TrackFragmentBox {
        tfhd: track_fragment_header(true, 1, None, Some(256), Some(8)),
        base_media_decode_time: None,
        runs: vec![TrackRunBox { data_offset: Some(100), first_sample_flags: None, samples: rows }],
    };

    assert_eq!(
        resolved(&movie_fragment(vec![track_fragment]), &one_track_movie()),
        Ok(vec![SampleExtent::new(1, 0, 512, -8, 0x0100_0000, 1, 1, 100..102)])
    );
}

#[test]
fn a_sample_takes_what_its_fragment_states_over_the_defaults_of_its_track() {
    let track_fragment = TrackFragmentBox {
        tfhd: track_fragment_header(true, 1, None, Some(256), Some(2)),
        base_media_decode_time: None,
        runs: vec![run(Some(100), 2)],
    };

    assert_eq!(
        resolved(&movie_fragment(vec![track_fragment]), &one_track_movie()),
        Ok(vec![SampleExtent::new(1, 0, 256, 0, 0, 1, 1, 100..102), SampleExtent::new(1, 256, 256, 0, 0, 1, 1, 102..104)])
    );
}

#[test]
fn the_flags_of_the_first_sample_of_a_run_stand_in_for_the_defaults() {
    let track_fragment = track_fragment(
        1,
        vec![TrackRunBox { data_offset: Some(100), first_sample_flags: Some(0x0200_0000), samples: vec![NO_ROW; 2] }],
    );

    assert_eq!(
        resolved(&movie_fragment(vec![track_fragment]), &one_track_movie()),
        Ok(vec![SampleExtent::new(1, 0, 1_024, 0, 0x0200_0000, 1, 1, 100..104), extent(1, 1_024, 104..108)])
    );
}

#[test]
fn a_fragment_stating_no_decode_time_carries_on_from_where_the_track_stands() {
    assert_eq!(
        resolved_from(&one_sample_movie_fragment(), &one_track_movie(), 200, &mut track_1_at(5_120)),
        Ok(vec![extent(1, 5_120, 300..304)])
    );
}

#[test]
fn a_decode_time_is_taken_as_stated_however_the_track_stands() {
    let stated = TrackFragmentBox {
        tfhd: track_fragment_header(true, 1, None, None, None),
        base_media_decode_time: Some(4_096),
        runs: vec![run(Some(100), 1)],
    };

    assert_eq!(
        resolved_from(&movie_fragment(vec![stated]), &one_track_movie(), 0, &mut track_1_at(91_024)),
        Ok(vec![extent(1, 4_096, 100..104)])
    );
}

#[test]
fn offsets_are_anchored_at_the_base_the_fragment_states() {
    let track_fragment = TrackFragmentBox {
        tfhd: track_fragment_header(false, 1, Some(400), None, None),
        base_media_decode_time: None,
        runs: vec![run(Some(8), 1)],
    };

    assert_eq!(resolved(&movie_fragment(vec![track_fragment]), &one_track_movie()), Ok(vec![extent(1, 0, 408..412)]));
}

#[test]
fn offsets_anchored_at_the_movie_fragment_count_from_where_it_lies() {
    assert_eq!(
        resolved_from(&one_sample_movie_fragment(), &one_track_movie(), 1_000, &mut TrackDecodeTimes::new()),
        Ok(vec![extent(1, 0, 1_100..1_104)])
    );
}

#[test]
fn offsets_of_a_fragment_stating_no_anchor_at_all_are_anchored_at_the_movie_fragment() {
    let track_fragment = TrackFragmentBox {
        tfhd: track_fragment_header(false, 1, None, None, None),
        base_media_decode_time: None,
        runs: vec![run(Some(100), 1)],
    };

    assert_eq!(resolved(&movie_fragment(vec![track_fragment]), &one_track_movie()), Ok(vec![extent(1, 0, 100..104)]));
}

#[test]
fn offsets_of_a_later_track_fragment_stating_no_anchor_follow_the_data_before_it() {
    let stating_no_anchor = |track_id, data_offset| TrackFragmentBox {
        tfhd: track_fragment_header(false, track_id, None, None, None),
        base_media_decode_time: None,
        runs: vec![run(data_offset, 1)],
    };

    assert_eq!(
        resolved(
            &movie_fragment(vec![stating_no_anchor(1, Some(100)), stating_no_anchor(2, None)]),
            &movie(vec![track(1), track(2)])
        ),
        Ok(vec![extent(1, 0, 100..104), extent(2, 0, 104..108)])
    );
}

#[test]
fn a_run_stating_no_offset_starts_where_the_run_before_it_ended() {
    let two_runs = movie_fragment(vec![track_fragment(1, vec![run(Some(100), 1), run(None, 1)])]);

    assert_eq!(resolved(&two_runs, &one_track_movie()), Ok(vec![extent(1, 0, 100..104), extent(1, 1_024, 104..108)]));
}

#[test]
fn a_movie_carrying_no_extends_box_is_not_fragmented_at_all() {
    assert_eq!(resolved(&one_sample_movie_fragment(), &unfragmented_movie()), Err(SampleError::missing_movie_extends()));
}

#[test]
fn a_fragment_of_a_track_the_movie_never_declared_is_refused() {
    let of_an_unknown_track = movie_fragment(vec![track_fragment(3, vec![run(Some(100), 1)])]);

    assert_eq!(resolved(&of_an_unknown_track, &one_track_movie()), Err(SampleError::unknown_track_id(3)));
}

#[test]
fn two_tracks_declaring_one_track_id_leave_the_first_of_them_standing() {
    let mut colliding = one_track_movie();
    let mut second = track(1);
    second.data_entries = vec![DataEntry::Url { location: Some(String::from("elsewhere.mp4")) }];
    colliding.tracks.push(second);

    assert_eq!(resolved(&one_sample_movie_fragment(), &colliding), Ok(vec![extent(1, 0, 100..104)]));
}

#[test]
fn a_fragment_described_by_an_entry_its_track_has_none_of_is_refused() {
    let mut tfhd = track_fragment_header(true, 1, None, None, None);
    tfhd.sample_description_index = Some(2);
    let by_a_second_entry = TrackFragmentBox { tfhd, base_media_decode_time: None, runs: vec![run(Some(100), 1)] };

    assert_eq!(
        resolved(&movie_fragment(vec![by_a_second_entry]), &one_track_movie()),
        Err(SampleError::unknown_sample_description_index(1, 2))
    );
}

#[test]
fn a_fragment_of_a_track_reading_from_an_external_file_is_refused() {
    let mut external = track(1);
    external.data_entries = vec![DataEntry::Url { location: Some(String::from("media.bin")) }];

    assert_eq!(
        resolved(&one_sample_movie_fragment(), &movie(vec![external])),
        Err(SampleError::external_data_reference(1, 1))
    );
}

#[test]
fn an_empty_duration_moves_the_timeline_on_without_a_sample() {
    let mut tfhd = track_fragment_header(false, 1, None, Some(4_096), None);
    tfhd.duration_is_empty = true;
    let empty = TrackFragmentBox { tfhd, base_media_decode_time: None, runs: Vec::new() };

    let mut decode_times = track_1_at(1_024);

    assert_eq!(resolved_from(&movie_fragment(vec![empty]), &one_track_movie(), 0, &mut decode_times), Ok(vec![]));
    assert_eq!(decode_times.decode_time(1), 5_120);
}

#[test]
fn a_track_is_moved_past_the_samples_of_each_of_its_fragments_in_turn() {
    let mut decode_times = TrackDecodeTimes::new();
    let two_of_the_same_track = movie_fragment(vec![
        track_fragment(1, vec![run(Some(100), 2)]),
        track_fragment(1, vec![run(Some(108), 1)]),
    ]);

    assert_eq!(
        resolved_from(&two_of_the_same_track, &movie(vec![track(1), track(2)]), 0, &mut decode_times),
        Ok(vec![extent(1, 0, 100..104), extent(1, 1_024, 104..108), extent(1, 2_048, 108..112)])
    );
    assert_eq!(decode_times.decode_time(1), 3_072);
    assert_eq!(decode_times.decode_time(2), 0);
}

#[test]
fn a_failure_returned_outright_leaves_every_track_where_it_stood() {
    let mut decode_times = TrackDecodeTimes::new();
    let then_an_unknown_track = movie_fragment(vec![
        track_fragment(1, vec![run(Some(100), 1)]),
        track_fragment(3, vec![run(Some(104), 1)]),
    ]);

    assert_eq!(
        resolved_from(&then_an_unknown_track, &one_track_movie(), 0, &mut decode_times),
        Err(SampleError::unknown_track_id(3))
    );
    assert_eq!(decode_times.decode_time(1), 0);
}

#[test]
fn the_sequence_number_a_fragment_carries_is_neither_checked_nor_reported() {
    let out_of_order = MovieFragmentBox { sequence_number: 9, track_fragments: vec![track_fragment(1, vec![run(Some(100), 1)])] };

    assert_eq!(resolved(&out_of_order, &one_track_movie()), Ok(vec![extent(1, 0, 100..104)]));
}

#[test]
fn the_extents_placed_before_a_failure_come_out_ahead_of_it_and_the_tracks_have_moved() {
    let mut decode_times = TrackDecodeTimes::new();
    let then_past_the_end_of_the_file = movie_fragment(vec![
        track_fragment(1, vec![run(Some(100), 1)]),
        TrackFragmentBox {
            tfhd: track_fragment_header(false, 2, Some(u64::MAX), None, None),
            base_media_decode_time: None,
            runs: vec![run(None, 1)],
        },
    ]);

    assert_eq!(
        sample_extents(&then_past_the_end_of_the_file, &movie(vec![track(1), track(2)]), 0, &mut decode_times).unwrap(),
        [Ok(extent(1, 0, 100..104)), Err(SampleError::data_offset_overflow(2))]
    );
    assert_eq!(decode_times.decode_time(1), 1_024);
    assert_eq!(decode_times.decode_time(2), 1_024);
}

#[test]
fn movie_fragment_decode_times_running_past_what_64_bits_carry_are_refused() {
    let at_the_end_of_time = TrackFragmentBox {
        tfhd: track_fragment_header(true, 1, None, Some(u32::MAX), None),
        base_media_decode_time: Some(u64::MAX),
        runs: vec![run(Some(100), 1)],
    };

    assert_eq!(
        resolved(&movie_fragment(vec![at_the_end_of_time]), &one_track_movie()),
        Err(SampleError::decode_time_overflow(1))
    );
}

#[test]
fn data_offsets_running_past_what_64_bits_carry_are_refused() {
    let past_the_end_of_the_file = TrackFragmentBox {
        tfhd: track_fragment_header(false, 1, Some(u64::MAX), None, None),
        base_media_decode_time: None,
        runs: vec![run(None, 1)],
    };

    assert_eq!(
        resolved(&movie_fragment(vec![past_the_end_of_the_file]), &one_track_movie()),
        Err(SampleError::data_offset_overflow(1))
    );
}

#[test]
fn a_run_stating_an_offset_before_the_start_of_the_file_is_refused() {
    assert_eq!(
        resolved(&movie_fragment(vec![track_fragment(1, vec![run(Some(-1), 1)])]), &one_track_movie()),
        Err(SampleError::data_offset_overflow(1))
    );
}

/// Bytes the media data of the fragments written here starts past the start of their `moof`
const BASE: u64 = 100;

/// Sample of `track_id` at `decode_time` lasting 1024 units, described by entry 1
fn sample(track_id: u32, decode_time: u64, data: &[u8]) -> Sample {
    Sample::new(track_id, decode_time, 1_024, 0, 0, 1, data.to_vec())
}

/// Sample of track 1 composed `sample_composition_time_offset` after it is decoded
fn offset_by(decode_time: u64, sample_composition_time_offset: i64) -> Sample {
    Sample::new(1, decode_time, 1_024, sample_composition_time_offset, 0, 1, b"AAAA".to_vec())
}

/// Sample of track 1 flagged `sample_flags`
fn flagged(decode_time: u64, sample_flags: u32) -> Sample {
    Sample::new(1, decode_time, 1_024, 0, sample_flags, 1, b"AAAA".to_vec())
}

/// Closes the fragment open in `writer`, as its `moof`, its data `BASE` bytes past it, and its media data
fn finished(writer: &mut MovieFragmentWriter) -> Result<(MovieFragmentBox, Vec<u8>), SampleError> {
    let layout: FragmentLayout = writer.finish_fragment()?;
    let moof = writer.build_fragment(&layout, BASE)?;
    Ok((moof, layout.media_data))
}

/// One fragment numbered 1 holding `samples`
fn one_fragment(samples: Vec<Sample>) -> (MovieFragmentBox, Vec<u8>) {
    let mut writer = MovieFragmentWriter::new();

    writer.begin_fragment(1).unwrap();
    for sample in samples {
        writer.handle_sample(sample).unwrap();
    }

    finished(&mut writer).unwrap()
}

fn track_fragment_of(movie_fragment: &MovieFragmentBox, track_id: u32) -> &TrackFragmentBox {
    movie_fragment.track_fragments.iter().find(|track_fragment| track_fragment.tfhd.track_id == track_id).unwrap()
}

fn rows_of_the_runs(movie_fragment: &MovieFragmentBox, track_id: u32) -> Vec<usize> {
    track_fragment_of(movie_fragment, track_id).runs.iter().map(|track_run| track_run.samples.len()).collect()
}

fn rows_of(movie_fragment: &MovieFragmentBox, track_id: u32) -> Vec<TrackRunSample> {
    track_fragment_of(movie_fragment, track_id).runs.iter().flat_map(|track_run| track_run.samples.iter().copied()).collect()
}

/// Header a `traf` of track 1 is written with, stating the defaults given
fn written_header(
    default_sample_duration: Option<u32>,
    default_sample_size: Option<u32>,
    default_sample_flags: Option<u32>,
) -> TrackFragmentHeaderBox {
    TrackFragmentHeaderBox {
        track_id: 1,
        base_data_offset: None,
        sample_description_index: Some(1),
        default_sample_duration,
        default_sample_size,
        default_sample_flags,
        duration_is_empty: false,
        default_base_is_moof: true,
    }
}

fn row(sample_duration: Option<u32>, sample_size: Option<u32>, sample_flags: Option<u32>, offset: Option<i64>) -> TrackRunSample {
    TrackRunSample { sample_duration, sample_size, sample_flags, sample_composition_time_offset: offset }
}

#[test]
fn movie_fragment_writer_a_decode_time_is_written_for_every_fragment_of_a_track() {
    let mut writer = MovieFragmentWriter::new();
    let mut decode_times = Vec::new();

    for (sequence_number, decode_time) in [(1, 0), (2, 8_192)] {
        writer.begin_fragment(sequence_number).unwrap();
        writer.handle_sample(sample(1, decode_time, b"AAAA")).unwrap();
        let (movie_fragment, _media_data) = finished(&mut writer).unwrap();
        decode_times.push(track_fragment_of(&movie_fragment, 1).base_media_decode_time.unwrap());
    }

    assert_eq!(decode_times, [0, 8_192]);
}

#[test]
fn open_fragment_a_decode_time_is_written_for_every_fragment_of_a_track() {
    let mut writer = MovieFragmentWriter::new();
    let mut decode_times = Vec::new();

    for (sequence_number, decode_time) in [(1, 0), (2, 8_192)] {
        writer.begin_fragment(sequence_number).unwrap();
        writer.handle_sample(sample(1, decode_time, b"AAAA")).unwrap();
        let (movie_fragment, _media_data) = finished(&mut writer).unwrap();
        decode_times.push(track_fragment_of(&movie_fragment, 1).base_media_decode_time.unwrap());
    }

    assert_eq!(decode_times, [0, 8_192]);
}

#[test]
fn a_fragment_may_start_after_the_samples_before_it_end() {
    let mut writer = MovieFragmentWriter::new();

    writer.begin_fragment(1).unwrap();
    writer.handle_sample(sample(1, 0, b"AAAA")).unwrap();
    finished(&mut writer).unwrap();
    writer.begin_fragment(2).unwrap();

    assert_eq!(writer.handle_sample(sample(1, 8_192, b"BBBB")), Ok(()));
}

#[test]
fn a_track_going_back_to_a_decode_time_it_passed_is_refused() {
    let mut writer = MovieFragmentWriter::new();

    writer.begin_fragment(1).unwrap();
    writer.handle_sample(sample(1, 0, b"AAAA")).unwrap();
    finished(&mut writer).unwrap();
    writer.begin_fragment(2).unwrap();

    assert_eq!(writer.handle_sample(sample(1, 512, b"BBBB")), Err(SampleError::backward_decode_time(1, 512, 1_024)));
}

#[test]
fn a_sample_handed_over_or_a_fragment_closed_while_none_is_open_is_refused() {
    let mut handed_a_sample = MovieFragmentWriter::new();
    let mut closed = MovieFragmentWriter::new();

    assert_eq!(handed_a_sample.handle_sample(sample(1, 0, b"AAAA")), Err(SampleError::no_fragment_open()));
    assert_eq!(closed.finish_fragment(), Err(SampleError::no_fragment_open()));
}

#[test]
fn a_fragment_begun_while_one_is_open_is_refused() {
    let mut writer = MovieFragmentWriter::new();

    writer.begin_fragment(1).unwrap();

    assert_eq!(writer.begin_fragment(2), Err(SampleError::fragment_still_open()));
}

#[test]
fn movie_fragment_writer_a_failure_is_reported_again_for_every_call_after_it() {
    let mut writer = MovieFragmentWriter::new();

    writer.begin_fragment(1).unwrap();
    writer.handle_sample(sample(1, 0, b"AAAA")).unwrap();
    writer.handle_sample(sample(1, 512, b"BBBB")).unwrap_err();

    assert_eq!(writer.handle_sample(sample(1, 1_024, b"CCCC")), Err(SampleError::decode_time_mismatch(1, 512, 1_024)));
    assert_eq!(writer.finish_fragment(), Err(SampleError::decode_time_mismatch(1, 512, 1_024)));
    assert_eq!(writer.begin_fragment(2), Err(SampleError::decode_time_mismatch(1, 512, 1_024)));
}

#[test]
fn the_media_data_holds_the_samples_in_the_order_they_arrived() {
    let (_movie_fragment, media_data) =
        one_fragment(vec![sample(1, 0, b"AAAA"), sample(2, 0, b"BBBB"), sample(1, 1_024, b"CCCC")]);

    assert_eq!(media_data, b"AAAABBBBCCCC");
}

#[test]
fn one_track_fragment_per_track_in_the_order_the_tracks_first_appear() {
    let (movie_fragment, _media_data) =
        one_fragment(vec![sample(2, 0, b"AAAA"), sample(1, 0, b"BBBB"), sample(2, 1_024, b"CCCC")]);

    let tracks: Vec<u32> = movie_fragment.track_fragments.iter().map(|track_fragment| track_fragment.tfhd.track_id).collect();
    assert_eq!(tracks, [2, 1]);
}

#[test]
fn samples_of_one_track_handed_over_together_are_one_run() {
    let (together, _media_data) =
        one_fragment(vec![sample(1, 0, b"AAAA"), sample(1, 1_024, b"BBBB"), sample(2, 0, b"CCCC")]);
    let (apart, _media_data) = one_fragment(vec![sample(1, 0, b"AAAA"), sample(2, 0, b"CCCC"), sample(1, 1_024, b"BBBB")]);

    assert_eq!(rows_of_the_runs(&together, 1), [2]);
    assert_eq!(rows_of_the_runs(&apart, 1), [1, 1]);
}

#[test]
fn offsets_are_anchored_at_the_fragment_itself() {
    let (movie_fragment, _media_data) = one_fragment(vec![sample(1, 0, b"AAAA"), sample(2, 0, b"BBBB")]);

    let offsets: Vec<Option<i32>> =
        movie_fragment.track_fragments.iter().flat_map(|traf| traf.runs.iter()).map(|run| run.data_offset).collect();

    assert_eq!(offsets, [Some(BASE as i32), Some(BASE as i32 + 4)]);
    assert!(movie_fragment.track_fragments.iter().all(|traf| traf.tfhd.default_base_is_moof));
}

#[test]
fn what_the_samples_share_is_stated_once_by_their_track_fragment_header() {
    let (movie_fragment, _media_data) = one_fragment(vec![sample(1, 0, b"AAAA"), sample(1, 1_024, b"BBBB")]);
    let header = track_fragment_of(&movie_fragment, 1).tfhd;

    assert_eq!(header, written_header(Some(1_024), Some(4), Some(0)));
    assert_eq!(rows_of(&movie_fragment, 1), vec![NO_ROW; 2]);
}

#[test]
fn what_the_samples_do_not_share_is_stated_by_every_row() {
    let shorter = Sample::new(1, 1_024, 512, 0, 0, 1, b"BB".to_vec());
    let (movie_fragment, _media_data) = one_fragment(vec![sample(1, 0, b"AAAA"), shorter]);
    let header = track_fragment_of(&movie_fragment, 1).tfhd;

    assert_eq!(header, written_header(None, None, Some(0)));
    assert_eq!(rows_of(&movie_fragment, 1), [row(Some(1_024), Some(4), None, None), row(Some(512), Some(2), None, None)]);
}

#[test]
fn flags_only_the_first_sample_differs_on_are_written_as_its_own() {
    let (movie_fragment, _media_data) =
        one_fragment(vec![flagged(0, 0x0200_0000), flagged(1_024, 0x0101_0000), flagged(2_048, 0x0101_0000)]);
    let track_fragment = track_fragment_of(&movie_fragment, 1);

    assert_eq!(track_fragment.tfhd, written_header(Some(1_024), Some(4), Some(0x0101_0000)));
    assert_eq!(
        track_fragment.runs,
        [TrackRunBox { data_offset: Some(BASE as i32), first_sample_flags: Some(0x0200_0000), samples: vec![NO_ROW; 3] }]
    );
}

#[test]
fn flags_no_two_samples_share_are_written_by_every_row() {
    let (movie_fragment, _media_data) =
        one_fragment(vec![flagged(0, 0x0200_0000), flagged(1_024, 0x0101_0000), flagged(2_048, 0x0100_0000)]);
    let track_fragment = track_fragment_of(&movie_fragment, 1);

    assert_eq!(track_fragment.tfhd, written_header(Some(1_024), Some(4), None));
    assert_eq!(
        track_fragment.runs,
        [TrackRunBox {
            data_offset: Some(BASE as i32),
            first_sample_flags: None,
            samples: vec![
                row(None, None, Some(0x0200_0000), None),
                row(None, None, Some(0x0101_0000), None),
                row(None, None, Some(0x0100_0000), None),
            ],
        }]
    );
}

#[test]
fn a_run_holding_any_composition_time_offset_states_one_for_every_row() {
    let (movie_fragment, _media_data) = one_fragment(vec![sample(1, 0, b"AAAA"), offset_by(1_024, 8)]);

    assert_eq!(rows_of_the_runs(&movie_fragment, 1), [2]);
    assert_eq!(rows_of(&movie_fragment, 1), [row(None, None, None, Some(0)), row(None, None, None, Some(8))]);
}

#[test]
fn a_run_is_split_where_no_trun_version_writes_both_offsets() {
    let (movie_fragment, _media_data) = one_fragment(vec![offset_by(0, -8), offset_by(1_024, i64::from(u32::MAX))]);

    assert_eq!(rows_of_the_runs(&movie_fragment, 1), [1, 1]);
}

#[test]
fn a_composition_time_offset_no_run_writes_is_refused() {
    let past_the_field = i64::from(u32::MAX).saturating_add(1);
    let mut writer = MovieFragmentWriter::new();

    writer.begin_fragment(1).unwrap();

    assert_eq!(
        writer.handle_sample(offset_by(0, past_the_field)),
        Err(SampleError::composition_time_offset_out_of_range(1, past_the_field))
    );
}

#[test]
fn a_fragment_of_no_samples_is_written_as_an_empty_pair() {
    let (movie_fragment, media_data) = one_fragment(vec![]);

    assert_eq!(movie_fragment, MovieFragmentBox { sequence_number: 1, track_fragments: vec![] });
    assert_eq!(media_data, Vec::<u8>::new());
}

#[test]
fn open_fragment_a_sample_that_does_not_start_where_the_one_before_it_ends_is_refused() {
    let mut writer = MovieFragmentWriter::new();

    writer.begin_fragment(1).unwrap();
    writer.handle_sample(sample(1, 0, b"AAAA")).unwrap();

    assert_eq!(writer.handle_sample(sample(1, 512, b"BBBB")), Err(SampleError::decode_time_mismatch(1, 512, 1_024)));
}

#[test]
fn samples_of_one_fragment_described_by_two_entries_are_refused() {
    let described_by_the_second = Sample::new(1, 1_024, 1_024, 0, 0, 2, b"BBBB".to_vec());
    let mut writer = MovieFragmentWriter::new();

    writer.begin_fragment(1).unwrap();
    writer.handle_sample(sample(1, 0, b"AAAA")).unwrap();

    assert_eq!(
        writer.handle_sample(described_by_the_second),
        Err(SampleError::sample_description_index_mismatch(1, 2, 1))
    );
}

#[test]
fn open_fragment_decode_times_running_past_what_64_bits_carry_are_refused() {
    let at_the_end_of_time = Sample::new(1, u64::MAX, 1, 0, 0, 1, b"AAAA".to_vec());
    let mut writer = MovieFragmentWriter::new();

    writer.begin_fragment(1).unwrap();

    assert_eq!(writer.handle_sample(at_the_end_of_time), Err(SampleError::decode_time_overflow(1)));
}

#[test]
fn a_run_lying_past_what_a_trun_offset_carries_is_refused() {
    let layout = {
        let mut writer = MovieFragmentWriter::new();
        writer.begin_fragment(1).unwrap();
        writer.handle_sample(sample(1, 0, b"AAAA")).unwrap();
        writer.finish_fragment().unwrap()
    };

    assert_eq!(
        build_movie_fragment(&layout, i32::MAX as u64 + 1),
        Err(SampleError::data_offset_out_of_range(1, i32::MAX as u64 + 1))
    );
    assert_eq!(run_data_offset(10, 4, 1), Ok(14));
    assert_eq!(run_data_offset(u64::MAX, 4, 1), Err(SampleError::data_offset_out_of_range(1, u64::MAX)));
}

#[test]
fn the_samples_a_fragment_is_written_from_resolve_back_out_of_it() {
    const MOOF_START: u64 = 1_000;
    let mut trak = track(1);
    trak.track_id = 1;
    let movie = MovieBox {
        tracks: vec![trak],
        track_extends: Some(vec![TrackExtendsBox {
            track_id: 1,
            default_sample_description_index: 1,
            default_sample_duration: 0,
            default_sample_size: 0,
            default_sample_flags: 0,
        }]),
    };
    let samples = [
        Sample::new(1, 0, 3_000, 0, 0x0200_0000, 1, b"AAAAAAAA".to_vec()),
        Sample::new(1, 3_000, 3_000, 8, 0x0101_0000, 1, b"BBBB".to_vec()),
        Sample::new(1, 6_000, 1_500, -8, 0x0101_0000, 1, b"CC".to_vec()),
    ];
    let mut writer = MovieFragmentWriter::new();

    writer.begin_fragment(1).unwrap();
    for sample in &samples {
        writer.handle_sample(sample.clone()).unwrap();
    }
    let (movie_fragment, media_data) = finished(&mut writer).unwrap();

    let data_start = MOOF_START + BASE;
    let mut decode_times = TrackDecodeTimes::new();
    let extents: Vec<SampleExtent> = sample_extents(&movie_fragment, &movie, MOOF_START, &mut decode_times)
        .unwrap()
        .into_iter()
        .map(Result::unwrap)
        .collect();

    assert_eq!(media_data, b"AAAAAAAABBBBCC");
    assert_eq!(decode_times.decode_time(1), 7_500);
    assert_eq!(
        extents,
        [
            SampleExtent::new(1, 0, 3_000, 0, 0x0200_0000, 1, 1, data_start..data_start + 8),
            SampleExtent::new(1, 3_000, 3_000, 8, 0x0101_0000, 1, 1, data_start + 8..data_start + 12),
            SampleExtent::new(1, 6_000, 1_500, -8, 0x0101_0000, 1, 1, data_start + 12..data_start + 14),
        ]
    );
}

#[test]
fn default_decode_times_stand_at_zero_as_new_ones_do() {
    let times = TrackDecodeTimes::default();

    assert_eq!(times.decode_time(1), 0);
    assert_eq!(times.decode_time(7), TrackDecodeTimes::new().decode_time(7));
}

#[test]
fn a_fragment_whose_offsets_do_not_fit_leaves_the_writer_failed() {
    let mut writer = MovieFragmentWriter::new();
    writer.begin_fragment(1).unwrap();
    writer.handle_sample(sample(1, 0, b"AAAA")).unwrap();
    let layout = writer.finish_fragment().unwrap();
    let too_far = SampleError::data_offset_out_of_range(1, i32::MAX as u64 + 1);

    assert_eq!(writer.build_fragment(&layout, i32::MAX as u64 + 1), Err(too_far));
    assert_eq!(writer.failure(), Some(too_far));
    assert_eq!(writer.begin_fragment(2), Err(too_far));
    assert_eq!(writer.build_fragment(&layout, BASE), Err(too_far));
}

#[test]
fn a_measuring_moof_states_every_offset_as_zero_and_never_fails() {
    let mut writer = MovieFragmentWriter::new();
    writer.begin_fragment(1).unwrap();
    writer.handle_sample(sample(1, 0, b"AAAA")).unwrap();
    let layout = writer.finish_fragment().unwrap();

    let measured = measuring_movie_fragment(&layout);
    let placed = build_movie_fragment(&layout, BASE).unwrap();
    assert_eq!(measured.track_fragments[0].runs[0].data_offset, Some(0));
    assert_eq!(placed.track_fragments[0].runs[0].data_offset, Some(BASE as i32));
    assert_eq!(measured.track_fragments[0].tfhd, placed.track_fragments[0].tfhd);
}
