use std::collections::BTreeMap;
use std::ops::Range;

use isobmff_media::bytes::BoxError;
use isobmff_media::sample::boxes::{
    DataEntry, MovieBox, SampleDescriptionEntry, SampleSizes, SampleToChunkEntry, TimeToSampleEntry, TrackBox,
};
use isobmff_media::sample::error::SampleError;
use isobmff_media::sample::sample::{Sample, SampleExtent};
use isobmff_media::sample::sample_description::data_reference_index;
use isobmff_media::sample::sample_table::{resolve_track, sample_extents, sort_by_start};
use isobmff_media::sample::sample_table_writer::{ChunkOffsets, OpenTrack, SampleTableWriter, SampleTables};

/// An `stsd` entry whose sample entry names data reference `data_reference_index`
fn entry_naming(data_reference_index: u16) -> SampleDescriptionEntry {
    let [high, low] = data_reference_index.to_be_bytes();
    SampleDescriptionEntry { box_type: *b"avc1", payload: vec![0, 0, 0, 0, 0, 0, high, low] }
}

/// A `dref` naming the file itself
fn self_contained_data_reference() -> Vec<DataEntry> {
    vec![DataEntry::Url { location: None }]
}

/// A `dref` naming another file
fn external_data_reference() -> Vec<DataEntry> {
    vec![DataEntry::Url { location: Some(String::from("media.bin")) }]
}

/// Track `track_id` of the file itself, its samples laid out by the four tables
fn track_of(
    track_id: u32,
    stts: &[(u32, u32)],
    stsc: &[(u32, u32)],
    sizes: SampleSizes,
    stco: &[u64],
) -> TrackBox {
    TrackBox {
        track_id,
        sample_descriptions: vec![entry_naming(1)],
        data_entries: self_contained_data_reference(),
        time_to_sample: stts
            .iter()
            .map(|&(sample_count, sample_delta)| TimeToSampleEntry { sample_count, sample_delta })
            .collect(),
        sample_to_chunk: stsc
            .iter()
            .map(|&(first_chunk, samples_per_chunk)| SampleToChunkEntry {
                first_chunk,
                samples_per_chunk,
                sample_description_index: 1,
            })
            .collect(),
        sample_sizes: sizes,
        chunk_offsets: stco.to_vec(),
    }
}

/// Sizes stated one per sample
fn stsz(sizes: &[u32]) -> SampleSizes {
    SampleSizes::PerSample(sizes.to_vec())
}

/// Track 1 of four-byte samples lasting 100 units, one to a chunk, at the offsets given
fn track_chunked_at(offsets: &[u64]) -> TrackBox {
    track_of(1, &[(offsets.len() as u32, 100)], &[(1, 1)], stsz(&vec![4; offsets.len()]), offsets)
}

/// Movie of the given tracks, continued in no fragment
fn movie(tracks: Vec<TrackBox>) -> MovieBox {
    MovieBox { tracks, track_extends: None }
}

/// Extent of a sync sample of `track_id` described by entry 1, in the file itself
fn extent(track_id: u32, decode_time: u64, sample_duration: u32, data: Range<u64>) -> SampleExtent {
    SampleExtent::new(track_id, decode_time, sample_duration, 0, 0, 1, 1, data)
}

/// Resolves the samples of `movie`, whole
fn resolved(movie: &MovieBox) -> Result<Vec<SampleExtent>, SampleError> {
    sample_extents(movie).into_iter().collect()
}

#[test]
fn an_entry_naming_the_file_itself_resolves_to_its_data_reference_index() {
    let trak = track_of(1, &[], &[], stsz(&[]), &[]);

    assert_eq!(data_reference_index(&trak, 1), Ok(1));
}

#[test]
fn an_entry_the_track_has_none_of_is_refused() {
    let trak = track_of(1, &[], &[], stsz(&[]), &[]);

    assert_eq!(data_reference_index(&trak, 2), Err(SampleError::unknown_sample_description_index(1, 2)));
    assert_eq!(data_reference_index(&trak, 0), Err(SampleError::unknown_sample_description_index(1, 0)));
}

#[test]
fn an_entry_ending_before_its_data_reference_index_fails_as_that_box() {
    let mut trak = track_of(1, &[], &[], stsz(&[]), &[]);
    trak.sample_descriptions = vec![SampleDescriptionEntry { box_type: *b"avc1", payload: vec![0; 4] }];

    assert_eq!(
        data_reference_index(&trak, 1),
        Err(SampleError::from(BoxError::TruncatedPayload { needed: 8, available: 4 }))
    );
}

#[test]
fn a_data_reference_the_track_has_none_of_is_refused() {
    let mut trak = track_of(1, &[], &[], stsz(&[]), &[]);
    trak.data_entries = Vec::new();

    assert_eq!(data_reference_index(&trak, 1), Err(SampleError::unknown_data_reference_index(1, 1)));
}

#[test]
fn a_data_reference_to_an_external_file_is_refused() {
    let mut by_url = track_of(1, &[], &[], stsz(&[]), &[]);
    by_url.data_entries = external_data_reference();
    let mut by_urn = track_of(1, &[], &[], stsz(&[]), &[]);
    by_urn.data_entries = vec![DataEntry::Urn { name: String::from("media.bin"), location: None }];

    assert_eq!(data_reference_index(&by_url, 1), Err(SampleError::external_data_reference(1, 1)));
    assert_eq!(data_reference_index(&by_urn, 1), Err(SampleError::external_data_reference(1, 1)));
}

#[test]
fn a_sample_is_read_across_the_four_tables_of_its_track() {
    let trak = track_of(1, &[(2, 100), (3, 50)], &[(1, 2), (2, 3)], stsz(&[4, 6, 2, 8, 3]), &[1_000, 2_000]);

    assert_eq!(
        resolved(&movie(vec![trak])),
        Ok(vec![
            extent(1, 0, 100, 1_000..1_004),
            extent(1, 100, 100, 1_004..1_010),
            extent(1, 200, 50, 2_000..2_002),
            extent(1, 250, 50, 2_002..2_010),
            extent(1, 300, 50, 2_010..2_013),
        ])
    );
}

#[test]
fn a_run_of_chunks_reaches_the_chunk_the_next_run_starts_at() {
    let trak = track_of(1, &[(6, 100)], &[(1, 1), (3, 2)], stsz(&[4; 6]), &[100, 200, 300, 400]);

    assert_eq!(
        resolved(&movie(vec![trak])),
        Ok(vec![
            extent(1, 0, 100, 100..104),
            extent(1, 100, 100, 200..204),
            extent(1, 200, 100, 300..304),
            extent(1, 300, 100, 304..308),
            extent(1, 400, 100, 400..404),
            extent(1, 500, 100, 404..408),
        ])
    );
}

#[test]
fn a_size_every_sample_shares_is_read_for_each_of_them() {
    let trak = track_of(1, &[(3, 100)], &[(1, 3)], SampleSizes::Uniform { sample_size: 4, sample_count: 3 }, &[100]);

    assert_eq!(
        resolved(&movie(vec![trak])),
        Ok(vec![extent(1, 0, 100, 100..104), extent(1, 100, 100, 104..108), extent(1, 200, 100, 108..112)])
    );
}

#[test]
fn the_samples_of_a_run_take_the_description_it_names() {
    let mut trak = track_of(1, &[(2, 100)], &[], stsz(&[4, 4]), &[100, 200]);
    trak.sample_descriptions = vec![entry_naming(1), entry_naming(1)];
    trak.sample_to_chunk = vec![
        SampleToChunkEntry { first_chunk: 1, samples_per_chunk: 1, sample_description_index: 2 },
        SampleToChunkEntry { first_chunk: 2, samples_per_chunk: 1, sample_description_index: 1 },
    ];

    assert_eq!(
        resolved(&movie(vec![trak])),
        Ok(vec![SampleExtent::new(1, 0, 100, 0, 0, 2, 1, 100..104), extent(1, 100, 100, 200..204)])
    );
}

#[test]
fn the_chunks_of_two_tracks_come_out_in_the_order_the_file_lays_them_down() {
    let interleaved = movie(vec![
        track_chunked_at(&[100, 300]),
        track_of(2, &[(4, 1_000)], &[(1, 2)], stsz(&[8; 4]), &[200, 400]),
    ]);

    assert_eq!(
        resolved(&interleaved),
        Ok(vec![
            extent(1, 0, 100, 100..104),
            extent(2, 0, 1_000, 200..208),
            extent(2, 1_000, 1_000, 208..216),
            extent(1, 100, 100, 300..304),
            extent(2, 2_000, 1_000, 400..408),
            extent(2, 3_000, 1_000, 408..416),
        ])
    );
}

#[test]
fn a_movie_declaring_no_sample_in_its_tables_resolves_to_none() {
    assert_eq!(resolved(&movie(vec![track_of(1, &[], &[], stsz(&[]), &[])])), Ok(vec![]));
    assert_eq!(resolved(&movie(vec![])), Ok(vec![]));
}

#[test]
fn tables_counting_different_numbers_of_samples_are_refused() {
    let more_deltas_than_sizes = track_of(1, &[(4, 100)], &[(1, 3)], stsz(&[4; 3]), &[100]);
    let more_sizes_than_the_chunks_hold = track_of(1, &[(4, 100)], &[(1, 3)], stsz(&[4; 4]), &[100]);
    let fewer_sizes_than_the_chunks_hold = track_of(1, &[(2, 100)], &[(1, 3)], stsz(&[4; 2]), &[100]);

    for trak in [more_deltas_than_sizes, more_sizes_than_the_chunks_hold, fewer_sizes_than_the_chunks_hold] {
        assert_eq!(resolved(&movie(vec![trak])), Err(SampleError::sample_count_mismatch(1)));
    }
}

#[test]
fn a_run_starting_past_the_last_chunk_is_refused() {
    let past_the_last_chunk = track_of(1, &[(2, 100)], &[(1, 2), (3, 1)], stsz(&[4; 2]), &[100]);

    assert_eq!(resolved(&movie(vec![past_the_last_chunk])), Err(SampleError::first_chunk_out_of_range(1, 3)));
}

#[test]
fn a_run_starting_at_or_before_the_start_of_the_run_before_it_is_refused() {
    let doubling_back = track_of(1, &[(3, 100)], &[(1, 1), (3, 1), (2, 1)], stsz(&[4; 3]), &[100, 200, 300]);
    let starting_twice = track_of(1, &[(3, 100)], &[(1, 1), (3, 1), (3, 1)], stsz(&[4; 3]), &[100, 200, 300]);

    assert_eq!(resolved(&movie(vec![doubling_back])), Err(SampleError::first_chunk_out_of_range(1, 2)));
    assert_eq!(resolved(&movie(vec![starting_twice])), Err(SampleError::first_chunk_out_of_range(1, 3)));
}

#[test]
fn a_first_run_starting_anywhere_but_at_the_first_chunk_is_refused() {
    let starting_at_the_second_chunk = track_of(1, &[(1, 100)], &[(2, 1)], stsz(&[4]), &[100, 200]);

    assert_eq!(
        resolved(&movie(vec![starting_at_the_second_chunk])),
        Err(SampleError::first_chunk_out_of_range(1, 2))
    );
}

#[test]
fn chunks_no_run_lays_over_hold_no_sample() {
    let chunks_without_runs = track_of(1, &[], &[], stsz(&[]), &[100, 200]);

    assert_eq!(resolved(&movie(vec![chunks_without_runs])), Ok(vec![]));
}

#[test]
fn a_run_described_by_an_entry_its_track_has_none_of_is_refused() {
    let mut trak = track_of(1, &[(1, 100)], &[], stsz(&[4]), &[100]);
    trak.sample_to_chunk = vec![SampleToChunkEntry { first_chunk: 1, samples_per_chunk: 1, sample_description_index: 2 }];

    assert_eq!(resolved(&movie(vec![trak])), Err(SampleError::unknown_sample_description_index(1, 2)));
}

#[test]
fn a_sample_of_a_track_reading_from_an_external_file_is_refused() {
    let mut trak = track_of(1, &[(1, 100)], &[(1, 1)], stsz(&[4]), &[100]);
    trak.data_entries = external_data_reference();

    assert_eq!(resolved(&movie(vec![trak])), Err(SampleError::external_data_reference(1, 1)));
}

#[test]
fn the_extents_resolved_before_a_failure_come_out_ahead_of_it() {
    let then_a_track_out_of_range =
        movie(vec![track_chunked_at(&[100, 200]), track_of(2, &[], &[(2, 1)], stsz(&[]), &[])]);

    assert_eq!(
        sample_extents(&then_a_track_out_of_range),
        [
            Ok(extent(1, 0, 100, 100..104)),
            Ok(extent(1, 100, 100, 200..204)),
            Err(SampleError::first_chunk_out_of_range(2, 2)),
        ]
    );
}

#[test]
fn offsets_running_past_what_64_bits_carry_are_refused_after_the_extents_before_them() {
    let trak = track_of(1, &[(2, 100)], &[(1, 2)], stsz(&[4, 4]), &[u64::MAX - 5]);
    let mut extents = Vec::new();

    assert_eq!(resolve_track(&trak, &mut extents), Err(SampleError::data_offset_overflow(1)));
    assert_eq!(extents, [extent(1, 0, 100, u64::MAX - 5..u64::MAX - 1)]);
}

#[test]
fn decode_times_are_summed_past_what_32_bits_carry() {
    let trak = track_of(1, &[(3, u32::MAX)], &[(1, 3)], stsz(&[1; 3]), &[0]);
    let mut extents = Vec::new();

    assert_eq!(resolve_track(&trak, &mut extents), Ok(()));
    assert_eq!(extents.len(), 3);
    assert_eq!(extents[2].decode_time(), 2 * u64::from(u32::MAX));
}

#[test]
fn extents_are_ordered_by_where_they_start_keeping_the_order_of_those_starting_together() {
    let sorted = sort_by_start(vec![
        extent(1, 0, 1, 300..301),
        extent(2, 0, 1, 100..101),
        extent(3, 0, 1, 300..302),
        extent(4, 0, 1, 200..201),
    ]);

    assert_eq!(
        sorted.iter().map(SampleExtent::track_id).collect::<Vec<_>>(),
        [2, 4, 1, 3]
    );
}

/// Sample of `track_id` at `decode_time` lasting 1024 units, carrying `data`
fn sample(track_id: u32, decode_time: u64, data: &[u8]) -> Sample {
    Sample::new(track_id, decode_time, 1_024, 0, 0, 1, data.to_vec())
}

/// Lays `chunks` out, each `(chunk_offset, samples)`, and hands back the tables
fn laid_out(chunks: Vec<(u64, Vec<Sample>)>) -> BTreeMap<u32, SampleTables> {
    let mut writer = SampleTableWriter::new();

    for (chunk_offset, samples) in chunks {
        writer.begin_chunk(chunk_offset).unwrap();
        for sample in samples {
            writer.handle_sample(sample).unwrap();
        }
    }

    writer.finish().unwrap()
}

/// The four tables of `tables`, as values that compare
fn parts(tables: &SampleTables) -> (Vec<TimeToSampleEntry>, Vec<SampleToChunkEntry>, SampleSizes, ChunkOffsets) {
    (tables.stts().clone(), tables.stsc().clone(), tables.stsz().clone(), tables.chunk_offsets().clone())
}

fn stsc_entry(first_chunk: u32, samples_per_chunk: u32) -> SampleToChunkEntry {
    SampleToChunkEntry { first_chunk, samples_per_chunk, sample_description_index: 1 }
}

fn stts_entry(sample_count: u32, sample_delta: u32) -> TimeToSampleEntry {
    TimeToSampleEntry { sample_count, sample_delta }
}

#[test]
fn the_bytes_of_a_sample_are_handed_straight_back() {
    let mut writer = SampleTableWriter::new();

    writer.begin_chunk(1_000).unwrap();

    assert_eq!(writer.handle_sample(sample(1, 0, b"AAAA")), Ok(b"AAAA".to_vec()));
}

#[test]
fn a_track_gets_the_four_tables_its_samples_were_laid_out_in() {
    let tables = laid_out(vec![
        (1_000, vec![sample(1, 0, b"AAAA"), sample(1, 1_024, b"BB")]),
        (2_000, vec![sample(1, 2_048, b"CCCC")]),
    ]);

    assert_eq!(tables.keys().copied().collect::<Vec<_>>(), [1]);
    assert_eq!(
        parts(&tables[&1]),
        (
            vec![stts_entry(3, 1_024)],
            vec![stsc_entry(1, 2), stsc_entry(2, 1)],
            SampleSizes::PerSample(vec![4, 2, 4]),
            ChunkOffsets::Stco(vec![1_000, 2_000]),
        )
    );
}

#[test]
fn each_chunk_goes_on_the_tables_of_the_track_its_samples_belong_to() {
    let tables = laid_out(vec![
        (1_000, vec![sample(1, 0, b"AAAA")]),
        (2_000, vec![sample(2, 0, b"BBBB"), sample(2, 1_024, b"CCCC")]),
        (3_000, vec![sample(1, 1_024, b"DDDD")]),
    ]);

    assert_eq!(tables.keys().copied().collect::<Vec<_>>(), [1, 2]);
    assert_eq!(
        parts(&tables[&1]),
        (
            vec![stts_entry(2, 1_024)],
            vec![stsc_entry(1, 1)],
            SampleSizes::Uniform { sample_size: 4, sample_count: 2 },
            ChunkOffsets::Stco(vec![1_000, 3_000]),
        )
    );
    assert_eq!(
        parts(&tables[&2]),
        (
            vec![stts_entry(2, 1_024)],
            vec![stsc_entry(1, 2)],
            SampleSizes::Uniform { sample_size: 4, sample_count: 2 },
            ChunkOffsets::Stco(vec![2_000]),
        )
    );
}

#[test]
fn a_chunk_no_sample_was_handed_over_to_is_not_recorded() {
    let tables = laid_out(vec![(1_000, vec![]), (2_000, vec![sample(1, 0, b"AAAA")]), (3_000, vec![])]);

    assert_eq!(
        parts(&tables[&1]),
        (
            vec![stts_entry(1, 1_024)],
            vec![stsc_entry(1, 1)],
            SampleSizes::Uniform { sample_size: 4, sample_count: 1 },
            ChunkOffsets::Stco(vec![2_000]),
        )
    );
}

#[test]
fn no_samples_at_all_lay_out_no_track() {
    assert!(laid_out(vec![]).is_empty());
}

#[test]
fn a_sample_handed_over_while_no_chunk_is_open_is_refused() {
    let mut writer = SampleTableWriter::new();

    assert_eq!(writer.handle_sample(sample(1, 0, b"AAAA")), Err(SampleError::no_chunk_open()));
}

#[test]
fn a_sample_of_another_track_than_the_chunk_holds_is_refused() {
    let mut writer = SampleTableWriter::new();

    writer.begin_chunk(1_000).unwrap();
    writer.handle_sample(sample(1, 0, b"AAAA")).unwrap();

    assert_eq!(writer.handle_sample(sample(2, 0, b"BBBB")), Err(SampleError::track_id_mismatch(2, 1)));
}

#[test]
fn samples_of_one_chunk_described_by_two_entries_are_refused() {
    let described_by_the_second = Sample::new(1, 1_024, 1_024, 0, 0, 2, b"BBBB".to_vec());
    let mut writer = SampleTableWriter::new();

    writer.begin_chunk(1_000).unwrap();
    writer.handle_sample(sample(1, 0, b"AAAA")).unwrap();

    assert_eq!(
        writer.handle_sample(described_by_the_second),
        Err(SampleError::sample_description_index_mismatch(1, 2, 1))
    );
}

#[test]
fn sample_table_writer_a_track_starting_anywhere_but_at_zero_is_refused() {
    let mut writer = SampleTableWriter::new();

    writer.begin_chunk(1_000).unwrap();

    assert_eq!(writer.handle_sample(sample(1, 512, b"AAAA")), Err(SampleError::decode_time_mismatch(1, 512, 0)));
}

#[test]
fn sample_table_writer_a_sample_that_does_not_start_where_the_one_before_it_ends_is_refused() {
    let mut writer = SampleTableWriter::new();

    writer.begin_chunk(1_000).unwrap();
    writer.handle_sample(sample(1, 0, b"AAAA")).unwrap();
    writer.begin_chunk(2_000).unwrap();

    assert_eq!(
        writer.handle_sample(sample(1, 512, b"BBBB")),
        Err(SampleError::decode_time_mismatch(1, 512, 1_024))
    );
}

#[test]
fn a_sample_composed_anywhere_but_when_it_is_decoded_is_refused() {
    let composed_later = Sample::new(1, 0, 1_024, 8, 0, 1, b"AAAA".to_vec());
    let mut writer = SampleTableWriter::new();

    writer.begin_chunk(1_000).unwrap();

    assert_eq!(writer.handle_sample(composed_later), Err(SampleError::unsupported_composition_time_offset(1, 8)));
}

#[test]
fn a_sample_stating_any_flag_is_refused() {
    let flagged = Sample::new(1, 0, 1_024, 0, 0x0200_0000, 1, b"AAAA".to_vec());
    let mut writer = SampleTableWriter::new();

    writer.begin_chunk(1_000).unwrap();

    assert_eq!(writer.handle_sample(flagged), Err(SampleError::unsupported_sample_flags(1, 0x0200_0000)));
}

#[test]
fn a_chunk_opened_past_what_32_bits_reach_is_placed_in_a_co64() {
    let tables = laid_out(vec![(1 << 32, vec![sample(1, 0, b"AAAA")])]);

    assert_eq!(
        parts(&tables[&1]),
        (
            vec![stts_entry(1, 1_024)],
            vec![stsc_entry(1, 1)],
            SampleSizes::Uniform { sample_size: 4, sample_count: 1 },
            ChunkOffsets::Co64(vec![1 << 32]),
        )
    );
}

#[test]
fn sample_table_writer_anything_handed_over_after_the_samples_were_declared_over_is_refused() {
    let mut writer = SampleTableWriter::new();

    writer.finish().unwrap();

    assert_eq!(writer.begin_chunk(1_000), Err(SampleError::already_finished()));
    assert_eq!(writer.handle_sample(sample(1, 0, b"AAAA")), Err(SampleError::already_finished()));
    assert_eq!(writer.finish(), Err(SampleError::already_finished()));
}

#[test]
fn sample_table_writer_a_failure_is_reported_again_for_every_call_after_it() {
    let mut writer = SampleTableWriter::new();

    writer.begin_chunk(1_000).unwrap();
    writer.handle_sample(sample(1, 0, b"AAAA")).unwrap();
    writer.handle_sample(sample(1, 512, b"BBBB")).unwrap_err();

    assert_eq!(writer.handle_sample(sample(1, 1_024, b"CCCC")), Err(SampleError::decode_time_mismatch(1, 512, 1_024)));
    assert_eq!(writer.begin_chunk(2_000), Err(SampleError::decode_time_mismatch(1, 512, 1_024)));
    assert_eq!(writer.finish(), Err(SampleError::decode_time_mismatch(1, 512, 1_024)));
}

#[test]
fn open_track_a_track_starting_anywhere_but_at_zero_is_refused() {
    let mut writer = SampleTableWriter::new();

    writer.begin_chunk(1_000).unwrap();

    assert_eq!(writer.handle_sample(sample(1, 512, b"AAAA")), Err(SampleError::decode_time_mismatch(1, 512, 0)));
}

#[test]
fn open_track_a_sample_that_does_not_start_where_the_one_before_it_ends_is_refused() {
    let mut writer = SampleTableWriter::new();

    writer.begin_chunk(1_000).unwrap();
    writer.handle_sample(sample(1, 0, b"AAAA")).unwrap();
    writer.begin_chunk(2_000).unwrap();

    assert_eq!(
        writer.handle_sample(sample(1, 512, b"BBBB")),
        Err(SampleError::decode_time_mismatch(1, 512, 1_024))
    );
}

#[test]
fn a_chunk_holding_more_samples_than_an_stsc_entry_counts_is_no_fault_below_that_count() {
    let tables = laid_out(vec![(100, vec![sample(1, 0, b""), sample(1, 1_024, b"")])]);

    assert_eq!(parts(&tables[&1]).1, vec![stsc_entry(1, 2)]);
    assert_eq!(parts(&tables[&1]).2, SampleSizes::PerSample(vec![0, 0]));
}

/// The samples of two tracks interleaved by chunk, none composed apart from its decode time or flagged
fn interleaved_chunks() -> Vec<(u64, Vec<Sample>)> {
    vec![
        (1_000, vec![Sample::new(1, 0, 100, 0, 0, 1, b"AAAAAAAA".to_vec()), Sample::new(1, 100, 100, 0, 0, 1, b"BBBB".to_vec())]),
        (2_000, vec![Sample::new(2, 0, 1_000, 0, 0, 1, b"CC".to_vec())]),
        (3_000, vec![Sample::new(1, 200, 50, 0, 0, 1, b"DDDD".to_vec())]),
        (4_000, vec![Sample::new(2, 1_000, 1_000, 0, 0, 1, b"EE".to_vec()), Sample::new(2, 2_000, 500, 0, 0, 1, b"F".to_vec())]),
    ]
}

#[test]
fn the_samples_of_two_tracks_laid_out_by_chunk_resolve_back_out_of_their_tables() {
    let chunks = interleaved_chunks();
    let mut laid_down = Vec::new();
    for (chunk_offset, samples) in &chunks {
        let mut offset = *chunk_offset;
        for sample in samples {
            let end = offset + sample.data().len() as u64;
            laid_down.push(SampleExtent::new(
                sample.track_id(),
                sample.decode_time(),
                sample.sample_duration(),
                0,
                0,
                1,
                1,
                offset..end,
            ));
            offset = end;
        }
    }
    let tables = laid_out(chunks);
    let tracks = tables
        .into_iter()
        .map(|(track_id, tables)| tables.into_track(track_id, vec![entry_naming(1)], self_contained_data_reference()))
        .collect();

    assert_eq!(resolved(&movie(tracks)), Ok(laid_down));
}

/// Chunks of two tracks interleaved, each sample stating no composition offset and no flag
fn interleaved_plain_chunks() -> Vec<(u64, Vec<Sample>)> {
    vec![
        (1_000, vec![Sample::new(1, 0, 100, 0, 0, 1, b"AAAAAAAA".to_vec()), Sample::new(1, 100, 100, 0, 0, 1, b"BBBB".to_vec())]),
        (2_000, vec![Sample::new(2, 0, 1_000, 0, 0, 1, b"CC".to_vec())]),
        (3_000, vec![Sample::new(1, 200, 50, 0, 0, 1, b"DDDD".to_vec())]),
        (4_000, vec![Sample::new(2, 1_000, 1_000, 0, 0, 1, b"EE".to_vec()), Sample::new(2, 2_000, 500, 0, 0, 1, b"F".to_vec())]),
    ]
}

#[test]
fn the_samples_a_sample_table_is_written_from_resolve_back_out_of_it() {
    let chunks = interleaved_plain_chunks();

    let mut laid_down = Vec::new();
    for (chunk_offset, samples) in &chunks {
        let mut offset = *chunk_offset;
        for sample in samples {
            let end = offset + sample.data().len() as u64;
            laid_down.push(extent(sample.track_id(), sample.decode_time(), sample.sample_duration(), offset..end));
            offset = end;
        }
    }
    let tracks = laid_out(chunks)
        .into_iter()
        .map(|(track_id, tables)| tables.into_track(track_id, vec![entry_naming(1)], self_contained_data_reference()))
        .collect();

    assert_eq!(resolved(&movie(tracks)), Ok(laid_down));
}

#[test]
fn sample_table_writer_decode_times_running_past_what_64_bits_carry_are_refused() {
    let at_the_end_of_time = Sample::new(1, u64::MAX, 1, 0, 0, 1, b"AAAA".to_vec());
    let mut track = OpenTrack { reached: u64::MAX, ..OpenTrack::default() };

    assert_eq!(track.place(at_the_end_of_time), Err(SampleError::decode_time_overflow(1)));
}
