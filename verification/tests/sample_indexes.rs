use isobmff_media::sample::error::SampleError;
use isobmff_media::sample::random_access::{sync_sample_at, TrackFragmentRandomAccessBox, TrackFragmentRandomAccessEntry};
use isobmff_media::sample::sample::SampleExtent;
use isobmff_media::sample::sample_flags::SampleFlagFields;
use isobmff_media::sample::segment_index::{subsegments, ReferenceType, SegmentIndex, SegmentIndexBox, SegmentIndexReference, Subsegment};
use isobmff_media::sample::track_decode_times::TrackDecodeTimes;

/// Reference to a media subsegment of `referenced_size` bytes lasting `subsegment_duration`
fn reference(referenced_size: u32, subsegment_duration: u32) -> SegmentIndexReference {
    SegmentIndexReference {
        reference_type: ReferenceType::MediaContent,
        referenced_size,
        subsegment_duration,
        starts_with_sap: true,
        sap_type: 1,
        sap_delta_time: 0,
    }
}

/// Index of track 1 at 90 kHz starting at `earliest_presentation_time`, `first_offset` past its anchor
fn index(earliest_presentation_time: u64, first_offset: u64, references: Vec<SegmentIndexReference>) -> SegmentIndexBox {
    SegmentIndexBox { reference_id: 1, timescale: 90_000, earliest_presentation_time, first_offset, references }
}

/// Index of three subsegments of 1000, 2000 and 500 bytes, lasting 3000, 3000 and 1500, from 200 past an anchor at 1000
fn three_subsegments() -> SegmentIndex {
    subsegments(
        &index(9_000, 200, vec![reference(1_000, 3_000), reference(2_000, 3_000), reference(500, 1_500)]),
        1_000,
    )
    .unwrap()
}

/// A subsegment as its accessors have it
fn placed(subsegment: &Subsegment) -> (std::ops::Range<u64>, u64, SegmentIndexReference) {
    (subsegment.extent(), subsegment.earliest_presentation_time(), *subsegment.reference())
}

#[test]
fn each_subsegment_starts_where_the_one_before_ends_in_bytes_and_in_time() {
    let resolved = three_subsegments();

    assert_eq!(resolved.reference_id(), 1);
    assert_eq!(resolved.timescale(), 90_000);
    assert_eq!(resolved.earliest_presentation_time(), 9_000);
    assert_eq!(
        resolved.subsegments().iter().map(placed).collect::<Vec<_>>(),
        vec![
            (1_200..2_200, 9_000, reference(1_000, 3_000)),
            (2_200..4_200, 12_000, reference(2_000, 3_000)),
            (4_200..4_700, 15_000, reference(500, 1_500)),
        ]
    );
}

#[test]
fn a_time_is_looked_up_in_the_subsegment_it_falls_in() {
    let resolved = three_subsegments();
    let starting_at = |time: u64| resolved.subsegment_at(time).map(Subsegment::earliest_presentation_time);

    assert_eq!(starting_at(9_000), Some(9_000));
    assert_eq!(starting_at(11_999), Some(9_000));
    assert_eq!(starting_at(12_000), Some(12_000));
    assert_eq!(starting_at(16_499), Some(15_000));
}

#[test]
fn a_time_before_the_first_subsegment_or_past_the_last_falls_in_none() {
    let resolved = three_subsegments();

    assert_eq!(resolved.subsegment_at(8_999), None);
    assert_eq!(resolved.subsegment_at(16_500), None);
    assert_eq!(subsegments(&index(0, 0, Vec::new()), 0).unwrap().subsegment_at(0), None);
}

#[test]
fn extents_running_past_what_64_bits_carry_are_refused() {
    assert_eq!(subsegments(&index(0, u64::MAX, Vec::new()), 1), Err(SampleError::data_offset_overflow(1)));
    assert_eq!(
        subsegments(&index(0, u64::MAX - 10, vec![reference(11, 0)]), 0),
        Err(SampleError::data_offset_overflow(1))
    );
}

#[test]
fn times_running_past_what_64_bits_carry_are_refused() {
    assert_eq!(
        subsegments(&index(u64::MAX - 10, 0, vec![reference(1, 11)]), 0),
        Err(SampleError::presentation_time_overflow(1))
    );
}

#[test]
fn an_index_resolved_twice_is_the_same_index() {
    assert_eq!(three_subsegments(), three_subsegments());
    assert_eq!(three_subsegments().clone(), three_subsegments());
}

/// Entry of the sync sample at `time`, first of the `moof` at `moof_offset`
fn entry(time: u64, moof_offset: u64) -> TrackFragmentRandomAccessEntry {
    TrackFragmentRandomAccessEntry { time, moof_offset, traf_number: 1, trun_number: 1, sample_number: 1 }
}

#[test]
fn a_time_is_looked_up_in_the_latest_sync_sample_at_or_before_it() {
    let table = TrackFragmentRandomAccessBox {
        track_id: 1,
        entries: vec![entry(3_000, 5_000), entry(0, 1_000), entry(6_000, 9_000)],
    };

    assert_eq!(sync_sample_at(&table, 0), Some(&entry(0, 1_000)));
    assert_eq!(sync_sample_at(&table, 2_999), Some(&entry(0, 1_000)));
    assert_eq!(sync_sample_at(&table, 3_000), Some(&entry(3_000, 5_000)));
    assert_eq!(sync_sample_at(&table, u64::MAX), Some(&entry(6_000, 9_000)));
}

#[test]
fn a_time_before_every_entry_or_a_table_listing_none_finds_nothing() {
    let late = TrackFragmentRandomAccessBox { track_id: 1, entries: vec![entry(3_000, 5_000)] };

    assert_eq!(sync_sample_at(&late, 2_999), None);
    assert_eq!(sync_sample_at(&TrackFragmentRandomAccessBox { track_id: 1, entries: Vec::new() }, 0), None);
}

#[test]
fn of_two_entries_at_one_time_the_later_listed_is_found() {
    let table = TrackFragmentRandomAccessBox { track_id: 1, entries: vec![entry(3_000, 5_000), entry(3_000, 7_000)] };

    assert_eq!(sync_sample_at(&table, 3_500), Some(&entry(3_000, 7_000)));
}

#[test]
fn each_field_lies_where_the_layout_places_it() {
    let fields = SampleFlagFields {
        is_leading: 3,
        sample_depends_on: 2,
        sample_is_depended_on: 1,
        sample_has_redundancy: 2,
        padding: 5,
        is_non_sync_sample: true,
        degradation_priority: 0xbeef,
    };

    assert_eq!(fields.to_sample_flags(), 0x0e6b_beef);
    assert_eq!(SampleFlagFields::from_sample_flags(0x0e6b_beef), Some(fields));
}

#[test]
fn flags_setting_a_reserved_bit_split_into_no_fields() {
    assert_eq!(SampleFlagFields::from_sample_flags(0x1000_0000), None);
}

#[test]
fn flags_of_no_field_set_split_into_zero_fields_and_back() {
    let fields = SampleFlagFields::from_sample_flags(0).unwrap();

    assert_eq!(fields.is_leading, 0);
    assert!(!fields.is_non_sync_sample);
    assert_eq!(fields.to_sample_flags(), 0);
}

fn extent(track_id: u32, decode_time: u64, sample_duration: u32) -> SampleExtent {
    SampleExtent::new(track_id, decode_time, sample_duration, 0, 0, 1, 1, 0..0)
}

#[test]
fn a_track_no_sample_was_resolved_for_stands_at_zero() {
    assert_eq!(TrackDecodeTimes::new().decode_time(1), 0);
}

#[test]
fn a_track_stands_where_the_last_sample_resolved_for_it_ends() {
    let mut decode_times = TrackDecodeTimes::new();

    decode_times.advance(&extent(1, 100, 25)).unwrap();
    decode_times.advance(&extent(2, 7, 3)).unwrap();
    decode_times.advance(&extent(1, 4_096, 4)).unwrap();

    assert_eq!(decode_times.decode_time(1), 4_100);
    assert_eq!(decode_times.decode_time(2), 10);
}

#[test]
fn a_sample_ending_past_what_64_bits_carry_is_refused_and_moves_nothing() {
    let mut decode_times = TrackDecodeTimes::new();
    decode_times.advance(&extent(1, 100, 25)).unwrap();

    assert_eq!(decode_times.advance(&extent(1, u64::MAX, 1)), Err(SampleError::decode_time_overflow(1)));
    assert_eq!(decode_times.decode_time(1), 125);
}

#[test]
fn a_track_moved_to_a_time_stands_there_and_the_others_where_they_stood() {
    let mut decode_times = TrackDecodeTimes::new();
    decode_times.reach(1, 500);
    decode_times.reach(2, 7);
    decode_times.reach(1, 9);

    assert_eq!(decode_times.decode_time(1), 9);
    assert_eq!(decode_times.decode_time(2), 7);
    assert_eq!(decode_times.clone().decode_time(2), 7);
}
