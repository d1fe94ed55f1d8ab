use isobmff_media::bytes::{BoxError, BoxErrorKind, Category};
use isobmff_media::sample::error::{SampleError, SampleErrorKind};

#[test]
fn report_a_failure_carries_only_the_values_its_kind_names() {
    let error = SampleError::unknown_sample_description_index(2, 7);

    assert_eq!(error.track_id(), Some(2));
    assert_eq!(error.sample_description_index(), Some(7));
    assert_eq!(error.box_error(), None);
    assert_eq!(error.needed_bytes(), None);
    assert_eq!(error.established_sample_description_index(), None);

    let unfinished = SampleError::unfinished_sample(2, 1_024, 512);

    assert_eq!(unfinished.needed_bytes(), Some(1_024));
    assert_eq!(unfinished.available_bytes(), Some(512));
    assert_eq!(unfinished.sample_description_index(), None);
    assert_eq!(SampleError::missing_movie_extends().track_id(), None);
    assert_eq!(SampleError::unknown_track_id(3).sample_description_index(), None);

    let external = SampleError::external_data_reference(1, 2);

    assert_eq!(external.track_id(), Some(1));
    assert_eq!(external.data_reference_index(), Some(2));
    assert_eq!(external.first_chunk(), None);
    assert_eq!(SampleError::first_chunk_out_of_range(1, 3).first_chunk(), Some(3));
    assert_eq!(SampleError::sync_sample_out_of_range(1, 3).sample_number(), Some(3));
    assert_eq!(SampleError::sample_count_mismatch(1).data_reference_index(), None);

    let too_long = SampleError::sample_size_out_of_range(1, 1 << 40);

    assert_eq!(too_long.track_id(), Some(1));
    assert_eq!(too_long.needed_bytes(), Some(1 << 40));
    assert_eq!(too_long.available_bytes(), None);

    let too_far = SampleError::data_offset_out_of_range(1, 1 << 40);

    assert_eq!(too_far.needed_bytes(), None);
    assert_eq!(too_far.data_offset(), Some(1 << 40));
    assert_eq!(too_far.composition_time_offset(), None);
    assert_eq!(
        SampleError::composition_time_offset_out_of_range(1, -(1 << 40)).composition_time_offset(),
        Some(-(1 << 40))
    );

    let mismatch = SampleError::sample_description_index_mismatch(1, 2, 1);

    assert_eq!(mismatch.sample_description_index(), Some(2));
    assert_eq!(mismatch.established_sample_description_index(), Some(1));
    assert_eq!(mismatch.stated_decode_time(), None);

    let gap = SampleError::decode_time_mismatch(1, 512, 1_024);

    assert_eq!(gap.stated_decode_time(), Some(512));
    assert_eq!(gap.reached_decode_time(), Some(1_024));
    assert_eq!(gap.data_offset(), None);
    assert_eq!(SampleError::no_fragment_open().track_id(), None);
}

#[test]
fn report_a_failure_of_one_box_keeps_its_values_and_the_boxes_it_was_reached_through() {
    let box_error = BoxError::TruncatedPayload { needed: 8, available: 4 };
    let carried = SampleError::from(box_error);

    assert_eq!(carried.box_error(), Some(box_error));
    assert_eq!(carried.track_id(), None);

    let mismatched = SampleError::track_id_mismatch(2, 1);

    assert_eq!(mismatched.track_id(), Some(2));
    assert_eq!(mismatched.established_track_id(), Some(1));
    assert_eq!(mismatched.sample_flags(), None);
    assert_eq!(SampleError::unsupported_sample_flags(1, 0x0200_0000).sample_flags(), Some(0x0200_0000));
}

#[test]
fn representation_a_kind_falls_in_the_category_its_situation_asks_for() {
    assert_eq!(SampleError::decode_time_overflow(3).category(), Category::Malformed);
    assert_eq!(SampleError::unknown_track_id(3).category(), Category::Malformed);
    assert_eq!(SampleError::sample_size_limit_exceeded(1, 32, 16).category(), Category::Unsupported);
    assert_eq!(SampleError::external_data_reference(1, 2).category(), Category::Unsupported);
    assert_eq!(SampleError::first_chunk_out_of_range(1, 3).category(), Category::Malformed);
    assert_eq!(SampleError::sync_sample_out_of_range(1, 3).category(), Category::Malformed);
    assert_eq!(SampleError::already_finished().category(), Category::Usage);
    assert_eq!(SampleError::decode_time_mismatch(1, 512, 1_024).category(), Category::Malformed);
    assert_eq!(SampleError::sample_size_out_of_range(1, 1 << 40).category(), Category::Unsupported);
    assert_eq!(SampleError::no_fragment_open().category(), Category::Usage);
    assert_eq!(SampleError::no_chunk_open().category(), Category::Usage);
    assert_eq!(SampleError::track_id_mismatch(2, 1).category(), Category::Malformed);
    assert_eq!(SampleError::unsupported_sample_flags(1, 0x0200_0000).category(), Category::Unsupported);
    assert_eq!(SampleError::from(BoxError::UnsupportedVersion { version: 2 }).category(), Category::Unsupported);
}

#[test]
fn a_failure_of_the_samples_names_its_own_kind_and_a_box_failure_keeps_the_box_kind() {
    let failure = SampleError::decode_time_overflow(3);

    assert_eq!(failure.kind(), SampleErrorKind::DecodeTimeOverflow);
    assert_eq!(failure.category(), Category::Malformed);
    assert_eq!(failure.track_id(), Some(3));
    assert_eq!(failure.box_error(), None);

    let carried = SampleError::from(BoxError::TrailingPayload { consumed: 3, available: 4 });

    assert_eq!(carried.kind(), SampleErrorKind::Box(BoxErrorKind::TrailingPayload));
    assert_eq!(carried.category(), Category::Malformed);
    assert_eq!(SampleError::presentation_time_overflow(5).track_id(), Some(5));
    assert_eq!(SampleError::fragment_not_representable().kind(), SampleErrorKind::FragmentNotRepresentable);
}

#[test]
fn display_of_a_failure_of_the_samples_states_the_reason() {
    assert_eq!(SampleError::decode_time_overflow(1).message(), "decode time of track 1 runs past what 64 bits carry");
    assert_eq!(SampleError::data_offset_overflow(1).message(), "data offset of track 1 runs past what 64 bits carry");
    assert_eq!(SampleError::unknown_track_id(3).message(), "movie declares no track 3");
    assert_eq!(SampleError::unknown_sample_description_index(2, 7).message(), "track 2 has no stsd entry 7");
    assert_eq!(SampleError::missing_movie_extends().message(), "the movie carries no mvex");
    assert_eq!(SampleError::unknown_data_reference_index(2, 3).message(), "track 2 has no dref entry 3");
    assert_eq!(SampleError::external_data_reference(2, 3).message(), "dref entry 3 of track 2 names an external file");
    assert_eq!(SampleError::sample_count_mismatch(2).message(), "sample tables of track 2 count different numbers of samples");
    assert_eq!(
        SampleError::first_chunk_out_of_range(2, 5).message(),
        "run of chunks of track 2 starts at chunk 5, out of the range open to it"
    );
    assert_eq!(
        SampleError::sync_sample_out_of_range(2, 5).message(),
        "sync sample 5 of track 2 is listed out of order or past its samples"
    );
    assert_eq!(
        SampleError::sample_size_limit_exceeded(1, 32, 16).message(),
        "track 1 declares a sample of 32 bytes, past the 16-byte limit"
    );
    assert_eq!(SampleError::unfinished_sample(2, 1_024, 512).message(), "sample of track 2 takes 1024 bytes, and 512 arrived");
    assert_eq!(SampleError::already_finished().message(), "samples were declared over and take nothing more");
    assert_eq!(SampleError::no_fragment_open().message(), "no fragment is open to carry a sample or be closed");
    assert_eq!(SampleError::fragment_still_open().message(), "fragment is still open");
    assert_eq!(
        SampleError::sample_size_out_of_range(1, 1 << 40).message(),
        "track 1 states a sample of 1099511627776 bytes, past the 4294967295 a trun row or an stsz entry carries"
    );
    assert_eq!(
        SampleError::data_offset_out_of_range(1, 1 << 40).message(),
        "sample data of track 1 lies 1099511627776 bytes into the fragment, past the 2147483647 a trun carries"
    );
    assert_eq!(
        SampleError::composition_time_offset_out_of_range(1, 1 << 40).message(),
        "track 1 states a composition time offset of 1099511627776, which neither version of a trun writes"
    );
    assert_eq!(
        SampleError::decode_time_mismatch(1, 512, 1_024).message(),
        "track 1 states decode time 512 where the samples before it reach 1024"
    );
    assert_eq!(
        SampleError::backward_decode_time(1, 512, 1_024).message(),
        "track 1 goes back to decode time 512 after reaching 1024"
    );
    assert_eq!(
        SampleError::sample_description_index_mismatch(1, 2, 1).message(),
        "track 1 describes a sample by stsd entry 2 in a fragment or a chunk describing it by 1"
    );
    assert_eq!(SampleError::no_chunk_open().message(), "no chunk is open to carry a sample");
    assert_eq!(SampleError::track_id_mismatch(2, 1).message(), "sample of track 2 handed over to a chunk of track 1");
    assert_eq!(
        SampleError::unsupported_composition_time_offset(1, -8).message(),
        "track 1 states a composition time offset of -8, which no sample table written here carries"
    );
    assert_eq!(
        SampleError::unsupported_sample_flags(1, 0x0200_0000).message(),
        "track 1 states sample flags 0x02000000, which no sample table written here carries"
    );
}

#[test]
fn report_display_of_a_failure_of_one_box_reads_as_that_failure() {
    let box_error = BoxError::MissingMandatoryBox { box_type: u32::from_be_bytes(*b"mvex") };

    assert_eq!(SampleError::Box(box_error).message(), box_error.message());
    assert_eq!(box_error.message(), "mvex box is missing");
}

#[test]
fn a_box_type_that_does_not_print_is_written_as_escapes() {
    let box_error = BoxError::DuplicateBox { box_type: 0x6d00_7f41 };

    assert_eq!(box_error.message(), "m\\x00\\x7fA box occurs more than once");
    assert_eq!(SampleError::composition_time_offset_out_of_range(3, i64::MIN).message(),
        "track 3 states a composition time offset of -9223372036854775808, which neither version of a trun writes");
}

#[test]
fn debug_names_the_values_a_kind_carries_and_leaves_out_the_rest() {
    assert_eq!(
        SampleError::decode_time_overflow(1).debug_text(),
        "Error { kind: DecodeTimeOverflow, category: Malformed, track_id: 1 }"
    );
    assert_eq!(SampleError::missing_movie_extends().debug_text(), "Error { kind: MissingMovieExtends, category: Malformed }");
    assert_eq!(
        SampleError::sample_size_limit_exceeded(1, 32, 16).debug_text(),
        "Error { kind: SampleSizeLimitExceeded, category: Unsupported, track_id: 1, needed_bytes: 32, available_bytes: 16 }"
    );
    assert_eq!(
        SampleError::external_data_reference(1, 2).debug_text(),
        "Error { kind: ExternalDataReference, category: Unsupported, track_id: 1, data_reference_index: 2 }"
    );
    assert_eq!(
        SampleError::first_chunk_out_of_range(1, 5).debug_text(),
        "Error { kind: FirstChunkOutOfRange, category: Malformed, track_id: 1, first_chunk: 5 }"
    );
    assert_eq!(
        SampleError::sync_sample_out_of_range(1, 5).debug_text(),
        "Error { kind: SyncSampleOutOfRange, category: Malformed, track_id: 1, sample_number: 5 }"
    );
    assert_eq!(
        SampleError::backward_decode_time(1, 512, 1_024).debug_text(),
        "Error { kind: BackwardDecodeTime, category: Malformed, track_id: 1, stated_decode_time: 512, reached_decode_time: 1024 }"
    );
    assert_eq!(
        SampleError::data_offset_out_of_range(1, 1 << 40).debug_text(),
        "Error { kind: DataOffsetOutOfRange, category: Unsupported, track_id: 1, data_offset: 1099511627776 }"
    );
    assert_eq!(
        SampleError::composition_time_offset_out_of_range(1, -(1 << 40)).debug_text(),
        "Error { kind: CompositionTimeOffsetOutOfRange, category: Unsupported, track_id: 1, composition_time_offset: -1099511627776 }"
    );
    assert_eq!(
        SampleError::sample_description_index_mismatch(1, 2, 1).debug_text(),
        "Error { kind: SampleDescriptionIndexMismatch, category: Malformed, track_id: 1, sample_description_index: 2, established_sample_description_index: 1 }"
    );
    assert_eq!(
        SampleError::track_id_mismatch(2, 1).debug_text(),
        "Error { kind: TrackIdMismatch, category: Malformed, track_id: 2, established_track_id: 1 }"
    );
    assert_eq!(
        SampleError::unsupported_sample_flags(1, 0x0200_0000).debug_text(),
        "Error { kind: UnsupportedSampleFlags, category: Unsupported, track_id: 1, sample_flags: 33554432 }"
    );
}

#[test]
fn debug_of_a_failure_of_one_box_carries_that_failure_field_by_field() {
    let failure = SampleError::Box(BoxError::TruncatedPayload { needed: 12, available: 7 });

    assert_eq!(
        failure.debug_text(),
        "Error { kind: Box(TruncatedPayload), category: Malformed, box_error: TruncatedPayload { needed: 12, available: 7 } }"
    );
}
