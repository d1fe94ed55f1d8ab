use isobmff_media::structure::error::{four_cc, StructureError, StructureErrorKind, FTYP, MDAT, MOOF, MOOV, SIDX, STYP};
use isobmff_media::structure::fragmented::{FragmentedDisposition, FragmentedStructure};
use isobmff_media::structure::media_segment::{MediaSegmentDisposition, MediaSegmentStructure};

fn dispositions_of(fourccs: &[&[u8; 4]]) -> Result<Vec<FragmentedDisposition>, StructureError> {
    let mut structure = FragmentedStructure::new();
    fourccs.iter().map(|fourcc| structure.handle_box_type(four_cc(**fourcc))).collect()
}

fn segment_dispositions_of(fourccs: &[&[u8; 4]]) -> Result<Vec<MediaSegmentDisposition>, StructureError> {
    let mut structure = MediaSegmentStructure::new();
    fourccs.iter().map(|fourcc| structure.handle_box_type(four_cc(**fourcc))).collect()
}

fn dispositions_resuming_after(
    before: &[&[u8; 4]],
    fourccs: &[&[u8; 4]],
) -> Result<Vec<MediaSegmentDisposition>, StructureError> {
    let mut structure = MediaSegmentStructure::new();
    for fourcc in before {
        structure.handle_box_type(four_cc(**fourcc))?;
    }
    structure.resume();
    fourccs.iter().map(|fourcc| structure.handle_box_type(four_cc(**fourcc))).collect()
}

#[test]
fn the_four_characters_of_a_box_type_read_as_one_big_endian_number() {
    assert_eq!(four_cc(*b"ftyp"), FTYP);
    assert_eq!(four_cc(*b"moov"), MOOV);
    assert_eq!(four_cc(*b"moof"), MOOF);
    assert_eq!(four_cc(*b"mdat"), MDAT);
    assert_eq!(four_cc(*b"styp"), STYP);
    assert_eq!(four_cc(*b"sidx"), SIDX);
}

#[test]
fn each_structure_error_names_its_kind_and_box_type() {
    let error = StructureError::box_out_of_order(MDAT);
    assert_eq!(error.kind(), StructureErrorKind::BoxOutOfOrder);
    assert_eq!(error.box_type(), Some(MDAT));
    assert_eq!(StructureError::duplicate_box(MOOV).kind(), StructureErrorKind::DuplicateBox);
    assert_eq!(StructureError::missing_mandatory_box(MOOF).box_type(), Some(MOOF));
    assert_eq!(StructureError::already_finished().kind(), StructureErrorKind::AlreadyFinished);
    assert_eq!(StructureError::already_finished().box_type(), None);
}

#[test]
fn the_boxes_of_a_fragmented_movie_file_are_read_passed_on_or_passed_over_in_turn() {
    assert_eq!(
        dispositions_of(&[
            b"ftyp", b"free", b"moov", b"free", b"moof", b"mdat", b"moof", b"mdat", b"mdat", b"mfra",
        ]),
        Ok(vec![
            FragmentedDisposition::FileType,
            FragmentedDisposition::Skip,
            FragmentedDisposition::Movie,
            FragmentedDisposition::Skip,
            FragmentedDisposition::MovieFragment,
            FragmentedDisposition::MediaData,
            FragmentedDisposition::MovieFragment,
            FragmentedDisposition::MediaData,
            FragmentedDisposition::MediaData,
            FragmentedDisposition::Skip,
        ])
    );
}

#[test]
fn a_file_declaring_no_brands_is_read_all_the_same() {
    assert_eq!(
        dispositions_of(&[b"moov", b"moof", b"mdat"]),
        Ok(vec![
            FragmentedDisposition::Movie,
            FragmentedDisposition::MovieFragment,
            FragmentedDisposition::MediaData,
        ])
    );
}

#[test]
fn brands_declared_after_another_box_are_out_of_order() {
    let out_of_order = Err(StructureError::box_out_of_order(four_cc(*b"ftyp")));

    assert_eq!(dispositions_of(&[b"free", b"ftyp"]), out_of_order);
    assert_eq!(dispositions_of(&[b"moov", b"ftyp"]), out_of_order);
    assert_eq!(dispositions_of(&[b"ftyp", b"ftyp"]), out_of_order);
}

#[test]
fn a_second_movie_is_rejected() {
    assert_eq!(
        dispositions_of(&[b"ftyp", b"moov", b"moof", b"moov"]),
        Err(StructureError::duplicate_box(four_cc(*b"moov")))
    );
}

#[test]
fn a_fragment_arriving_before_the_movie_is_out_of_order() {
    assert_eq!(
        dispositions_of(&[b"ftyp", b"moof"]),
        Err(StructureError::box_out_of_order(four_cc(*b"moof")))
    );
}

#[test]
fn media_data_arriving_before_any_fragment_is_out_of_order() {
    assert_eq!(
        dispositions_of(&[b"ftyp", b"moov", b"mdat"]),
        Err(StructureError::box_out_of_order(four_cc(*b"mdat")))
    );
    assert_eq!(dispositions_of(&[b"mdat"]), Err(StructureError::box_out_of_order(four_cc(*b"mdat"))));
}

#[test]
fn a_file_declared_over_without_a_movie_is_rejected() {
    let mut structure = FragmentedStructure::new();

    structure.handle_box_type(four_cc(*b"ftyp")).unwrap();

    assert_eq!(structure.finish(), Err(StructureError::missing_mandatory_box(four_cc(*b"moov"))));
}

#[test]
fn a_file_of_the_movie_alone_is_a_fragmented_movie_file() {
    let mut structure = FragmentedStructure::new();

    structure.handle_box_type(four_cc(*b"moov")).unwrap();

    assert_eq!(structure.finish(), Ok(()));
}

#[test]
fn a_failed_structure_reports_the_same_failure_for_every_call_after_it() {
    let mut structure = FragmentedStructure::new();
    let failure = StructureError::box_out_of_order(four_cc(*b"moof"));

    assert_eq!(structure.handle_box_type(four_cc(*b"moof")), Err(failure));
    assert_eq!(structure.handle_box_type(four_cc(*b"moov")), Err(failure));
    assert_eq!(structure.finish(), Err(failure));
}

#[test]
fn a_header_handed_over_after_finishing_is_rejected() {
    let mut structure = FragmentedStructure::new();

    structure.handle_box_type(four_cc(*b"moov")).unwrap();
    structure.finish().unwrap();

    assert_eq!(structure.handle_box_type(four_cc(*b"moof")), Err(StructureError::already_finished()));
    assert_eq!(structure.finish(), Err(StructureError::already_finished()));
}

#[test]
fn a_resumed_segment_goes_on_from_a_fragment_or_an_index() {
    assert_eq!(
        dispositions_resuming_after(&[b"styp", b"moof", b"mdat"], &[b"moof", b"mdat"]),
        Ok(vec![MediaSegmentDisposition::MovieFragment, MediaSegmentDisposition::MediaData])
    );
    assert_eq!(
        dispositions_resuming_after(&[b"styp"], &[b"sidx", b"moof"]),
        Ok(vec![MediaSegmentDisposition::SegmentIndex, MediaSegmentDisposition::MovieFragment])
    );
}

#[test]
fn a_resumed_segment_starting_on_a_box_no_index_points_at_is_out_of_order() {
    assert_eq!(
        dispositions_resuming_after(&[b"styp", b"moof"], &[b"mdat"]),
        Err(StructureError::box_out_of_order(four_cc(*b"mdat")))
    );
}

#[test]
fn a_segment_declared_over_resumes_and_is_declared_over_again() {
    let mut structure = MediaSegmentStructure::new();
    structure.handle_box_type(four_cc(*b"moof")).unwrap();
    structure.finish().unwrap();

    structure.resume();

    assert_eq!(structure.handle_box_type(four_cc(*b"moof")), Ok(MediaSegmentDisposition::MovieFragment));
    assert_eq!(structure.finish(), Ok(()));
}

#[test]
fn the_boxes_of_a_media_segment_are_read_passed_on_or_passed_over_in_turn() {
    assert_eq!(
        segment_dispositions_of(&[
            b"styp", b"sidx", b"moof", b"mdat", b"moov", b"moof", b"mdat", b"mdat", b"mfra",
        ]),
        Ok(vec![
            MediaSegmentDisposition::SegmentType,
            MediaSegmentDisposition::SegmentIndex,
            MediaSegmentDisposition::MovieFragment,
            MediaSegmentDisposition::MediaData,
            MediaSegmentDisposition::Skip,
            MediaSegmentDisposition::MovieFragment,
            MediaSegmentDisposition::MediaData,
            MediaSegmentDisposition::MediaData,
            MediaSegmentDisposition::Skip,
        ])
    );
}

#[test]
fn structure_a_segment_declaring_no_brands_is_read_all_the_same() {
    assert_eq!(
        segment_dispositions_of(&[b"moof", b"mdat"]),
        Ok(vec![MediaSegmentDisposition::MovieFragment, MediaSegmentDisposition::MediaData])
    );
}

#[test]
fn structure_brands_declared_after_another_box_are_out_of_order() {
    let out_of_order = Err(StructureError::box_out_of_order(four_cc(*b"styp")));

    assert_eq!(segment_dispositions_of(&[b"free", b"styp"]), out_of_order);
    assert_eq!(segment_dispositions_of(&[b"moof", b"styp"]), out_of_order);
    assert_eq!(segment_dispositions_of(&[b"styp", b"styp"]), out_of_order);
}

#[test]
fn structure_media_data_arriving_before_any_fragment_is_out_of_order() {
    assert_eq!(
        segment_dispositions_of(&[b"styp", b"mdat"]),
        Err(StructureError::box_out_of_order(four_cc(*b"mdat")))
    );
    assert_eq!(segment_dispositions_of(&[b"mdat"]), Err(StructureError::box_out_of_order(four_cc(*b"mdat"))));
}

#[test]
fn structure_a_segment_declared_over_without_a_fragment_is_rejected() {
    let mut structure = MediaSegmentStructure::new();

    structure.handle_box_type(four_cc(*b"styp")).unwrap();

    assert_eq!(structure.finish(), Err(StructureError::missing_mandatory_box(four_cc(*b"moof"))));
}

#[test]
fn a_segment_of_a_fragment_alone_is_a_media_segment() {
    let mut structure = MediaSegmentStructure::new();

    structure.handle_box_type(four_cc(*b"moof")).unwrap();

    assert_eq!(structure.finish(), Ok(()));
}

#[test]
fn structure_a_failed_structure_reports_the_same_failure_for_every_call_after_it() {
    let mut structure = MediaSegmentStructure::new();
    let failure = StructureError::box_out_of_order(four_cc(*b"mdat"));

    assert_eq!(structure.handle_box_type(four_cc(*b"mdat")), Err(failure));
    assert_eq!(structure.handle_box_type(four_cc(*b"moof")), Err(failure));
    assert_eq!(structure.finish(), Err(failure));
}

#[test]
fn structure_a_header_handed_over_after_finishing_is_rejected() {
    let mut structure = MediaSegmentStructure::new();

    structure.handle_box_type(four_cc(*b"moof")).unwrap();
    structure.finish().unwrap();

    assert_eq!(structure.handle_box_type(four_cc(*b"moof")), Err(StructureError::already_finished()));
    assert_eq!(structure.finish(), Err(StructureError::already_finished()));
}

#[test]
fn a_failure_of_the_order_of_the_boxes_names_the_box_by_its_characters() {
    assert_eq!(StructureError::BoxOutOfOrder { box_type: MDAT }.message(), "mdat box arrived where the file may not hold it");
    assert_eq!(StructureError::DuplicateBox { box_type: MOOV }.message(), "moov box arrived a second time");
    assert_eq!(StructureError::MissingMandatoryBox { box_type: MOOF }.message(), "file was declared over without a moof box");
    assert_eq!(StructureError::AlreadyFinished.message(), "file was declared over and takes nothing more");
}
