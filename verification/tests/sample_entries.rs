use isobmff_media::bytes::BoxError;
use isobmff_media::mp4::error::Error;
use isobmff_media::mp4::es_descriptor::{DecoderConfigDescriptor, DecoderSpecificInfo, ESDescriptor};
use isobmff_media::mp4::esds::{ESDBox, ESDS_TYPE, SRAT_TYPE};
use isobmff_media::mp4::mp4a::{AudioSampleEntry, MP4AudioSampleEntry};
use isobmff_media::mp4::mp4s::MpegSampleEntry;
use isobmff_media::mp4::mp4v::{MP4VisualSampleEntry, VisualSampleEntry};
use isobmff_media::sequence::children::{split_children, AnyBox};
use isobmff_media::sequence::header::{BoxHeader, BoxType};

fn aac_descriptor() -> ESDescriptor {
    ESDescriptor::for_mp4_file(
        DecoderConfigDescriptor::new(
            DecoderConfigDescriptor::OBJECT_TYPE_AUDIO_ISO_14496_3,
            DecoderConfigDescriptor::STREAM_TYPE_AUDIO,
            6144,
            128_000,
            128_000,
            Some(DecoderSpecificInfo::new(vec![0x11, 0x90]).unwrap()),
        )
        .unwrap(),
    )
}

/// The fields of an AAC stereo entry at 48 kHz, data reference 1
fn audio_fields() -> [u8; 28] {
    [
        0, 0, 0, 0, 0, 0, 0, 1, // reserved, data_reference_index
        0, 0, 0, 0, 0, 0, 0, 0, // reserved
        0, 2, 0, 16, // channelcount, samplesize
        0, 0, 0, 0, // pre_defined, reserved
        0xbb, 0x80, 0, 0, // samplerate 48000 in 16.16
    ]
}

/// The fields of a version 1 entry, its rate stated in a sampling rate box
fn audio_fields_v1() -> [u8; 28] {
    let mut fields = audio_fields();
    fields[9] = 1;
    fields[24] = 0;
    fields[25] = 1;
    fields
}

/// The fields of a 1920 by 1080 visual entry, data reference 1
fn visual_fields() -> [u8; 78] {
    let mut fields = [0; 78];
    fields[7] = 1;
    fields[24] = 0x07;
    fields[25] = 0x80;
    fields[26] = 0x04;
    fields[27] = 0x38;
    fields[28] = 0x00;
    fields[29] = 0x48;
    fields[32] = 0x00;
    fields[33] = 0x48;
    fields[41] = 1;
    fields[75] = 0x18;
    fields[76] = 0xff;
    fields[77] = 0xff;
    fields
}

/// The box lying as `bytes`, kept as it lies
fn kept(bytes: &[u8]) -> AnyBox {
    let (header, length) = BoxHeader::decode(bytes).unwrap();
    AnyBox { header, payload: bytes[length..].to_vec() }
}

/// A sampling rate box stating `rate`
fn sampling_rate_box(rate: u32) -> Vec<u8> {
    [b"\0\0\0\x10srat\0\0\0\0".to_vec(), rate.to_be_bytes().to_vec()].concat()
}

fn audio_entry() -> MP4AudioSampleEntry {
    MP4AudioSampleEntry::new(AudioSampleEntry::new(audio_fields()), ESDBox::new(aac_descriptor()), None)
}

fn encoded_audio(entry: &MP4AudioSampleEntry) -> Vec<u8> {
    let mut payload = Vec::new();
    entry.encode_payload(&mut payload).unwrap();
    assert_eq!(entry.payload_len(), payload.len() as u64);
    payload
}

fn mpeg_entry() -> MpegSampleEntry {
    MpegSampleEntry::new(1, ESDBox::new(aac_descriptor()))
}

fn encoded_mpeg(entry: &MpegSampleEntry) -> Vec<u8> {
    let mut payload = Vec::new();
    entry.encode_payload(&mut payload).unwrap();
    assert_eq!(entry.payload_len(), payload.len() as u64);
    payload
}

fn visual_entry() -> MP4VisualSampleEntry {
    MP4VisualSampleEntry::new(VisualSampleEntry::new(visual_fields()), ESDBox::new(aac_descriptor()))
}

fn encoded_visual(entry: &MP4VisualSampleEntry) -> Vec<u8> {
    let mut payload = Vec::new();
    entry.encode_payload(&mut payload).unwrap();
    assert_eq!(entry.payload_len(), payload.len() as u64);
    payload
}

fn encoded_esds() -> Vec<u8> {
    let mut esds = Vec::new();
    ESDBox::new(aac_descriptor()).encode_box(&mut esds).unwrap();
    esds
}

#[test]
fn mp4a_an_entry_reads_back_as_the_value_that_wrote_it() {
    let payload = encoded_audio(&audio_entry());

    assert_eq!(payload.get(..28), Some(audio_fields().as_slice()));
    assert_eq!(MP4AudioSampleEntry::decode_payload(&payload).unwrap(), audio_entry());
    assert_eq!(audio_entry().audio().data_reference_index(), 1);
}

#[test]
fn a_version_1_entry_carries_its_rate_in_a_sampling_rate_box() {
    let entry = MP4AudioSampleEntry::new(
        AudioSampleEntry::new(audio_fields_v1()),
        ESDBox::new(aac_descriptor()),
        Some(kept(&sampling_rate_box(96_000))),
    );

    let read_back = MP4AudioSampleEntry::decode_payload(&encoded_audio(&entry)).unwrap();

    assert_eq!(read_back, entry);
    assert_eq!(read_back.sampling_rate().map(|rate| rate.payload.clone()), Some(vec![0, 0, 0, 0, 0, 1, 0x77, 0]));
}

#[test]
fn mp4a_a_child_no_field_claims_is_kept_and_written_back() {
    let payload = [encoded_audio(&audio_entry()), b"\0\0\0\x08free".to_vec()].concat();

    let entry = MP4AudioSampleEntry::decode_payload(&payload).unwrap();

    assert_eq!(entry.other_boxes().first().map(AnyBox::box_type), Some(BoxType::compact(*b"free")));
    assert_eq!(encoded_audio(&entry), payload);
}

#[test]
fn mp4a_an_entry_holding_no_descriptor_box_is_rejected() {
    let payload = [vec![0; 28], b"\0\0\0\x08free".to_vec()].concat();

    assert_eq!(
        MP4AudioSampleEntry::decode_payload(&payload),
        Err(Error::Box(BoxError::MissingMandatoryBox { box_type: ESDS_TYPE }))
    );
}

#[test]
fn a_failure_inside_the_descriptor_box_is_reported_as_it_stands() {
    let payload = [vec![0; 28], b"\0\0\0\x0aesds\0\0".to_vec()].concat();

    assert_eq!(
        MP4AudioSampleEntry::decode_payload(&payload),
        Err(Error::Box(BoxError::TruncatedPayload { needed: 4, available: 2 }))
    );
}

#[test]
fn an_entry_holding_two_descriptor_boxes_is_rejected() {
    let payload = [encoded_audio(&audio_entry()), encoded_esds()].concat();

    assert_eq!(
        MP4AudioSampleEntry::decode_payload(&payload),
        Err(Error::Box(BoxError::DuplicateBox { box_type: ESDS_TYPE }))
    );
}

#[test]
fn an_entry_holding_two_sampling_rate_boxes_is_rejected() {
    let payload = [encoded_audio(&audio_entry()), sampling_rate_box(96_000), sampling_rate_box(48_000)].concat();

    assert_eq!(
        MP4AudioSampleEntry::decode_payload(&payload),
        Err(Error::Box(BoxError::DuplicateBox { box_type: SRAT_TYPE }))
    );
}

#[test]
fn a_payload_ending_before_the_audio_fields_is_rejected_as_truncated() {
    assert_eq!(
        MP4AudioSampleEntry::decode_payload(&[0; 27]),
        Err(Error::Box(BoxError::TruncatedPayload { needed: 28, available: 27 }))
    );
}

#[test]
fn a_child_running_past_the_payload_is_rejected_after_the_children_before_it() {
    let payload = [encoded_audio(&audio_entry()), b"\0\0\0\x10free".to_vec()].concat();

    assert_eq!(
        MP4AudioSampleEntry::decode_payload(&payload),
        Err(Error::Box(BoxError::TruncatedPayload { needed: 16, available: 8 }))
    );
}

#[test]
fn mp4s_an_entry_reads_back_as_the_value_that_wrote_it() {
    let payload = encoded_mpeg(&mpeg_entry());

    assert_eq!(payload.get(..8), Some(b"\0\0\0\0\0\0\0\x01".as_slice()));
    assert_eq!(MpegSampleEntry::decode_payload(&payload).unwrap(), mpeg_entry());
    assert_eq!(mpeg_entry().data_reference_index(), 1);
}

#[test]
fn mp4s_a_child_no_field_claims_is_kept_and_written_back() {
    let payload = [encoded_mpeg(&mpeg_entry()), b"\0\0\0\x08free".to_vec()].concat();

    let entry = MpegSampleEntry::decode_payload(&payload).unwrap();

    assert_eq!(entry.other_boxes().first().map(AnyBox::box_type), Some(BoxType::compact(*b"free")));
    assert_eq!(encoded_mpeg(&entry), payload);
}

#[test]
fn mp4s_an_entry_holding_no_descriptor_box_is_rejected() {
    assert_eq!(
        MpegSampleEntry::decode_payload(&[0; 8]),
        Err(Error::Box(BoxError::MissingMandatoryBox { box_type: ESDS_TYPE }))
    );
}

#[test]
fn a_payload_ending_before_the_fields_is_rejected_as_truncated() {
    assert_eq!(
        MpegSampleEntry::decode_payload(&[0; 7]),
        Err(Error::Box(BoxError::TruncatedPayload { needed: 8, available: 7 }))
    );
    assert_eq!(
        MpegSampleEntry::decode_payload(&[0; 5]),
        Err(Error::Box(BoxError::TruncatedPayload { needed: 6, available: 5 }))
    );
}

#[test]
fn mp4v_an_entry_reads_back_as_the_value_that_wrote_it() {
    let payload = encoded_visual(&visual_entry());

    assert_eq!(payload.get(..78), Some(visual_fields().as_slice()));
    assert_eq!(MP4VisualSampleEntry::decode_payload(&payload).unwrap(), visual_entry());
}

#[test]
fn mp4v_a_child_no_field_claims_is_kept_and_written_back() {
    let payload = [encoded_visual(&visual_entry()), b"\0\0\0\x08free".to_vec()].concat();

    let entry = MP4VisualSampleEntry::decode_payload(&payload).unwrap();

    assert_eq!(entry.other_boxes().first().map(AnyBox::box_type), Some(BoxType::compact(*b"free")));
    assert_eq!(encoded_visual(&entry), payload);
}

#[test]
fn mp4v_an_entry_holding_no_descriptor_box_is_rejected() {
    let payload = [visual_fields().to_vec(), b"\0\0\0\x08free".to_vec()].concat();

    assert_eq!(
        MP4VisualSampleEntry::decode_payload(&payload),
        Err(Error::Box(BoxError::MissingMandatoryBox { box_type: ESDS_TYPE }))
    );
}

#[test]
fn the_children_of_a_payload_are_split_out_in_turn() {
    let bytes = [b"\0\0\0\x0afreeAB".to_vec(), b"\0\0\0\x08skip".to_vec(), b"\0\0\0\0mdatXYZ".to_vec()].concat();

    let (children, failure) = split_children(&bytes);

    assert_eq!(failure, None);
    assert_eq!(children.len(), 3);
    assert_eq!(children[0].payload, b"AB".to_vec());
    assert_eq!(children[1].box_type(), BoxType::compact(*b"skip"));
    assert_eq!(children[2].payload, b"XYZ".to_vec());
    assert_eq!(children[2].encoded_len(), 11);
}

#[test]
fn the_children_before_one_that_does_not_frame_are_still_split_out() {
    let bytes = [b"\0\0\0\x08skip".to_vec(), b"\0\0\0".to_vec()].concat();

    let (children, failure) = split_children(&bytes);

    assert_eq!(children.len(), 1);
    assert_eq!(failure, Some(BoxError::TruncatedHeader { needed: 8, available: 3 }));
}
