use isobmff_media::bytes::{BoxError, BoxErrorKind, Category, FieldReader};
use isobmff_media::mp4::descriptor::{DescriptorTag, RawDescriptor};
use isobmff_media::mp4::error::{Error, ErrorKind};
use isobmff_media::mp4::es_descriptor::{DecoderConfigDescriptor, DecoderSpecificInfo, ESDescriptor, SLConfigDescriptor};
use isobmff_media::mp4::esds::ESDBox;

fn encoded(descriptor: &RawDescriptor) -> Vec<u8> {
    let mut buffer = Vec::new();
    descriptor.encode(&mut buffer).unwrap();
    assert_eq!(buffer.len() as u64, descriptor.encoded_len());
    buffer
}

fn encoded_es(descriptor: &ESDescriptor) -> Vec<u8> {
    let mut buffer = Vec::new();
    descriptor.encode(&mut buffer).unwrap();
    assert_eq!(buffer.len() as u64, descriptor.encoded_len());
    buffer
}

/// The descriptor of an AAC-LC stereo stream at 48 kHz
fn aac_descriptor() -> ESDescriptor {
    ESDescriptor::for_mp4_file(
        DecoderConfigDescriptor::new(
            DecoderConfigDescriptor::OBJECT_TYPE_AUDIO_ISO_14496_3,
            DecoderConfigDescriptor::STREAM_TYPE_AUDIO,
            6144,
            128_000,
            128_000,
            Some(DecoderSpecificInfo::new(vec![0x11, 0x90]).unwrap()),
        )
        .unwrap(),
    )
}

/// The bytes of [`aac_descriptor`], as the spec lays them out
fn aac_descriptor_bytes() -> Vec<u8> {
    vec![
        0x03, 0x19, 0x00, 0x00, 0x00, // ES_Descriptor: ES_ID 0, no flags
        0x04, 0x11, 0x40, 0x15, 0x00, 0x18, 0x00, // DecoderConfig: AAC, audio, 6144
        0x00, 0x01, 0xf4, 0x00, 0x00, 0x01, 0xf4, 0x00, // 128000 / 128000
        0x05, 0x02, 0x11, 0x90, // DecoderSpecificInfo
        0x06, 0x01, 0x02, // SLConfig predefined 2
    ]
}

#[test]
fn descriptor_a_descriptor_reads_back_as_the_value_that_wrote_it() {
    let descriptor = RawDescriptor::new(DescriptorTag::new(0x09), vec![1, 2, 3]).unwrap();

    let bytes = encoded(&descriptor);

    assert_eq!(bytes, [0x09, 0x03, 1, 2, 3]);
    assert_eq!(RawDescriptor::decode(&mut FieldReader::new(&bytes)).unwrap(), descriptor);
}

#[test]
fn a_body_past_127_bytes_takes_a_size_of_two_bytes() {
    let descriptor = RawDescriptor::new(DescriptorTag::new(0x09), vec![0xab; 128]).unwrap();

    let bytes = encoded(&descriptor);

    assert_eq!(bytes.get(..3), Some([0x09, 0x81, 0x00].as_slice()));
    assert_eq!(RawDescriptor::decode(&mut FieldReader::new(&bytes)).unwrap(), descriptor);
}

#[test]
fn a_size_written_in_more_bytes_than_it_needs_still_reads() {
    let bytes = [0x09, 0x80, 0x80, 0x80, 0x03, 1, 2, 3];

    assert_eq!(
        RawDescriptor::decode(&mut FieldReader::new(&bytes)).unwrap(),
        RawDescriptor::new(DescriptorTag::new(0x09), vec![1, 2, 3]).unwrap()
    );
}

#[test]
fn a_size_running_past_four_bytes_is_rejected() {
    let bytes = [0x09, 0x80, 0x80, 0x80, 0x83, 1, 2, 3];

    assert_eq!(
        RawDescriptor::decode(&mut FieldReader::new(&bytes)),
        Err(Error::expandable_size_too_long(DescriptorTag::new(0x09)))
    );
}

#[test]
fn a_body_the_payload_cuts_short_is_rejected_as_truncated() {
    assert_eq!(
        RawDescriptor::decode(&mut FieldReader::new(&[0x09, 0x03, 1])),
        Err(Error::from_box(BoxError::TruncatedPayload { needed: 5, available: 3 }))
    );
}

#[test]
fn a_descriptor_for_an_mp4_file_is_laid_out_as_the_spec_states_it() {
    assert_eq!(encoded_es(&aac_descriptor()), aac_descriptor_bytes());
}

#[test]
fn es_descriptor_a_descriptor_reads_back_as_the_value_that_wrote_it() {
    let bytes = encoded_es(&aac_descriptor());

    assert_eq!(ESDescriptor::decode(&mut FieldReader::new(&bytes)).unwrap(), aac_descriptor());
}

#[test]
fn sizes_written_in_four_bytes_read_as_the_same_descriptor() {
    let bytes = [
        0x03, 0x80, 0x80, 0x80, 0x22, 0x00, 0x00, 0x00, //
        0x04, 0x80, 0x80, 0x80, 0x14, 0x40, 0x15, 0x00, 0x18, 0x00, //
        0x00, 0x01, 0xf4, 0x00, 0x00, 0x01, 0xf4, 0x00, //
        0x05, 0x80, 0x80, 0x80, 0x02, 0x11, 0x90, //
        0x06, 0x80, 0x80, 0x80, 0x01, 0x02,
    ];

    assert_eq!(ESDescriptor::decode(&mut FieldReader::new(&bytes)).unwrap(), aac_descriptor());
}

#[test]
fn the_optional_fields_of_the_flags_are_read_and_written_back() {
    let bytes = [
        0x03, 0x1b, 0x00, 0x07, 0xe0, 0x00, 0x08, 0x01, b'u', 0x00, 0x09, //
        0x04, 0x0d, 0x40, 0x15, 0x00, 0x18, 0x00, 0, 0, 0, 0, 0, 0, 0, 0, //
        0x06, 0x01, 0x02,
    ];

    let descriptor = ESDescriptor::decode(&mut FieldReader::new(&bytes)).unwrap();

    assert_eq!(descriptor.depends_on_es_id(), Some(8));
    assert_eq!(descriptor.url(), Some(b"u".as_slice()));
    assert_eq!(descriptor.ocr_es_id(), Some(9));
    assert_eq!(descriptor.stream_priority(), 0);
    assert_eq!(encoded_es(&descriptor), bytes);
}

#[test]
fn a_descriptor_no_field_claims_is_kept_and_written_back() {
    let mut bytes = aac_descriptor_bytes();
    *bytes.get_mut(1).unwrap() += 3;
    bytes.extend_from_slice(&[0x09, 0x01, 0xaa]);

    let descriptor = ESDescriptor::decode(&mut FieldReader::new(&bytes)).unwrap();

    assert_eq!(
        descriptor.other_descriptors().first().map(RawDescriptor::tag),
        Some(DescriptorTag::new(0x09))
    );
    assert_eq!(encoded_es(&descriptor), bytes);
}

#[test]
fn a_descriptor_of_another_class_is_rejected_where_the_es_descriptor_goes() {
    assert_eq!(
        ESDescriptor::decode(&mut FieldReader::new(&[0x04, 0x00])),
        Err(Error::descriptor_tag_mismatch(DescriptorTag::es(), DescriptorTag::decoder_config()))
    );
}

#[test]
fn a_descriptor_without_a_decoder_config_is_rejected() {
    assert_eq!(
        ESDescriptor::decode(&mut FieldReader::new(&[0x03, 0x06, 0x00, 0x00, 0x00, 0x06, 0x01, 0x02])),
        Err(Error::missing_descriptor(DescriptorTag::decoder_config()))
    );
}

#[test]
fn a_decoder_config_held_twice_is_rejected() {
    let mut bytes = aac_descriptor_bytes();
    let decoder_config = bytes.get(5..24).unwrap().to_vec();
    *bytes.get_mut(1).unwrap() += 19;
    bytes.extend_from_slice(&decoder_config);

    assert_eq!(
        ESDescriptor::decode(&mut FieldReader::new(&bytes)),
        Err(Error::duplicate_descriptor(DescriptorTag::decoder_config()))
    );
}

#[test]
fn a_stream_type_past_six_bits_does_not_build() {
    assert_eq!(DecoderConfigDescriptor::new(0x40, 0x40, 0, 0, 0, None), None);
    assert_eq!(DecoderConfigDescriptor::new(0x40, 0x05, 1 << 24, 0, 0, None), None);
}

fn encoded_payload(esds: &ESDBox) -> Vec<u8> {
    let mut buffer = Vec::new();
    esds.encode_payload(&mut buffer).unwrap();
    assert_eq!(buffer.len() as u64, esds.payload_len());
    buffer
}

#[test]
fn a_box_reads_back_as_the_value_that_wrote_it() {
    let esds = ESDBox::new(aac_descriptor());

    let payload = encoded_payload(&esds);

    assert_eq!(payload, [vec![0; 4], aac_descriptor_bytes()].concat());
    assert_eq!(ESDBox::decode_payload(&payload).unwrap(), esds);
}

#[test]
fn a_version_the_box_does_not_read_is_rejected() {
    assert_eq!(
        ESDBox::decode_payload(b"\x01\0\0\0"),
        Err(Error::from_box(BoxError::UnsupportedVersion { version: 1 }))
    );
}

#[test]
fn bytes_after_the_descriptor_are_rejected() {
    let payload = [vec![0; 4], aac_descriptor_bytes(), vec![0]].concat();

    assert_eq!(
        ESDBox::decode_payload(&payload).unwrap_err().kind(),
        ErrorKind::Box(BoxErrorKind::TrailingPayload)
    );
}

#[test]
fn an_es_descriptor_for_an_mp4_file_takes_the_predefined_sl_config() {
    let descriptor = aac_descriptor();

    assert_eq!(descriptor.es_id(), 0);
    assert_eq!(descriptor.sl_config(), &SLConfigDescriptor::mp4());
    assert_eq!(descriptor.sl_config().predefined(), 2);
    assert!(descriptor.sl_config().remainder().is_empty());
    assert_eq!(descriptor.decoder_config().buffer_size_db(), 6144);
    assert_eq!(
        descriptor.decoder_config().decoder_specific_info().map(DecoderSpecificInfo::as_bytes),
        Some([0x11, 0x90].as_slice())
    );
}

#[test]
fn a_descriptor_failure_is_malformed_and_a_version_failure_unsupported() {
    assert_eq!(Error::missing_descriptor(DescriptorTag::decoder_config()).category(), Category::Malformed);
    assert_eq!(Error::from_box(BoxError::UnsupportedVersion { version: 1 }).category(), Category::Unsupported);
    assert_eq!(Error::missing_descriptor(DescriptorTag::sl_config()).tag(), Some(DescriptorTag::sl_config()));
    assert_eq!(
        Error::descriptor_tag_mismatch(DescriptorTag::es(), DescriptorTag::new(7)).expected_tag(),
        Some(DescriptorTag::es())
    );
}

#[test]
fn a_body_past_what_four_size_bytes_carry_does_not_build() {
    assert!(RawDescriptor::new(DescriptorTag::new(0x09), vec![0; 1 << 28]).is_none());
    assert_eq!(RawDescriptor::new(DescriptorTag::new(0x09), vec![0; 1]).unwrap().encoded_len(), 3);
}

#[test]
fn a_failure_of_the_descriptors_is_written_out_with_the_tags_in_hexadecimal() {
    assert_eq!(
        Error::DescriptorTagMismatch { expected: DescriptorTag(0x03), found: DescriptorTag(0x1f) }.message(),
        "descriptor with tag 0x1f found where tag 0x03 was expected"
    );
    assert_eq!(Error::MissingDescriptor { tag: DescriptorTag(0x06) }.message(), "descriptor with tag 0x06 is missing");
    assert_eq!(Error::DuplicateDescriptor { tag: DescriptorTag(0x04) }.message(), "descriptor with tag 0x04 occurs more than once");
    assert_eq!(
        Error::ExpandableSizeTooLong { tag: DescriptorTag(0xa0) }.message(),
        "descriptor with tag 0xa0 states its size in more than four bytes"
    );
    let box_error = BoxError::TruncatedPayload { needed: 12, available: 7 };
    assert_eq!(Error::Box(box_error).message(), "payload of 7 bytes ends before the 12 its fields reach");
}
