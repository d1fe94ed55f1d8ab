use std::ops::Range;

use isobmff_media::bytes::{BoxError, BoxErrorKind, Category};
use isobmff_media::sequence::error::{Error, ErrorKind};
use isobmff_media::sequence::event::{BoxEvent, EventBytes};
use isobmff_media::sequence::header::{BoxHeader, BoxSize, BoxType, Uuid, MAX_ENCODED_LEN};
use isobmff_media::sequence::reader::BoxReader;
use isobmff_media::sequence::writer::BoxWriter;

/// Every form a header takes: the two size fields against the two box types
const EVERY_HEADER_FORM: [&[u8]; 6] = [
    &[0x00, 0x00, 0x00, 0x10, b'f', b'r', b'e', b'e'],
    &[
        0x00, 0x00, 0x00, 0x01, b'm', b'd', b'a', b't', 0x00, 0x00, 0x00, 0x01, 0x00, 0x00, 0x00, 0x20,
    ],
    &[
        0x00, 0x00, 0x00, 0x20, b'u', b'u', b'i', b'd', 0x01, 0x23, 0x45, 0x67, 0x89, 0xab, 0xcd, 0xef, 0xfe, 0xdc,
        0xba, 0x98, 0x76, 0x54, 0x32, 0x10,
    ],
    &[
        0x00, 0x00, 0x00, 0x01, b'u', b'u', b'i', b'd', 0x00, 0x00, 0x00, 0x01, 0x00, 0x00, 0x00, 0x20, 0x01, 0x23,
        0x45, 0x67, 0x89, 0xab, 0xcd, 0xef, 0xfe, 0xdc, 0xba, 0x98, 0x76, 0x54, 0x32, 0x10,
    ],
    &[0x00, 0x00, 0x00, 0x00, b'm', b'd', b'a', b't'],
    &[
        0x00, 0x00, 0x00, 0x00, b'u', b'u', b'i', b'd', 0x01, 0x23, 0x45, 0x67, 0x89, 0xab, 0xcd, 0xef, 0xfe, 0xdc,
        0xba, 0x98, 0x76, 0x54, 0x32, 0x10,
    ],
];

const USER_TYPE: Uuid = Uuid([
    0x01, 0x23, 0x45, 0x67, 0x89, 0xab, 0xcd, 0xef, 0xfe, 0xdc, 0xba, 0x98, 0x76, 0x54, 0x32, 0x10,
]);

/// Header of a box declaring `total` in the compact `size` field
fn compact_header(box_type: [u8; 4], total: u32) -> BoxHeader {
    BoxHeader::new(BoxType::compact(box_type), BoxSize::Compact(total)).unwrap()
}

/// Header of a box running to the end of the file
fn unbounded_header(box_type: [u8; 4]) -> BoxHeader {
    BoxHeader::new(BoxType::compact(box_type), BoxSize::ToEndOfFile).unwrap()
}

/// The bytes `header` is written as
fn encoded(header: &BoxHeader) -> Vec<u8> {
    let mut bytes = Vec::new();
    header.encode(&mut bytes);
    bytes
}

/// The box `header` introduces, its header beginning `began_at` bytes into the file
fn started(header: BoxHeader, began_at: u64) -> (Range<u64>, BoxEvent) {
    let header_length = u64::try_from(header.encoded_len()).unwrap();
    (began_at..began_at + header_length, BoxEvent::Header(header))
}

/// The part of a payload that lay `began_at` bytes into the file
fn passed_on(payload: &[u8], began_at: u64) -> (Range<u64>, BoxEvent) {
    let length = u64::try_from(payload.len()).unwrap();
    (began_at..began_at + length, BoxEvent::Payload(Vec::from(payload)))
}

/// The end of a box, standing empty just past it
fn ended(ends_at: u64) -> (Range<u64>, BoxEvent) {
    (ends_at..ends_at, BoxEvent::End)
}

/// The next event the reader reports, with the bytes it was read from
fn polled(reader: &mut BoxReader) -> Option<(Range<u64>, BoxEvent)> {
    let event = reader.poll_event()?;
    Some((reader.event_extent().unwrap(), event))
}

/// Every event a reader reports for `input`, handed over `cut_length` bytes at a time
fn events_of(input: &[u8], cut_length: usize) -> Vec<(Range<u64>, BoxEvent)> {
    let mut reader = BoxReader::new();
    let mut events = Vec::new();

    for arriving in input.chunks(cut_length) {
        reader.handle_input(arriving).unwrap();
        while let Some(event) = polled(&mut reader) {
            events.push(event);
        }
    }
    reader.finish().unwrap();
    while let Some(event) = polled(&mut reader) {
        events.push(event);
    }

    events
}

/// Everything the writer has laid down, drained `buffer_length` bytes at a time
fn drained(writer: &mut BoxWriter, buffer_length: usize) -> Vec<u8> {
    let mut buffer = vec![0; buffer_length];
    let mut bytes = Vec::new();

    loop {
        let written = writer.poll_output(&mut buffer);
        if written == 0 {
            return bytes;
        }
        bytes.extend_from_slice(&buffer[..written]);
    }
}

/// The file a writer lays down for `events`, drained `buffer_length` bytes at a time
fn bytes_of(events: Vec<BoxEvent>, buffer_length: usize) -> Vec<u8> {
    let mut writer = BoxWriter::new();
    let mut bytes = Vec::new();

    for event in events {
        writer.handle_event(event).unwrap();
        bytes.extend(drained(&mut writer, buffer_length));
    }
    writer.finish().unwrap();
    bytes.extend(drained(&mut writer, buffer_length));

    bytes
}

/// The steps with the payload of each box fused back into one
fn payloads_fused(events: Vec<(Range<u64>, BoxEvent)>) -> Vec<(Range<u64>, BoxEvent)> {
    let mut fused: Vec<(Range<u64>, BoxEvent)> = Vec::new();

    for step in events {
        match (fused.last_mut(), step) {
            (Some((gathered_extent, BoxEvent::Payload(gathered))), (extent, BoxEvent::Payload(bytes))) => {
                gathered_extent.end = extent.end;
                gathered.extend_from_slice(&bytes);
            }
            (_, step) => fused.push(step),
        }
    }

    fused
}

/// A file of an `ftyp`, a container carried as it lies, a box of an extended type, and an `mdat` running to its end
fn file_running_to_its_end() -> Vec<u8> {
    let mut file = Vec::new();
    file.extend_from_slice(b"\0\0\0\x14ftypiso6\0\0\x02\0iso6");
    file.extend_from_slice(b"\0\0\0\x18moov\0\0\0\x10trak\0\0\0\x08tkhd");
    file.extend_from_slice(&[0x00, 0x00, 0x00, 0x1b, b'u', b'u', b'i', b'd']);
    file.extend_from_slice(&USER_TYPE.0);
    file.extend_from_slice(b"abc");
    file.extend_from_slice(&[0x00, 0x00, 0x00, 0x01, b'f', b'r', b'e', b'e', 0, 0, 0, 0, 0, 0, 0, 0x12, b'X', b'Y']);
    file.extend_from_slice(b"\0\0\0\0mdat");
    file.extend_from_slice(&[0x11; 64]);
    file
}

#[test]
fn a_header_of_any_form_is_read_however_the_input_was_cut() {
    for encoded in EVERY_HEADER_FORM {
        let (header, _length) = BoxHeader::decode(encoded).unwrap();

        for cut_length in 1..=encoded.len() {
            let mut reader = BoxReader::new();

            for arriving in encoded.chunks(cut_length) {
                reader.handle_input(arriving).unwrap();
            }

            assert_eq!(reader.poll_event(), Some(BoxEvent::Header(header)), "{encoded:02x?} cut every {cut_length}");
            assert_eq!(reader.event_extent(), Some(0..encoded.len() as u64));
        }
    }
}

#[test]
fn every_header_form_is_written_back_as_it_was_read() {
    for encoded_form in EVERY_HEADER_FORM {
        let (header, length) = BoxHeader::decode(encoded_form).unwrap();

        assert_eq!(length, encoded_form.len());
        assert_eq!(header.encoded_len(), encoded_form.len());
        assert_eq!(encoded(&header), encoded_form.to_vec());
    }
}

#[test]
fn a_header_names_its_type_size_and_payload() {
    let (header, _length) = BoxHeader::decode(EVERY_HEADER_FORM[3]).unwrap();

    assert_eq!(header.box_type(), BoxType::Extended(USER_TYPE));
    assert_eq!(header.size(), BoxSize::Extended(0x1_0000_0020));
    assert_eq!(header.payload_len(), Some(0x1_0000_0000));
    assert_eq!(compact_header(*b"free", 16).payload_len(), Some(8));
    assert_eq!(unbounded_header(*b"mdat").payload_len(), None);
    assert_eq!(BoxSize::ToEndOfFile.total_bytes(), None);
    assert_eq!(BoxSize::Compact(16).total_bytes(), Some(16));
    assert_eq!(BoxType::compact(*b"moov"), BoxType::Compact(0x6d6f_6f76));
    assert!(MAX_ENCODED_LEN >= EVERY_HEADER_FORM[3].len());
}

#[test]
fn a_header_cut_short_names_the_length_it_reaches() {
    assert_eq!(
        BoxHeader::decode(b"\0\0\0"),
        Err(BoxError::TruncatedHeader { needed: 8, available: 3 })
    );
    assert_eq!(
        BoxHeader::decode(&EVERY_HEADER_FORM[1][..9]),
        Err(BoxError::TruncatedHeader { needed: 16, available: 9 })
    );
    assert_eq!(
        BoxHeader::decode(&EVERY_HEADER_FORM[3][..12]),
        Err(BoxError::TruncatedHeader { needed: 32, available: 12 })
    );
}

#[test]
fn a_total_leaving_no_room_for_the_header_is_refused() {
    assert_eq!(
        BoxHeader::decode(b"\0\0\0\x04free"),
        Err(BoxError::SizeBelowHeader { header: 8, declared: 4 })
    );
    assert_eq!(
        BoxHeader::new(BoxType::Extended(USER_TYPE), BoxSize::Compact(20)),
        Err(BoxError::SizeBelowHeader { header: 24, declared: 20 })
    );
    assert_eq!(
        BoxHeader::new(BoxType::compact(*b"mdat"), BoxSize::Extended(12)),
        Err(BoxError::SizeBelowHeader { header: 16, declared: 12 })
    );
}

#[test]
fn the_extent_reported_is_the_one_of_the_event_taken_last() {
    let mut reader = BoxReader::new();

    reader.handle_input(b"\0\0\0\x0cfreeAAAA").unwrap();

    assert_eq!(reader.event_extent(), None);
    assert_eq!(reader.poll_event(), Some(BoxEvent::Header(compact_header(*b"free", 12))));
    assert_eq!(reader.event_extent(), Some(0..8));
    assert_eq!(reader.poll_event(), Some(BoxEvent::Payload(Vec::from(*b"AAAA"))));
    assert_eq!(reader.event_extent(), Some(8..12));
    assert_eq!(reader.poll_event(), Some(BoxEvent::End));
    assert_eq!(reader.poll_event(), None);
    assert_eq!(reader.event_extent(), Some(12..12));
}

#[test]
fn a_box_arriving_whole_is_reported_as_a_start_a_payload_and_an_end() {
    assert_eq!(
        events_of(b"\0\0\0\x0cfreeAAAA", 12),
        vec![started(compact_header(*b"free", 12), 0), passed_on(b"AAAA", 8), ended(12)]
    );
}

#[test]
fn a_box_with_no_payload_is_reported_as_a_start_and_an_end() {
    assert_eq!(events_of(b"\0\0\0\x08skip", 8), vec![started(compact_header(*b"skip", 8), 0), ended(8)]);
}

#[test]
fn a_payload_is_passed_on_as_the_input_cut_it() {
    assert_eq!(
        events_of(b"\0\0\0\x0cfreeAAAA", 5),
        vec![
            started(compact_header(*b"free", 12), 0),
            passed_on(b"AA", 8),
            passed_on(b"AA", 10),
            ended(12),
        ]
    );
}

#[test]
fn boxes_laid_end_to_end_are_reported_over_the_extent_each_one_covers() {
    assert_eq!(
        events_of(b"\0\0\0\x0cfreeAAAA\0\0\0\x08skip", 5),
        vec![
            started(compact_header(*b"free", 12), 0),
            passed_on(b"AA", 8),
            passed_on(b"AA", 10),
            ended(12),
            started(compact_header(*b"skip", 8), 12),
            ended(20),
        ]
    );
}

#[test]
fn a_box_behind_a_long_header_is_reported_from_where_that_header_begins() {
    let input = [
        0x00, 0x00, 0x00, 0x01, b'u', b'u', b'i', b'd', 0x00, 0x00, 0x00, 0x00, 0x00, 0x00, 0x00, 0x21, 0x01, 0x23,
        0x45, 0x67, 0x89, 0xab, 0xcd, 0xef, 0xfe, 0xdc, 0xba, 0x98, 0x76, 0x54, 0x32, 0x10, b'!', 0x00, 0x00, 0x00,
        0x08, b's', b'k', b'i', b'p',
    ];
    let header = BoxHeader::new(BoxType::Extended(USER_TYPE), BoxSize::Extended(33)).unwrap();

    assert_eq!(
        events_of(&input, 3),
        vec![
            started(header, 0),
            passed_on(b"!", 32),
            ended(33),
            started(compact_header(*b"skip", 8), 33),
            ended(41),
        ]
    );
}

#[test]
fn a_box_running_to_the_end_of_the_file_is_closed_by_finishing() {
    assert_eq!(
        events_of(b"\0\0\0\0mdatPAYLOAD", 4),
        vec![
            started(unbounded_header(*b"mdat"), 0),
            passed_on(b"PAYL", 8),
            passed_on(b"OAD", 12),
            ended(15),
        ]
    );
}

#[test]
fn empty_input_completes_nothing_and_leaves_the_reader_where_it_was() {
    let mut reader = BoxReader::new();

    reader.handle_input(b"\0\0\0\x08fr").unwrap();
    reader.handle_input(b"").unwrap();

    assert_eq!(reader.poll_event(), None);

    reader.handle_input(b"ee").unwrap();

    assert_eq!(polled(&mut reader), Some(started(compact_header(*b"free", 8), 0)));
}

#[test]
fn empty_input_arriving_inside_a_payload_asks_for_more() {
    let mut reader = BoxReader::new();

    reader.handle_input(b"\0\0\0\x0cfreeAA").unwrap();
    while reader.poll_event().is_some() {}
    reader.handle_input(b"").unwrap();

    assert_eq!(reader.poll_event(), None);

    reader.handle_input(b"AA").unwrap();

    assert_eq!(polled(&mut reader), Some(passed_on(b"AA", 10)));
}

#[test]
fn a_file_stopping_inside_a_header_is_rejected_as_unfinished() {
    let mut reader = BoxReader::new();

    reader.handle_input(&[0x00, 0x00, 0x00, 0x01, b'm', b'd', b'a', b't', 0x00]).unwrap();

    assert_eq!(reader.finish(), Err(Error::unfinished_header(16, 9)));
}

#[test]
fn a_file_stopping_inside_a_box_is_rejected_as_unfinished() {
    let mut reader = BoxReader::new();

    reader.handle_input(b"\0\0\0\x10freeAAAA").unwrap();

    assert_eq!(reader.finish(), Err(Error::unfinished_box(16, 12)));
}

#[test]
fn a_failed_reader_reports_the_same_failure_for_every_call_after_it() {
    let mut reader = BoxReader::new();
    let failure = Error::from(BoxError::SizeBelowHeader { header: 8, declared: 4 });

    assert_eq!(reader.handle_input(b"\0\0\0\x04free"), Err(failure));
    assert_eq!(reader.handle_input(b"\0\0\0\x08skip"), Err(failure));
    assert_eq!(reader.finish(), Err(failure));
}

#[test]
fn a_reader_that_failed_while_finishing_reports_that_failure_again() {
    let mut reader = BoxReader::new();
    let failure = Error::unfinished_box(16, 12);

    reader.handle_input(b"\0\0\0\x10freeAAAA").unwrap();

    assert_eq!(reader.finish(), Err(failure));
    assert_eq!(reader.handle_input(b"AAAA"), Err(failure));
    assert_eq!(reader.finish(), Err(failure));
}

#[test]
fn a_failed_reader_hands_over_the_events_it_had_already_made() {
    let mut reader = BoxReader::new();

    assert!(reader.handle_input(b"\0\0\0\x08free\0\0\0\x04free").is_err());

    assert_eq!(polled(&mut reader), Some(started(compact_header(*b"free", 8), 0)));
    assert_eq!(polled(&mut reader), Some(ended(8)));
    assert_eq!(polled(&mut reader), None);
}

#[test]
fn the_events_a_finished_file_had_made_are_still_taken_after_it() {
    let mut reader = BoxReader::new();

    reader.handle_input(b"\0\0\0\x08free").unwrap();
    reader.finish().unwrap();

    assert_eq!(polled(&mut reader), Some(started(compact_header(*b"free", 8), 0)));
    assert_eq!(polled(&mut reader), Some(ended(8)));
    assert_eq!(polled(&mut reader), None);
}

#[test]
fn input_handed_over_after_finishing_is_rejected() {
    let mut reader = BoxReader::new();

    reader.finish().unwrap();

    assert_eq!(reader.handle_input(b"\0\0\0\x08free"), Err(Error::already_finished()));
}

#[test]
fn reader_finishing_a_file_that_is_already_over_is_rejected() {
    let mut reader = BoxReader::new();

    reader.finish().unwrap();

    assert_eq!(reader.finish(), Err(Error::already_finished()));
}

#[test]
fn a_box_writes_the_header_and_the_payload_it_came_with() {
    let mut writer = BoxWriter::new();

    writer.handle_event(BoxEvent::Header(compact_header(*b"mdat", 16))).unwrap();
    writer.handle_event(BoxEvent::Payload(Vec::from(*b"PAYL"))).unwrap();
    writer.handle_event(BoxEvent::Payload(Vec::from(*b"OAD!"))).unwrap();
    writer.handle_event(BoxEvent::End).unwrap();
    writer.finish().unwrap();

    assert_eq!(drained(&mut writer, 64), *b"\0\0\0\x10mdatPAYLOAD!");
}

#[test]
fn a_buffer_with_no_room_takes_nothing_and_leaves_the_bytes_where_they_are() {
    let mut writer = BoxWriter::new();

    writer.handle_event(BoxEvent::Header(compact_header(*b"mdat", 12))).unwrap();
    writer.handle_event(BoxEvent::Payload(Vec::from(*b"PAYL"))).unwrap();

    assert_eq!(writer.poll_output(&mut []), 0);
    assert_eq!(drained(&mut writer, 64), *b"\0\0\0\x0cmdatPAYL");
}

#[test]
fn more_payload_than_the_box_declares_is_rejected() {
    let mut writer = BoxWriter::new();

    writer.handle_event(BoxEvent::Header(compact_header(*b"mdat", 12))).unwrap();

    assert_eq!(
        writer.handle_event(BoxEvent::Payload(vec![0x11; 5])),
        Err(Error::payload_past_declared(BoxType::compact(*b"mdat"), 4, 5))
    );
}

#[test]
fn a_box_closed_before_its_declared_total_is_rejected() {
    let mut writer = BoxWriter::new();

    writer.handle_event(BoxEvent::Header(compact_header(*b"mdat", 12))).unwrap();
    writer.handle_event(BoxEvent::Payload(Vec::from(*b"PA"))).unwrap();

    assert_eq!(writer.handle_event(BoxEvent::End), Err(Error::unfinished_box(12, 10)));
}

#[test]
fn a_payload_with_no_box_open_is_rejected() {
    let mut writer = BoxWriter::new();

    assert_eq!(writer.handle_event(BoxEvent::Payload(Vec::from(*b"PAYL"))), Err(Error::no_box_open()));
}

#[test]
fn an_end_with_no_box_open_is_rejected() {
    let mut writer = BoxWriter::new();

    assert_eq!(writer.handle_event(BoxEvent::End), Err(Error::no_box_open()));
}

#[test]
fn a_box_starting_while_the_one_before_it_is_open_is_rejected() {
    let mut writer = BoxWriter::new();

    writer.handle_event(BoxEvent::Header(compact_header(*b"mdat", 12))).unwrap();

    assert_eq!(
        writer.handle_event(BoxEvent::Header(compact_header(*b"free", 8))),
        Err(Error::box_still_open(BoxType::compact(*b"mdat")))
    );
}

#[test]
fn an_event_after_the_box_running_to_the_end_of_the_file_is_rejected() {
    let mut writer = BoxWriter::new();

    writer.handle_event(BoxEvent::Header(unbounded_header(*b"mdat"))).unwrap();
    writer.handle_event(BoxEvent::Payload(Vec::from(*b"PAYL"))).unwrap();
    writer.handle_event(BoxEvent::End).unwrap();

    assert_eq!(
        writer.handle_event(BoxEvent::Header(compact_header(*b"free", 8))),
        Err(Error::past_end_of_file())
    );
}

#[test]
fn a_box_running_to_the_end_of_the_file_ends_it_wherever_it_stands() {
    let mut writer = BoxWriter::new();

    writer.handle_event(BoxEvent::Header(unbounded_header(*b"mdat"))).unwrap();
    writer.handle_event(BoxEvent::Payload(Vec::from(*b"PAYL"))).unwrap();

    assert_eq!(writer.finish(), Ok(()));
    assert_eq!(drained(&mut writer, 64), *b"\0\0\0\0mdatPAYL");
}

#[test]
fn a_box_whose_declared_payload_is_all_there_ends_the_file_though_it_was_not_closed() {
    let mut writer = BoxWriter::new();

    writer.handle_event(BoxEvent::Header(compact_header(*b"mdat", 12))).unwrap();
    writer.handle_event(BoxEvent::Payload(Vec::from(*b"PAYL"))).unwrap();

    assert_eq!(writer.finish(), Ok(()));
    assert_eq!(drained(&mut writer, 64), *b"\0\0\0\x0cmdatPAYL");
}

#[test]
fn a_file_ending_inside_a_box_is_rejected_as_unfinished() {
    let mut writer = BoxWriter::new();

    writer.handle_event(BoxEvent::Header(compact_header(*b"mdat", 12))).unwrap();
    writer.handle_event(BoxEvent::Payload(Vec::from(*b"PA"))).unwrap();

    assert_eq!(writer.finish(), Err(Error::unfinished_box(12, 10)));
}

#[test]
fn a_failed_writer_reports_the_same_failure_for_every_call_after_it() {
    let mut writer = BoxWriter::new();
    let failure = Error::no_box_open();

    assert_eq!(writer.handle_event(BoxEvent::End), Err(failure));
    assert_eq!(writer.handle_event(BoxEvent::Header(compact_header(*b"free", 8))), Err(failure));
    assert_eq!(writer.finish(), Err(failure));
}

#[test]
fn a_writer_that_failed_while_finishing_reports_that_failure_again() {
    let mut writer = BoxWriter::new();
    let failure = Error::unfinished_box(12, 8);

    writer.handle_event(BoxEvent::Header(compact_header(*b"mdat", 12))).unwrap();

    assert_eq!(writer.finish(), Err(failure));
    assert_eq!(writer.handle_event(BoxEvent::Payload(Vec::from(*b"PAYL"))), Err(failure));
    assert_eq!(writer.finish(), Err(failure));
}

#[test]
fn a_failed_writer_hands_over_the_bytes_it_had_already_made() {
    let mut writer = BoxWriter::new();

    writer.handle_event(BoxEvent::Header(compact_header(*b"mdat", 12))).unwrap();
    writer.handle_event(BoxEvent::Payload(Vec::from(*b"PA"))).unwrap();

    assert!(writer.handle_event(BoxEvent::End).is_err());

    assert_eq!(drained(&mut writer, 64), *b"\0\0\0\x0cmdatPA");
}

#[test]
fn the_bytes_a_finished_file_had_made_are_still_taken_after_it() {
    let mut writer = BoxWriter::new();

    writer.handle_event(BoxEvent::Header(compact_header(*b"mdat", 12))).unwrap();
    writer.handle_event(BoxEvent::Payload(Vec::from(*b"PAYL"))).unwrap();
    writer.finish().unwrap();

    assert_eq!(drained(&mut writer, 64), *b"\0\0\0\x0cmdatPAYL");
}

#[test]
fn the_extent_reported_is_the_one_of_the_event_handed_over_last() {
    let mut writer = BoxWriter::new();

    assert_eq!(writer.event_extent(), None);

    writer.handle_event(BoxEvent::Header(compact_header(*b"free", 12))).unwrap();

    assert_eq!(writer.event_extent(), Some(0..8));

    writer.handle_event(BoxEvent::Payload(Vec::from(*b"AAAA"))).unwrap();

    assert_eq!(writer.event_extent(), Some(8..12));

    writer.handle_event(BoxEvent::End).unwrap();

    assert_eq!(writer.event_extent(), Some(12..12));
}

#[test]
fn the_extent_of_an_event_covers_the_bytes_it_made_though_the_ones_before_it_were_drained() {
    let mut writer = BoxWriter::new();

    writer.handle_event(BoxEvent::Header(compact_header(*b"mdat", 12))).unwrap();
    writer.handle_event(BoxEvent::Payload(Vec::from(*b"PAYL"))).unwrap();
    writer.handle_event(BoxEvent::End).unwrap();
    drained(&mut writer, 64);
    writer.handle_event(BoxEvent::Header(compact_header(*b"free", 8))).unwrap();

    assert_eq!(writer.event_extent(), Some(12..20));
}

#[test]
fn an_event_handed_over_after_finishing_is_rejected() {
    let mut writer = BoxWriter::new();

    writer.finish().unwrap();

    assert_eq!(
        writer.handle_event(BoxEvent::Header(compact_header(*b"free", 8))),
        Err(Error::already_finished())
    );
}

#[test]
fn writer_finishing_a_file_that_is_already_over_is_rejected() {
    let mut writer = BoxWriter::new();

    writer.finish().unwrap();

    assert_eq!(writer.finish(), Err(Error::already_finished()));
}

#[test]
fn a_file_is_written_back_from_its_events_however_the_input_was_cut() {
    let file = file_running_to_its_end();

    for cut_length in 1..=file.len() {
        let events = events_of(&file, cut_length).into_iter().map(|(_extent, event)| event).collect();

        assert_eq!(bytes_of(events, 7), file, "cut every {cut_length} bytes");
    }
}

#[test]
fn the_events_reported_do_not_turn_on_where_the_file_was_cut() {
    let file = file_running_to_its_end();
    let whole = payloads_fused(events_of(&file, file.len()));

    for cut_length in 1..=file.len() {
        assert_eq!(payloads_fused(events_of(&file, cut_length)), whole, "cut every {cut_length} bytes");
    }
}

#[test]
fn the_extent_of_a_box_begins_where_that_box_begins_in_the_file() {
    let file = file_running_to_its_end();
    let offsets: Vec<u64> = events_of(&file, 5)
        .into_iter()
        .filter(|(_extent, event)| matches!(event, BoxEvent::Header(_)))
        .map(|(extent, _event)| extent.start)
        .collect();

    assert_eq!(offsets, vec![0, 20, 44, 71, 89]);
}

#[test]
fn a_kind_falls_in_the_category_its_situation_asks_for() {
    assert_eq!(Error::unfinished_header(16, 9).category(), Category::Malformed);
    assert_eq!(Error::no_box_open().category(), Category::Usage);
    assert_eq!(
        Error::from(BoxError::TruncatedHeader { needed: 8, available: 4 }).category(),
        Category::Malformed
    );
    assert_eq!(Error::from(BoxError::UnsupportedVersion { version: 2 }).category(), Category::Unsupported);
}

#[test]
fn a_failure_carries_only_the_values_its_kind_names() {
    let error = Error::payload_past_declared(BoxType::compact(*b"mdat"), 4, 9);

    assert_eq!(error.kind(), ErrorKind::PayloadPastDeclared);
    assert_eq!(error.box_type(), Some(BoxType::compact(*b"mdat")));
    assert_eq!(error.needed_bytes(), Some(4));
    assert_eq!(error.available_bytes(), Some(9));
    assert_eq!(error.box_error(), None);
    assert_eq!(Error::past_end_of_file().box_type(), None);
    assert_eq!(Error::past_end_of_file().needed_bytes(), None);
    assert_eq!(Error::unfinished_box(16, 12).available_bytes(), Some(12));
    assert_eq!(Error::box_still_open(BoxType::compact(*b"moov")).kind(), ErrorKind::BoxStillOpen);
}

#[test]
fn a_failure_of_one_box_keeps_its_values() {
    let box_error = BoxError::UnsupportedVersion { version: 2 };
    let carried = Error::from(box_error);

    assert_eq!(carried.kind(), ErrorKind::Box(BoxErrorKind::UnsupportedVersion));
    assert_eq!(carried.box_error(), Some(box_error));
    assert_eq!(carried.box_type(), None);
    assert_eq!(carried.needed_bytes(), None);
}

#[test]
fn the_bytes_of_an_event_are_the_header_encoded_or_the_payload_as_it_came() {
    let header = compact_header(*b"mdat", 12);
    let payload = b"SAMP".to_vec();
    let carried = payload.as_ptr();

    assert_eq!(EventBytes::header(header).as_slice(), b"\0\0\0\x0cmdat");

    let handed_over = EventBytes::payload(payload).into_vec();

    assert_eq!(handed_over, b"SAMP".to_vec());
    assert_eq!(handed_over.as_ptr(), carried);
}

#[test]
fn each_event_a_writer_takes_is_reported_from_where_the_one_before_it_ended() {
    let mut writer = BoxWriter::new();
    let header = compact_header(*b"free", 12);

    assert_eq!(writer.event_extent(), None);
    writer.handle_event(BoxEvent::Header(header)).unwrap();
    assert_eq!(writer.event_extent(), Some(0..8));
    writer.handle_event(BoxEvent::Payload(b"AB".to_vec())).unwrap();
    assert_eq!(writer.event_extent(), Some(8..10));
    writer.handle_event(BoxEvent::Payload(b"CD".to_vec())).unwrap();
    assert_eq!(writer.event_extent(), Some(10..12));
    writer.handle_event(BoxEvent::End).unwrap();
    assert_eq!(writer.event_extent(), Some(12..12));
    assert_eq!(drained(&mut writer, 5).len(), 12);
}

#[test]
fn a_header_gathered_whole_is_framed_before_more_input_arrives() {
    let mut reader = BoxReader::new();
    reader.handle_input(b"\0\0\0\x0cfree").unwrap();

    assert_eq!(polled(&mut reader), Some(started(compact_header(*b"free", 12), 0)));
    assert_eq!(polled(&mut reader), None);
}

#[test]
fn display_of_a_failure_of_the_sequence_states_the_reason() {
    assert_eq!(Error::unfinished_header(16, 9).message(), "file ends 9 bytes into a box header of 16");
    assert_eq!(Error::unfinished_box(16, 12).message(), "box of 16 bytes closed off at 12");
    assert_eq!(
        Error::payload_past_declared(BoxType::compact(*b"mdat"), 4, 9).message(),
        "mdat box declares 4 payload bytes, and 9 were offered"
    );
    assert_eq!(Error::no_box_open().message(), "no box is open to carry a payload or an end");
    assert_eq!(Error::box_still_open(BoxType::compact(*b"mdat")).message(), "mdat box is still open");
    assert_eq!(Error::past_end_of_file().message(), "box running to the end of the file was closed already");
    assert_eq!(Error::already_finished().message(), "file was declared over and takes nothing more");
}

#[test]
fn error_display_of_a_failure_of_one_box_reads_as_that_failure() {
    let box_error = BoxError::UnsupportedVersion { version: 2 };

    assert_eq!(Error::Box(box_error).message(), box_error.message());
    assert_eq!(box_error.message(), "box declares version 2, which is not read");
}

#[test]
fn an_extended_box_type_is_written_with_its_user_type() {
    let user_type = Uuid([0xa5, 0xd4, 0x0b, 0x30, 0xe8, 0x14, 0x11, 0xdd, 0xba, 0x2f, 0x08, 0x00, 0x20, 0x0c, 0x9a, 0x66]);

    assert_eq!(
        Error::box_still_open(BoxType::Extended(user_type)).message(),
        "uuid:a5d40b30e81411ddba2f0800200c9a66 box is still open"
    );
}

#[test]
fn debug_leaves_out_the_values_a_kind_does_not_carry() {
    let error = Error::already_finished();

    assert_eq!(error.debug_text(), "Error { kind: AlreadyFinished, category: Usage }");
}

#[test]
fn debug_of_the_sequence_names_the_values_a_kind_carries_with_the_box_written_out() {
    let error = Error::payload_past_declared(BoxType::compact(*b"mdat"), 4, 9);

    assert_eq!(
        error.debug_text(),
        "Error { kind: PayloadPastDeclared, category: Usage, box_type: mdat, needed_bytes: 4, available_bytes: 9 }"
    );
    assert_eq!(
        Error::unfinished_header(16, 9).debug_text(),
        "Error { kind: UnfinishedHeader, category: Malformed, needed_bytes: 16, available_bytes: 9 }"
    );
    assert_eq!(
        Error::Box(BoxError::UnsupportedVersion { version: 2 }).debug_text(),
        "Error { kind: Box(UnsupportedVersion), category: Unsupported, box_error: UnsupportedVersion { version: 2 } }"
    );
}

/// The box of `box_type` carrying `payload`, its header the one `payload` needs
fn framed_box(box_type: BoxType, payload: &[u8]) -> Vec<u8> {
    let header = BoxHeader::with_payload_len(box_type, payload.len() as u64).unwrap();
    [encoded(&header), payload.to_vec()].concat()
}

/// A fragmented file laid out by hand, its last box running to the end of it
fn fragmented_file() -> Vec<u8> {
    let vendor = Uuid([0x01, 0x23, 0x45, 0x67, 0x89, 0xab, 0xcd, 0xef, 0xfe, 0xdc, 0xba, 0x98, 0x76, 0x54, 0x32, 0x10]);
    [
        framed_box(BoxType::compact(*b"ftyp"), b"isom\0\0\x02\0isomavc1"),
        framed_box(BoxType::compact(*b"free"), b""),
        framed_box(BoxType::compact(*b"moov"), &[0xa5; 40]),
        framed_box(BoxType::Extended(vendor), b"vendor!!"),
        framed_box(BoxType::compact(*b"moof"), &[0x5a; 24]),
        framed_box(BoxType::compact(*b"mdat"), &[0x11; 64]),
        [encoded(&unbounded_header(*b"mdat")), vec![0x22; 48]].concat(),
    ]
    .concat()
}

#[test]
fn the_events_reported_do_not_turn_on_how_the_file_was_cut_into_chunks() {
    let file = fragmented_file();
    let whole = payloads_fused(events_of(&file, file.len()));

    for chunk_length in 1..=file.len() {
        assert_eq!(payloads_fused(events_of(&file, chunk_length)), whole, "chunks of {chunk_length} bytes");
    }
}
