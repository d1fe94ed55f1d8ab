//! [`MpegSampleEntry`] (`mp4s`), ISO/IEC 14496-14 §6.7

use vstd::prelude::*;

use crate::bytes::{be16, be16_bytes, lemma_be16_round_trip, saturated, truncated, write_u16, BoxError, FieldReader};
use crate::mp4::error::Error;
use crate::mp4::es_descriptor::{es_round_trips, ESDescriptorView};
use crate::mp4::esds::{
    esds_box_bytes, is_of_type, lemma_sort_written_children, sort_children, spec_sort_children, ESDBox, ESDS_TYPE,
};
use crate::mp4::sample_entry::{
    boxes_bytes, boxes_len, encode_boxes, encoded_boxes_len, kept_bytes,
};
use crate::sequence::children::{lone_box, AnyBox};

verus! {

/// Length of the `SampleEntry` fields the entry opens with
pub const SAMPLE_ENTRY_LEN: u64 = 8;

/// An [`MpegSampleEntry`], as its contracts speak of it
pub struct MpegSampleEntryView {
    /// The index of the data reference the samples are read through
    pub data_reference_index: u16,
    /// The descriptor the `esds` carries
    pub es: ESDescriptorView,
    /// The bytes of each box no field claims, in the order they came
    pub other_boxes: Seq<Seq<u8>>,
}

/// Reads an `mp4s` payload: six reserved bytes, `data_reference_index`, then the boxes it holds
pub open spec fn spec_decode_mp4s(payload: Seq<u8>) -> Result<MpegSampleEntryView, Error> {
    if payload.len() < 6 {
        Err(Error::Box(truncated(0, 6, payload.len() as int)))
    } else if payload.len() < 8 {
        Err(Error::Box(truncated(6, 2, payload.len() as int)))
    } else {
        match spec_sort_children(payload.subrange(8, payload.len() as int), false) {
            Ok((es, _rate, others)) => Ok(MpegSampleEntryView {
                data_reference_index: be16(payload[6], payload[7]),
                es,
                other_boxes: others,
            }),
            Err(failure) => Err(failure),
        }
    }
}

/// The payload an `mp4s` entry is written as, none where its descriptor cannot be written
pub open spec fn mp4s_payload_bytes(entry: MpegSampleEntryView) -> Option<Seq<u8>> {
    match esds_box_bytes(entry.es) {
        Some(esds) => Some(
            seq![0u8, 0u8, 0u8, 0u8, 0u8, 0u8] + be16_bytes(entry.data_reference_index) + esds
                + boxes_bytes(entry.other_boxes),
        ),
        None => None,
    }
}

/// Sample entry of an MPEG-4 stream of any other type — scene description,
/// object descriptor, clock reference
///
/// [`MpegSampleEntry`] (`mp4s`), ISO/IEC 14496-14 §6.7. The entry opens with
/// the fields of the plain `SampleEntry` of ISO/IEC 14496-12 §8.5.2 — six
/// reserved bytes and `data_reference_index` — and holds an [`ESDBox`]; any
/// other box is kept as it came and written back.
#[derive(Clone, PartialEq, Debug)]
pub struct MpegSampleEntry {
    data_reference_index: u16,
    es: ESDBox,
    other_boxes: Vec<AnyBox>,
}

impl View for MpegSampleEntry {
    type V = MpegSampleEntryView;

    closed spec fn view(&self) -> MpegSampleEntryView {
        MpegSampleEntryView {
            data_reference_index: self.data_reference_index,
            es: self.es@,
            other_boxes: kept_bytes(self.other_boxes@),
        }
    }
}

impl MpegSampleEntry {
    /// Creates the entry from the data reference its samples are read through and the descriptor box
    pub fn new(data_reference_index: u16, es: ESDBox) -> (entry: Self)
        ensures
            entry@.data_reference_index == data_reference_index,
            entry@.es == es@,
            entry@.other_boxes == Seq::<Seq<u8>>::empty(),
    {
        let entry = MpegSampleEntry { data_reference_index, es, other_boxes: Vec::new() };
        proof {
            assert(kept_bytes(entry.other_boxes@) =~= Seq::<Seq<u8>>::empty());
        }
        entry
    }

    /// Returns the index of the data reference the samples are read through
    pub fn data_reference_index(&self) -> (index: u16)
        ensures
            index == self@.data_reference_index,
    {
        self.data_reference_index
    }

    /// Returns the descriptor box, `esds`
    pub fn es(&self) -> (es: &ESDBox)
        ensures
            es@ == self@.es,
    {
        &self.es
    }

    /// Returns the boxes no field claims, in the order they came
    pub fn other_boxes(&self) -> (boxes: &[AnyBox])
        ensures
            kept_bytes(boxes@) == self@.other_boxes,
    {
        self.other_boxes.as_slice()
    }

    /// Reads the entry from the payload of an `mp4s` box
    ///
    /// Fails with [`Box`](Error::Box) when the payload ends before the fields
    /// do, a child does not frame as a box, or there is no `esds` among the
    /// children or more than one; and with what [`ESDBox::decode_payload`]
    /// reports.
    pub fn decode_payload(payload: &[u8]) -> (result: Result<Self, Error>)
        ensures
            match spec_decode_mp4s(payload@) {
                Ok(view) => result is Ok && result->Ok_0@ == view,
                Err(failure) => result == Err::<Self, Error>(failure),
            },
    {
        let mut reader = FieldReader::new(payload);
        match reader.read_slice(6) {
            Ok(_reserved) => {},
            Err(failure) => {
                return Err(Error::Box(failure));
            },
        }
        let data_reference_index = match reader.read_u16() {
            Ok(index) => index,
            Err(failure) => {
                return Err(Error::Box(failure));
            },
        };
        let children = reader.take_remainder();
        match sort_children(children, false) {
            Ok((es, _rate, other_boxes)) => {
                let entry = MpegSampleEntry { data_reference_index, es, other_boxes };
                proof {
                    let sorted = spec_sort_children(payload@.subrange(8, payload@.len() as int), false);
                    assert(kept_bytes(entry.other_boxes@) =~= sorted->Ok_0.2);
                }
                Ok(entry)
            },
            Err(failure) => Err(failure),
        }
    }

    /// Returns the length of the payload, header excluded, held at the largest count where it runs past it
    pub fn payload_len(&self) -> (length: u64)
        ensures
            length == saturated(
                saturated(SAMPLE_ENTRY_LEN + saturated(8 + 4 + crate::mp4::descriptor::spec_encoded_len(
                    crate::mp4::es_descriptor::es_body_len(self@.es),
                ) as int)) + boxes_len(self@.other_boxes),
            ),
    {
        SAMPLE_ENTRY_LEN.saturating_add(self.es.encoded_len()).saturating_add(encoded_boxes_len(self.other_boxes.as_slice()))
    }

    /// Writes the payload, header excluded, behind the bytes of `out`
    ///
    /// A descriptor that cannot be written is
    /// [`OutOfRange`](BoxError::OutOfRange), and nothing is written.
    pub fn encode_payload(&self, out: &mut Vec<u8>) -> (result: Result<(), BoxError>)
        ensures
            match mp4s_payload_bytes(self@) {
                Some(bytes) => result is Ok && final(out)@ == old(out)@ + bytes,
                None => result is Err && final(out)@ == old(out)@,
            },
    {
        let mut esds: Vec<u8> = Vec::new();
        match self.es.encode_box(&mut esds) {
            Ok(()) => {},
            Err(failure) => {
                return Err(failure);
            },
        }
        let ghost start = out@;
        let mut i: usize = 0;
        while i < 6
            invariant
                0 <= i <= 6,
                out@ == start + Seq::new(i as nat, |_j: int| 0u8),
            decreases 6 - i,
        {
            out.push(0);
            i = i + 1;
            assert(out@ =~= start + Seq::new(i as nat, |_j: int| 0u8));
        }
        write_u16(out, self.data_reference_index);
        crate::bytes::write_slice(out, esds.as_slice());
        encode_boxes(self.other_boxes.as_slice(), out);
        proof {
            assert(Seq::new(6, |_j: int| 0u8) =~= seq![0u8, 0u8, 0u8, 0u8, 0u8, 0u8]);
            assert(out@ =~= start + mp4s_payload_bytes(self@)->0);
        }
        Ok(())
    }
}

/// An `mp4s` payload reads back as the entry that wrote it
///
/// This holds where the descriptor reads back as itself and each box no field
/// claims is one whole box, of a type other than `esds`.
pub proof fn lemma_mp4s_round_trip(entry: MpegSampleEntryView)
    requires
        mp4s_payload_bytes(entry) is Some,
        es_round_trips(entry.es),
        forall|k: int| 0 <= k < entry.other_boxes.len() ==> lone_box(#[trigger] entry.other_boxes[k])
            && !is_of_type(entry.other_boxes[k], ESDS_TYPE),
    ensures
        spec_decode_mp4s(mp4s_payload_bytes(entry)->0) == Ok::<MpegSampleEntryView, Error>(entry),
{
    let esds = esds_box_bytes(entry.es)->0;
    let payload = mp4s_payload_bytes(entry)->0;
    lemma_be16_round_trip(entry.data_reference_index);
    lemma_sort_written_children(entry.es, None, entry.other_boxes, false);
    assert(payload.subrange(8, payload.len() as int) =~= esds + Seq::<u8>::empty() + boxes_bytes(entry.other_boxes));
}

} // verus!
