//! [`MP4VisualSampleEntry`] (`mp4v`), ISO/IEC 14496-14 §6.7

use vstd::prelude::*;

use crate::bytes::{be16, saturated, truncated, BoxError, FieldReader};
use crate::mp4::error::Error;
use crate::mp4::es_descriptor::{es_round_trips, ESDescriptorView};
use crate::mp4::esds::{
    esds_box_bytes, is_of_type, lemma_sort_written_children, sort_children, spec_sort_children, ESDBox, ESDS_TYPE,
};
use crate::mp4::sample_entry::{boxes_bytes, boxes_len, encode_boxes, encoded_boxes_len, kept_bytes};
use crate::sequence::children::{lone_box, AnyBox};

verus! {

/// Length of the fields the entry opens with
pub const VISUAL_FIELDS_LEN: u64 = 78;

/// The fields a visual sample entry opens with, ISO/IEC 14496-12 §12.1.3, as they lie
///
/// The 78 bytes run from the reserved bytes and `data_reference_index` of
/// the plain `SampleEntry` to `depth` and `pre_defined`; they are carried
/// through whole and written back as they came.
#[derive(Clone, PartialEq, Eq, Debug)]
pub struct VisualSampleEntry {
    fields: Vec<u8>,
}

impl View for VisualSampleEntry {
    type V = Seq<u8>;

    closed spec fn view(&self) -> Seq<u8> {
        self.fields@
    }
}

impl VisualSampleEntry {
    /// Creates the fields from the 78 bytes they lie as
    pub fn new(fields: [u8; 78]) -> (entry: Self)
        ensures
            entry@ == fields@,
    {
        let mut bytes: Vec<u8> = Vec::new();
        let mut i: usize = 0;
        while i < 78
            invariant
                0 <= i <= 78,
                fields@.len() == 78,
                bytes@ == fields@.subrange(0, i as int),
            decreases 78 - i,
        {
            bytes.push(fields[i]);
            i = i + 1;
            assert(bytes@ =~= fields@.subrange(0, i as int));
        }
        assert(fields@.subrange(0, 78) =~= fields@);
        VisualSampleEntry { fields: bytes }
    }

    /// Returns the bytes the fields lie as
    pub fn fields(&self) -> (fields: &[u8])
        ensures
            fields@ == self@,
    {
        self.fields.as_slice()
    }

    /// Returns the index of the data reference the samples are read through
    pub fn data_reference_index(&self) -> (index: u16)
        requires
            self@.len() == 78,
        ensures
            index == be16(self@[6], self@[7]),
    {
        self.fields[6] as u16 * 256 + self.fields[7] as u16
    }
}

/// An [`MP4VisualSampleEntry`], as its contracts speak of it
pub struct MP4VisualSampleEntryView {
    /// The bytes the fields the entry opens with lie as
    pub visual: Seq<u8>,
    /// The descriptor the `esds` carries
    pub es: ESDescriptorView,

    /// The bytes of each box no field claims, in the order they came
    pub other_boxes: Seq<Seq<u8>>,
}

/// Reads an `mp4v` payload: the fields, then the boxes it holds
pub open spec fn spec_decode_mp4v(payload: Seq<u8>) -> Result<MP4VisualSampleEntryView, Error> {
    if payload.len() < 78 {
        Err(Error::Box(truncated(0, 78, payload.len() as int)))
    } else {
        match spec_sort_children(payload.subrange(78, payload.len() as int), false) {
            Ok((es, rate, others)) => Ok(MP4VisualSampleEntryView {
                visual: payload.subrange(0, 78),
                es,

                other_boxes: others,
            }),
            Err(failure) => Err(failure),
        }
    }
}

/// The payload an `mp4v` entry is written as, none where its descriptor cannot be written
pub open spec fn mp4v_payload_bytes(entry: MP4VisualSampleEntryView) -> Option<Seq<u8>> {
    match esds_box_bytes(entry.es) {
        Some(esds) => Some(entry.visual + esds
 + boxes_bytes(entry.other_boxes)),
        None => None,
    }
}

/// Sample entry of an MPEG-4 visual track
///
/// [`MP4VisualSampleEntry`] (`mp4v`), ISO/IEC 14496-14 §6.7. The entry opens
/// with the fields of a [`VisualSampleEntry`] and holds an [`ESDBox`]; any
/// other box is kept as it came and written back.
#[derive(Clone, PartialEq, Debug)]
pub struct MP4VisualSampleEntry {
    visual: VisualSampleEntry,
    es: ESDBox,

    other_boxes: Vec<AnyBox>,
}

impl View for MP4VisualSampleEntry {
    type V = MP4VisualSampleEntryView;

    closed spec fn view(&self) -> MP4VisualSampleEntryView {
        MP4VisualSampleEntryView {
            visual: self.visual@,
            es: self.es@,

            other_boxes: kept_bytes(self.other_boxes@),
        }
    }
}

impl MP4VisualSampleEntry {

    /// Creates the entry from the fields it opens with and the descriptor box
    pub fn new(visual: VisualSampleEntry, es: ESDBox) -> (entry: Self)
        ensures
            entry@.visual == visual@,
            entry@.es == es@,
            entry@.other_boxes == Seq::<Seq<u8>>::empty(),
    {
        let entry = MP4VisualSampleEntry { visual, es, other_boxes: Vec::new() };

        proof {
            assert(kept_bytes(entry.other_boxes@) =~= Seq::<Seq<u8>>::empty());
        }
        entry
    }

    /// Returns the fields the entry opens with
    pub fn visual(&self) -> (fields: &VisualSampleEntry)
        ensures
            fields@ == self@.visual,
    {
        &self.visual
    }

    /// Returns the descriptor box, `esds`
    pub fn es(&self) -> (es: &ESDBox)
        ensures
            es@ == self@.es,
    {
        &self.es
    }


    /// Returns the boxes no field claims, in the order they came
    pub fn other_boxes(&self) -> (boxes: &[AnyBox])
        ensures
            kept_bytes(boxes@) == self@.other_boxes,
    {
        self.other_boxes.as_slice()
    }

    /// Reads the entry from the payload of an `mp4v` box
    ///
    /// Fails with [`Box`](Error::Box) when the payload ends before the fields
    /// do, a child does not frame as a box, or there is no `esds` among the
    /// children or more than one; and with what
    /// [`ESDBox::decode_payload`] reports.
    pub fn decode_payload(payload: &[u8]) -> (result: Result<Self, Error>)
        ensures
            match spec_decode_mp4v(payload@) {
                Ok(view) => result is Ok && result->Ok_0@ == view,
                Err(failure) => result == Err::<Self, Error>(failure),
            },
    {
        let mut reader = FieldReader::new(payload);
        let fields = match reader.read_slice(78) {
            Ok(fields) => fields,
            Err(failure) => {
                return Err(Error::Box(failure));
            },
        };
        let visual = VisualSampleEntry { fields: crate::sequence::children::copy_all(fields) };
        let children = reader.take_remainder();
        match sort_children(children, false) {
            Ok((es, _rate, other_boxes)) => {
                let entry = MP4VisualSampleEntry { visual, es, other_boxes };
                proof {
                    let sorted = spec_sort_children(payload@.subrange(78, payload@.len() as int), false);
                    assert(kept_bytes(entry.other_boxes@) =~= sorted->Ok_0.2);
                }
                Ok(entry)
            },
            Err(failure) => Err(failure),
        }
    }

    /// Returns the length of the payload, header excluded, held at the largest count where it runs past it
    pub fn payload_len(&self) -> (length: u64)
        ensures
            ({
                let es_len = saturated(8 + 4 + crate::mp4::descriptor::spec_encoded_len(
                    crate::mp4::es_descriptor::es_body_len(self@.es),
                ) as int);
                length == saturated(saturated(self@.visual.len() + es_len) + boxes_len(self@.other_boxes))
            }),
    {
        let fields_len = self.visual.fields.len() as u64;

        fields_len.saturating_add(self.es.encoded_len()).saturating_add(encoded_boxes_len(self.other_boxes.as_slice()))

    }

    /// Writes the payload, header excluded, behind the bytes of `out`
    ///
    /// A descriptor that cannot be written is
    /// [`OutOfRange`](BoxError::OutOfRange), and nothing is written.
    pub fn encode_payload(&self, out: &mut Vec<u8>) -> (result: Result<(), BoxError>)
        ensures
            match mp4v_payload_bytes(self@) {
                Some(bytes) => result is Ok && final(out)@ == old(out)@ + bytes,
                None => result is Err && final(out)@ == old(out)@,
            },
    {
        let mut esds: Vec<u8> = Vec::new();
        match self.es.encode_box(&mut esds) {
            Ok(()) => {},
            Err(failure) => {
                return Err(failure);
            },
        }
        let ghost start = out@;
        crate::bytes::write_slice(out, self.visual.fields.as_slice());
        crate::bytes::write_slice(out, esds.as_slice());

        encode_boxes(self.other_boxes.as_slice(), out);
        proof {
            assert(out@ =~= start + mp4v_payload_bytes(self@)->0);
        }
        Ok(())
    }
}

/// An `mp4v` payload reads back as the entry that wrote it
///
/// This holds where the descriptor reads back as itself and each box no field claims is
/// one whole box of a type other than `esds`.
pub proof fn lemma_mp4v_round_trip(entry: MP4VisualSampleEntryView)
    requires
        mp4v_payload_bytes(entry) is Some,
        entry.visual.len() == 78,
        es_round_trips(entry.es),
        forall|k: int| 0 <= k < entry.other_boxes.len() ==> lone_box(#[trigger] entry.other_boxes[k])
            && !is_of_type(entry.other_boxes[k], ESDS_TYPE),
    ensures
        spec_decode_mp4v(mp4v_payload_bytes(entry)->0) == Ok::<MP4VisualSampleEntryView, Error>(entry),
{
    let payload = mp4v_payload_bytes(entry)->0;
    lemma_sort_written_children(entry.es, None, entry.other_boxes, false);
    assert(payload.subrange(0, 78) =~= entry.visual);
    assert(payload.subrange(78, payload.len() as int) =~= esds_box_bytes(entry.es)->0 + Seq::<u8>::empty() + boxes_bytes(entry.other_boxes));
}

} // verus!
