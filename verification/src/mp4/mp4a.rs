//! [`MP4AudioSampleEntry`] (`mp4a`), ISO/IEC 14496-14 §6.7

use vstd::prelude::*;

use crate::bytes::{be16, saturated, truncated, BoxError, FieldReader};
use crate::mp4::error::Error;
use crate::mp4::es_descriptor::{es_round_trips, ESDescriptorView};
use crate::mp4::esds::{
    esds_box_bytes, is_of_type, lemma_sort_written_children, sort_children, spec_sort_children, ESDBox, ESDS_TYPE, SRAT_TYPE,
};
use crate::mp4::sample_entry::{boxes_bytes, boxes_len, encode_boxes, encoded_boxes_len, kept_bytes};
use crate::sequence::children::{lone_box, AnyBox};

verus! {

/// Length of the fields the entry opens with
pub const AUDIO_FIELDS_LEN: u64 = 28;

/// The fields an audio sample entry opens with, ISO/IEC 14496-12 §12.2.3, as they lie
///
/// The 28 bytes run from the reserved bytes and `data_reference_index` of
/// the plain `SampleEntry` to `samplerate`; they are carried through whole
/// and written back as they came.
#[derive(Clone, PartialEq, Eq, Debug)]
pub struct AudioSampleEntry {
    fields: Vec<u8>,
}

impl View for AudioSampleEntry {
    type V = Seq<u8>;

    closed spec fn view(&self) -> Seq<u8> {
        self.fields@
    }
}

impl AudioSampleEntry {
    /// Creates the fields from the 28 bytes they lie as
    pub fn new(fields: [u8; 28]) -> (entry: Self)
        ensures
            entry@ == fields@,
    {
        let mut bytes: Vec<u8> = Vec::new();
        let mut i: usize = 0;
        while i < 28
            invariant
                0 <= i <= 28,
                fields@.len() == 28,
                bytes@ == fields@.subrange(0, i as int),
            decreases 28 - i,
        {
            bytes.push(fields[i]);
            i = i + 1;
            assert(bytes@ =~= fields@.subrange(0, i as int));
        }
        assert(fields@.subrange(0, 28) =~= fields@);
        AudioSampleEntry { fields: bytes }
    }

    /// Returns the bytes the fields lie as
    pub fn fields(&self) -> (fields: &[u8])
        ensures
            fields@ == self@,
    {
        self.fields.as_slice()
    }

    /// Returns the index of the data reference the samples are read through
    pub fn data_reference_index(&self) -> (index: u16)
        requires
            self@.len() == 28,
        ensures
            index == be16(self@[6], self@[7]),
    {
        self.fields[6] as u16 * 256 + self.fields[7] as u16
    }
}

/// An [`MP4AudioSampleEntry`], as its contracts speak of it
pub struct MP4AudioSampleEntryView {
    /// The bytes the fields the entry opens with lie as
    pub audio: Seq<u8>,
    /// The descriptor the `esds` carries
    pub es: ESDescriptorView,

    /// The bytes of the sampling rate box, when the entry holds one
    pub sampling_rate: Option<Seq<u8>>,

    /// The bytes of each box no field claims, in the order they came
    pub other_boxes: Seq<Seq<u8>>,
}

/// Reads an `mp4a` payload: the fields, then the boxes it holds
pub open spec fn spec_decode_mp4a(payload: Seq<u8>) -> Result<MP4AudioSampleEntryView, Error> {
    if payload.len() < 28 {
        Err(Error::Box(truncated(0, 28, payload.len() as int)))
    } else {
        match spec_sort_children(payload.subrange(28, payload.len() as int), true) {
            Ok((es, rate, others)) => Ok(MP4AudioSampleEntryView {
                audio: payload.subrange(0, 28),
                es,

                sampling_rate: rate,

                other_boxes: others,
            }),
            Err(failure) => Err(failure),
        }
    }
}

/// The payload an `mp4a` entry is written as, none where its descriptor cannot be written
pub open spec fn mp4a_payload_bytes(entry: MP4AudioSampleEntryView) -> Option<Seq<u8>> {
    match esds_box_bytes(entry.es) {
        Some(esds) => Some(entry.audio + esds
 + match entry.sampling_rate {
            Some(rate) => rate,
            None => Seq::empty(),
        }
 + boxes_bytes(entry.other_boxes)),
        None => None,
    }
}

/// Sample entry of an MPEG-4 audio track
///
/// [`MP4AudioSampleEntry`] (`mp4a`), ISO/IEC 14496-14 §6.7. The entry opens
/// with the fields of an [`AudioSampleEntry`] and holds an [`ESDBox`]; a
/// sampling rate box (`srat`) may follow for a version 1 entry, and any other
/// box is kept as it came and written back.
#[derive(Clone, PartialEq, Debug)]
pub struct MP4AudioSampleEntry {
    audio: AudioSampleEntry,
    es: ESDBox,

    sampling_rate: Option<AnyBox>,

    other_boxes: Vec<AnyBox>,
}

impl View for MP4AudioSampleEntry {
    type V = MP4AudioSampleEntryView;

    closed spec fn view(&self) -> MP4AudioSampleEntryView {
        MP4AudioSampleEntryView {
            audio: self.audio@,
            es: self.es@,

            sampling_rate: match self.sampling_rate {
                Some(rate) => Some(rate.bytes()),
                None => None,
            },

            other_boxes: kept_bytes(self.other_boxes@),
        }
    }
}

impl MP4AudioSampleEntry {

    /// Creates the entry from the fields it opens with, the descriptor box, and
    /// the sampling rate box a version 1 entry states its rate in
    pub fn new(audio: AudioSampleEntry, es: ESDBox, sampling_rate: Option<AnyBox>) -> (entry: Self)
        ensures
            entry@.audio == audio@,
            entry@.es == es@,
            entry@.sampling_rate == (match sampling_rate {
                Some(rate) => Some(rate.bytes()),
                None => None,
            }),
            entry@.other_boxes == Seq::<Seq<u8>>::empty(),
    {
        let entry = MP4AudioSampleEntry { audio, es, sampling_rate, other_boxes: Vec::new() };

        proof {
            assert(kept_bytes(entry.other_boxes@) =~= Seq::<Seq<u8>>::empty());
        }
        entry
    }

    /// Returns the fields the entry opens with
    pub fn audio(&self) -> (fields: &AudioSampleEntry)
        ensures
            fields@ == self@.audio,
    {
        &self.audio
    }

    /// Returns the descriptor box, `esds`
    pub fn es(&self) -> (es: &ESDBox)
        ensures
            es@ == self@.es,
    {
        &self.es
    }


    /// Returns the sampling rate box, `srat`, when the entry holds one
    pub fn sampling_rate(&self) -> (rate: Option<&AnyBox>)
        ensures
            rate is Some <==> self@.sampling_rate is Some,
            rate is Some ==> rate->0.bytes() == self@.sampling_rate->0,
    {
        match &self.sampling_rate {
            Some(rate) => Some(rate),
            None => None,
        }
    }


    /// Returns the boxes no field claims, in the order they came
    pub fn other_boxes(&self) -> (boxes: &[AnyBox])
        ensures
            kept_bytes(boxes@) == self@.other_boxes,
    {
        self.other_boxes.as_slice()
    }

    /// Reads the entry from the payload of an `mp4a` box
    ///
    /// Fails with [`Box`](Error::Box) when the payload ends before the fields
    /// do, a child does not frame as a box, or there is no `esds` among the
    /// children or more than one, or more than one `srat`; and with what
    /// [`ESDBox::decode_payload`] reports.
    pub fn decode_payload(payload: &[u8]) -> (result: Result<Self, Error>)
        ensures
            match spec_decode_mp4a(payload@) {
                Ok(view) => result is Ok && result->Ok_0@ == view,
                Err(failure) => result == Err::<Self, Error>(failure),
            },
    {
        let mut reader = FieldReader::new(payload);
        let fields = match reader.read_slice(28) {
            Ok(fields) => fields,
            Err(failure) => {
                return Err(Error::Box(failure));
            },
        };
        let audio = AudioSampleEntry { fields: crate::sequence::children::copy_all(fields) };
        let children = reader.take_remainder();
        match sort_children(children, true) {
            Ok((es, sampling_rate, other_boxes)) => {
                let entry = MP4AudioSampleEntry { audio, es, sampling_rate, other_boxes };
                proof {
                    let sorted = spec_sort_children(payload@.subrange(28, payload@.len() as int), true);
                    assert(kept_bytes(entry.other_boxes@) =~= sorted->Ok_0.2);
                }
                Ok(entry)
            },
            Err(failure) => Err(failure),
        }
    }

    /// Returns the length of the payload, header excluded, held at the largest count where it runs past it
    pub fn payload_len(&self) -> (length: u64)
        ensures
            ({
                let es_len = saturated(8 + 4 + crate::mp4::descriptor::spec_encoded_len(
                    crate::mp4::es_descriptor::es_body_len(self@.es),
                ) as int);
                let rate_len: u64 = match self@.sampling_rate {
                    Some(rate) => saturated(rate.len() as int),
                    None => 0,
                };
                let head = saturated(saturated(self@.audio.len() + es_len) + rate_len);
                length == saturated(head + boxes_len(self@.other_boxes))
            }),
    {
        let fields_len = self.audio.fields.len() as u64;

        let rate_len: u64 = match &self.sampling_rate {
            Some(rate) => rate.encoded_len(),
            None => 0,
        };
        fields_len.saturating_add(self.es.encoded_len()).saturating_add(rate_len).saturating_add(encoded_boxes_len(self.other_boxes.as_slice()))

    }

    /// Writes the payload, header excluded, behind the bytes of `out`
    ///
    /// A descriptor that cannot be written is
    /// [`OutOfRange`](BoxError::OutOfRange), and nothing is written.
    pub fn encode_payload(&self, out: &mut Vec<u8>) -> (result: Result<(), BoxError>)
        ensures
            match mp4a_payload_bytes(self@) {
                Some(bytes) => result is Ok && final(out)@ == old(out)@ + bytes,
                None => result is Err && final(out)@ == old(out)@,
            },
    {
        let mut esds: Vec<u8> = Vec::new();
        match self.es.encode_box(&mut esds) {
            Ok(()) => {},
            Err(failure) => {
                return Err(failure);
            },
        }
        let ghost start = out@;
        crate::bytes::write_slice(out, self.audio.fields.as_slice());
        crate::bytes::write_slice(out, esds.as_slice());

        match &self.sampling_rate {
            Some(rate) => rate.encode(out),
            None => {},
        }

        encode_boxes(self.other_boxes.as_slice(), out);
        proof {
            assert(out@ =~= start + mp4a_payload_bytes(self@)->0);
        }
        Ok(())
    }
}

/// An `mp4a` payload reads back as the entry that wrote it
///
/// This holds where the descriptor reads back as itself, the sampling rate box is one
/// whole `srat`, and each box no field claims is one whole box of a type other
/// than `esds` and `srat`.
#[verifier::rlimit(60)]
pub proof fn lemma_mp4a_round_trip(entry: MP4AudioSampleEntryView)
    requires
        mp4a_payload_bytes(entry) is Some,
        entry.audio.len() == 28,
        es_round_trips(entry.es),
        entry.sampling_rate is Some ==> lone_box(entry.sampling_rate->0) && is_of_type(entry.sampling_rate->0, SRAT_TYPE),
        forall|k: int| 0 <= k < entry.other_boxes.len() ==> lone_box(#[trigger] entry.other_boxes[k])
            && !is_of_type(entry.other_boxes[k], ESDS_TYPE) && !is_of_type(entry.other_boxes[k], SRAT_TYPE),
    ensures
        spec_decode_mp4a(mp4a_payload_bytes(entry)->0) == Ok::<MP4AudioSampleEntryView, Error>(entry),
{
    let payload = mp4a_payload_bytes(entry)->0;
    let rate_bytes = match entry.sampling_rate {
        Some(bytes) => bytes,
        None => Seq::<u8>::empty(),
    };
    lemma_sort_written_children(entry.es, entry.sampling_rate, entry.other_boxes, true);
    assert(payload.subrange(0, 28) =~= entry.audio);
    let children = payload.subrange(28, payload.len() as int);
    assert(children =~= esds_box_bytes(entry.es)->0 + rate_bytes + boxes_bytes(entry.other_boxes));
    assert(spec_sort_children(children, true) == Ok::<(ESDescriptorView, Option<Seq<u8>>, Seq<Seq<u8>>), Error>(
        (entry.es, entry.sampling_rate, entry.other_boxes),
    ));
    assert(!(payload.len() < 28));
}

} // verus!
