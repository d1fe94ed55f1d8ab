//! [`ESDBox`] (`esds`), ISO/IEC 14496-14 §6.7

use vstd::prelude::*;

use crate::bytes::{BoxError, FieldReader, saturated};
use crate::mp4::descriptor::{MAX_BODY_LEN, spec_encoded_len};
use crate::mp4::error::Error;
use crate::mp4::es_descriptor::{
    ESDescriptor, ESDescriptorView, es_body_len, es_bytes, es_round_trips, lemma_es_round_trip, spec_decode_es,
};
use crate::sequence::children::{children_of, kept_as, lone_box, split_children, AnyBox};
use crate::sequence::header::{header_bytes, lemma_header_bytes_read, needed_len, size_for, type_field_of, BoxHeader, BoxType};

verus! {

/// Length of the version and flags the box opens with
pub const FIXED_FIELDS_LEN: u64 = 4;

/// The payload of an `esds`: version 0, no flags, and the descriptor
pub open spec fn esds_payload_bytes(es: ESDescriptorView) -> Seq<u8> {
    seq![0u8, 0u8, 0u8, 0u8] + es_bytes(es)
}

/// Reads the payload of an `esds`, header excluded
pub open spec fn spec_decode_esds_payload(s: Seq<u8>) -> Result<ESDescriptorView, Error> {
    if s.len() < 4 {
        Err(Error::Box(crate::bytes::truncated(0, 4, s.len() as int)))
    } else if s[0] != 0 {
        Err(Error::Box(BoxError::UnsupportedVersion { version: s[0] }))
    } else {
        match spec_decode_es(s, 4) {
            Err(failure) => Err(failure),
            Ok((es, end)) => if end != s.len() {
                Err(Error::Box(BoxError::TrailingPayload { consumed: saturated(end), available: saturated(s.len() as int) }))
            } else {
                Ok(es)
            },
        }
    }
}

/// Box an MPEG-4 sample entry holds to carry the descriptor of its stream
///
/// [`ESDBox`] (`esds`), ISO/IEC 14496-14 §6.7. The [`ESDescriptor`] is the
/// whole of the payload after the version and flags.
#[derive(Clone, Debug, PartialEq, Eq)]
pub struct ESDBox {
    es: ESDescriptor,
}

impl View for ESDBox {
    type V = ESDescriptorView;

    closed spec fn view(&self) -> ESDescriptorView {
        self.es@
    }
}

impl ESDBox {
    /// Creates the box around the descriptor it carries
    pub fn new(es: ESDescriptor) -> (b: Self)
        ensures
            b@ == es@,
    {
        ESDBox { es }
    }

    /// Returns the descriptor of the stream
    pub fn es(&self) -> (es: &ESDescriptor)
        ensures
            es@ == self@,
    {
        &self.es
    }

    /// Reads the box from its payload, header excluded
    ///
    /// Fails with an [`UnsupportedVersion`](BoxError::UnsupportedVersion) when
    /// the box declares a version other than 0, a
    /// [`TrailingPayload`](BoxError::TrailingPayload) when bytes follow the
    /// descriptor, and with what [`ESDescriptor::decode`] reports.
    pub fn decode_payload(payload: &[u8]) -> (result: Result<Self, Error>)
        ensures
            match spec_decode_esds_payload(payload@) {
                Ok(view) => result is Ok && result->Ok_0@ == view,
                Err(failure) => result == Err::<Self, Error>(failure),
            },
    {
        let mut reader = FieldReader::new(payload);
        let fields = match reader.read_slice(4) {
            Ok(fields) => fields,
            Err(failure) => return Err(Error::Box(failure)),
        };
        let version = fields[0];
        if version != 0 {
            return Err(Error::Box(BoxError::UnsupportedVersion { version }));
        }
        let es = ESDescriptor::decode(&mut reader)?;
        match reader.finish() {
            Ok(()) => Ok(ESDBox { es }),
            Err(failure) => Err(Error::Box(failure)),
        }
    }

    /// Returns the length of the payload, header excluded, held at the largest
    /// count where it runs past it
    pub fn payload_len(&self) -> (length: u64)
        ensures
            length == saturated(4 + spec_encoded_len(es_body_len(self@)) as int),
    {
        FIXED_FIELDS_LEN.saturating_add(self.es.encoded_len())
    }

    /// Writes the payload, header excluded, behind the bytes of `out`
    ///
    /// A descriptor whose body runs past the 28 bits an expandable size
    /// states is [`OutOfRange`](BoxError::OutOfRange), and nothing is written.
    pub fn encode_payload(&self, out: &mut Vec<u8>) -> (result: Result<(), BoxError>)
        ensures
            es_body_len(self@) <= MAX_BODY_LEN ==> result is Ok && final(out)@ == old(out)@ + esds_payload_bytes(self@),
            es_body_len(self@) > MAX_BODY_LEN ==> result is Err && final(out)@ == old(out)@,
    {
        if self.es.body_len() > MAX_BODY_LEN {
            return self.es.encode(out);
        }
        let ghost start = out@;
        out.push(0);
        out.push(0);
        out.push(0);
        out.push(0);
        let result = self.es.encode(out);
        proof {
            assert(out@ =~= start + esds_payload_bytes(self@));
        }
        result
    }
}

/// An `esds` payload reads back as the descriptor that wrote it, where no
/// descriptor kept raw carries a tag a field claims
pub proof fn lemma_esds_round_trip(es: ESDescriptorView)
    requires
        es_round_trips(es),
    ensures
        spec_decode_esds_payload(esds_payload_bytes(es)) == Ok::<ESDescriptorView, Error>(es),
{
    let s = esds_payload_bytes(es);
    assert(s.subrange(4, 4 + es_bytes(es).len() as int) =~= es_bytes(es));
    lemma_es_round_trip(es, s, 4);
}

/// The compact type of an `esds` box
pub const ESDS_TYPE: u32 = 0x6573_6473;

/// The compact type of a sampling rate box, `srat`
pub const SRAT_TYPE: u32 = 0x7372_6174;

/// Whether the box lying as `child` is of the compact type `box_type`
pub open spec fn is_of_type(child: Seq<u8>, box_type: u32) -> bool {
    type_field_of(child) == box_type
}

/// The payload of the box lying as `child`
pub open spec fn payload_of(child: Seq<u8>) -> Seq<u8> {
    child.subrange(needed_len(child) as int, child.len() as int)
}

/// What sorting the children of a sample entry comes to, from the `i`-th on
///
/// The `esds` found so far is `es`, the sampling rate boxes `rates` (kept
/// apart only `with_rate`), and the boxes no field claims `others`; `failure`
/// is how the children stopped framing, reported once every child before it is
/// sorted. The result is the descriptor, the sampling rate box if there is one,
/// and the boxes no field claims.
pub open spec fn sort_from(
    children: Seq<Seq<u8>>,
    i: int,
    es: Option<ESDescriptorView>,
    rates: Seq<Seq<u8>>,
    others: Seq<Seq<u8>>,
    failure: Option<BoxError>,
    with_rate: bool,
) -> Result<(ESDescriptorView, Option<Seq<u8>>, Seq<Seq<u8>>), Error>
    decreases children.len() - i,
{
    if i < 0 || i >= children.len() {
        match failure {
            Some(failure) => Err(Error::Box(failure)),
            None => match es {
                None => Err(Error::Box(BoxError::MissingMandatoryBox { box_type: ESDS_TYPE })),
                Some(es) => if rates.len() > 1 {
                    Err(Error::Box(BoxError::DuplicateBox { box_type: SRAT_TYPE }))
                } else {
                    Ok((es, if rates.len() == 1 { Some(rates[0]) } else { None }, others))
                },
            },
        }
    } else if is_of_type(children[i], ESDS_TYPE) {
        if es is Some {
            Err(Error::Box(BoxError::DuplicateBox { box_type: ESDS_TYPE }))
        } else {
            match spec_decode_esds_payload(payload_of(children[i])) {
                Ok(found) => sort_from(children, i + 1, Some(found), rates, others, failure, with_rate),
                Err(failure) => Err(failure),
            }
        }
    } else if with_rate && is_of_type(children[i], SRAT_TYPE) {
        sort_from(children, i + 1, es, rates.push(children[i]), others, failure, with_rate)
    } else {
        sort_from(children, i + 1, es, rates, others.push(children[i]), failure, with_rate)
    }
}

/// What sorting the children `bytes` hold comes to
pub open spec fn spec_sort_children(bytes: Seq<u8>, with_rate: bool) -> Result<(ESDescriptorView, Option<Seq<u8>>, Seq<Seq<u8>>), Error> {
    sort_from(children_of(bytes).0, 0, None, Seq::empty(), Seq::empty(), children_of(bytes).1, with_rate)
}

/// Sorts the children that follow the fields of a sample entry into the one
/// `esds` it must hold, the sampling rate box it may hold (looked for only
/// `with_rate`), and the boxes no field claims, in the order they came
///
/// Fails with [`Box`](Error::Box) when a child does not frame as a box, when
/// no `esds` is among the children or more than one, or more than one `srat`;
/// and with what [`ESDBox::decode_payload`] reports.
pub fn sort_children(children: &[u8], with_rate: bool) -> (result: Result<(ESDBox, Option<AnyBox>, Vec<AnyBox>), Error>)
    ensures
        match spec_sort_children(children@, with_rate) {
            Ok((es, rate, others)) => {
                &&& result is Ok
                &&& result->Ok_0.0@ == es
                &&& (result->Ok_0.1 is Some <==> rate is Some)
                &&& result->Ok_0.1 is Some ==> kept_as(result->Ok_0.1->0, rate->0)
                &&& result->Ok_0.2@.len() == others.len()
                &&& forall|k: int| 0 <= k < others.len() ==> kept_as(#[trigger] result->Ok_0.2@[k], others[k])
            },
            Err(failure) => result == Err::<(ESDBox, Option<AnyBox>, Vec<AnyBox>), Error>(failure),
        },
{
    let (boxes, failure) = split_children(children);
    let ghost framed = children_of(children@).0;
    let mut es: Option<ESDBox> = None;
    let mut rates: Vec<AnyBox> = Vec::new();
    let mut others: Vec<AnyBox> = Vec::new();
    let mut i: usize = 0;
    proof {
        assert(rates@.map_values(|child: AnyBox| child.bytes()) =~= Seq::<Seq<u8>>::empty());
        assert(others@.map_values(|child: AnyBox| child.bytes()) =~= Seq::<Seq<u8>>::empty());
    }
    while i < boxes.len()
        invariant
            boxes@.len() == framed.len(),
            framed == children_of(children@).0,
            failure == children_of(children@).1,
            forall|k: int| 0 <= k < boxes@.len() ==> kept_as(#[trigger] boxes@[k], framed[k]),
            0 <= i <= boxes@.len(),
            spec_sort_children(children@, with_rate) == sort_from(
                framed,
                i as int,
                match es { Some(found) => Some(found@), None => None },
                rates@.map_values(|child: AnyBox| child.bytes()),
                others@.map_values(|child: AnyBox| child.bytes()),
                failure,
                with_rate,
            ),
            forall|k: int| 0 <= k < rates@.len() ==> kept_as(#[trigger] rates@[k], rates@[k].bytes()),
            forall|k: int| 0 <= k < others@.len() ==> kept_as(#[trigger] others@[k], others@[k].bytes()),
            with_rate || rates@.len() == 0,
        decreases boxes@.len() - i,
    {
        let child = &boxes[i];
        proof {
            assert(kept_as(boxes@[i as int], framed[i as int]));
        }
        let box_type = child.box_type();
        let is_esds = match box_type {
            BoxType::Compact(fourcc) => fourcc == ESDS_TYPE,
            BoxType::Extended(_) => false,
        };
        let is_rate = match box_type {
            BoxType::Compact(fourcc) => fourcc == SRAT_TYPE,
            BoxType::Extended(_) => false,
        };
        proof {
            lemma_kept_type(*child, framed[i as int]);
            assert(payload_of(framed[i as int]) =~= child.payload@);
        }
        if is_esds {
            if es.is_some() {
                return Err(Error::Box(BoxError::DuplicateBox { box_type: ESDS_TYPE }));
            }
            match ESDBox::decode_payload(child.payload.as_slice()) {
                Ok(found) => {
                    es = Some(found);
                },
                Err(failure) => {
                    return Err(failure);
                },
            }
        } else if with_rate && is_rate {
            let ghost before = rates@;
            rates.push(child.clone_box());
            proof {
                assert(rates@.map_values(|child: AnyBox| child.bytes()) =~= before.map_values(|child: AnyBox| child.bytes()).push(framed[i as int]));
            }
        } else {
            let ghost before = others@;
            others.push(child.clone_box());
            proof {
                assert(others@.map_values(|child: AnyBox| child.bytes()) =~= before.map_values(|child: AnyBox| child.bytes()).push(framed[i as int]));
            }
        }
        i = i + 1;
    }
    let found = match es {
        Some(found) => found,
        None => {
            return Err(match failure {
                Some(failure) => Error::Box(failure),
                None => Error::Box(BoxError::MissingMandatoryBox { box_type: ESDS_TYPE }),
            });
        },
    };
    if let Some(failure) = failure {
        return Err(Error::Box(failure));
    }
    if rates.len() > 1 {
        return Err(Error::Box(BoxError::DuplicateBox { box_type: SRAT_TYPE }));
    }
    let rate = rates.pop();
    proof {
        assert forall|k: int| 0 <= k < others@.len() implies kept_as(#[trigger] others@[k], others@.map_values(|child: AnyBox| child.bytes())[k]) by {
            assert(kept_as(others@[k], others@[k].bytes()));
        }
    }
    Ok((found, rate, others))
}

/// The type a box kept as it lies declares is the one its bytes read as
proof fn lemma_kept_type(child: AnyBox, bytes: Seq<u8>)
    requires
        kept_as(child, bytes),
    ensures
        (child.header.spec_box_type() == BoxType::Compact(ESDS_TYPE)) <==> is_of_type(bytes, ESDS_TYPE),
        (child.header.spec_box_type() == BoxType::Compact(SRAT_TYPE)) <==> is_of_type(bytes, SRAT_TYPE),
{
    crate::sequence::header::lemma_type_of_encoding(child.header, child.payload@);
}

/// The bytes an `esds` box carrying `es` is written as, header included, none
/// where its descriptor cannot be written
pub open spec fn esds_box_bytes(es: ESDescriptorView) -> Option<Seq<u8>> {
    let payload = esds_payload_bytes(es);
    if es_body_len(es) > MAX_BODY_LEN {
        None
    } else {
        match size_for(BoxType::Compact(ESDS_TYPE), payload.len()) {
            Some(size) => Some(header_bytes(BoxType::Compact(ESDS_TYPE), size) + payload),
            None => None,
        }
    }
}

impl ESDBox {
    /// Writes the whole box, header included, behind the bytes of `out`
    ///
    /// A descriptor that cannot be written is
    /// [`OutOfRange`](BoxError::OutOfRange), and nothing is written.
    pub fn encode_box(&self, out: &mut Vec<u8>) -> (result: Result<(), BoxError>)
        ensures
            match esds_box_bytes(self@) {
                Some(bytes) => result is Ok && final(out)@ == old(out)@ + bytes,
                None => result is Err && final(out)@ == old(out)@,
            },
    {
        let mut payload: Vec<u8> = Vec::new();
        match self.encode_payload(&mut payload) {
            Ok(()) => {},
            Err(failure) => {
                return Err(failure);
            },
        }
        proof {
            assert(payload@ =~= esds_payload_bytes(self@));
        }
        let header = match BoxHeader::with_payload_len(BoxType::Compact(ESDS_TYPE), payload.len() as u64) {
            Some(header) => header,
            None => {
                return Err(BoxError::OutOfRange { value: payload.len() as u64 });
            },
        };
        let ghost start = out@;
        header.encode(out);
        crate::bytes::write_slice(out, payload.as_slice());
        proof {
            assert(out@ =~= start + esds_box_bytes(self@)->0);
        }
        Ok(())
    }

    /// Returns the length of the whole box, header included, held at the largest count where it runs past it
    pub fn encoded_len(&self) -> (length: u64)
        ensures
            length == saturated(8 + 4 + spec_encoded_len(es_body_len(self@)) as int),
    {
        8u64.saturating_add(self.payload_len())
    }
}

/// An `esds` box written out is one whole box of that type, carrying the payload written for its descriptor
pub proof fn lemma_esds_box_is_whole(es: ESDescriptorView)
    requires
        esds_box_bytes(es) is Some,
    ensures
        lone_box(esds_box_bytes(es)->0),
        is_of_type(esds_box_bytes(es)->0, ESDS_TYPE),
        payload_of(esds_box_bytes(es)->0) == esds_payload_bytes(es),
{
    let payload = esds_payload_bytes(es);
    let box_type = BoxType::Compact(ESDS_TYPE);
    let size = size_for(box_type, payload.len())->0;
    lemma_header_bytes_read(box_type, size, payload);
    let bytes = header_bytes(box_type, size) + payload;
    assert(bytes.subrange(needed_len(bytes) as int, bytes.len() as int) =~= payload);
}

/// The rate box the sampling rate boxes `rates` come to
pub open spec fn rate_of(rates: Seq<Seq<u8>>) -> Option<Seq<u8>> {
    if rates.len() == 1 {
        Some(rates[0])
    } else {
        None
    }
}

/// Once its `esds` is found, children of no type a field claims are all kept, in turn
pub proof fn lemma_sort_rest_kept(
    children: Seq<Seq<u8>>,
    i: int,
    es: ESDescriptorView,
    rates: Seq<Seq<u8>>,
    others: Seq<Seq<u8>>,
    with_rate: bool,
)
    requires
        0 <= i <= children.len(),
        rates.len() <= 1,
        forall|j: int| i <= j < children.len() ==> !is_of_type(#[trigger] children[j], ESDS_TYPE)
            && !(with_rate && is_of_type(children[j], SRAT_TYPE)),
    ensures
        sort_from(children, i, Some(es), rates, others, None, with_rate) == Ok::<(ESDescriptorView, Option<Seq<u8>>, Seq<Seq<u8>>), Error>(
            (es, rate_of(rates), others + children.subrange(i, children.len() as int)),
        ),
    decreases children.len() - i,
{
    if i < children.len() {
        let _ = children[i];
        lemma_sort_rest_kept(children, i + 1, es, rates, others.push(children[i]), with_rate);
        assert(others.push(children[i]) + children.subrange(i + 1, children.len() as int) =~= others + children.subrange(i, children.len() as int));
    } else {
        assert(others + children.subrange(i, children.len() as int) =~= others);
    }
}

/// The children an entry is written with sort back into its descriptor, its
/// sampling rate box, and the boxes no field claims
///
/// This holds where the descriptor reads back as itself, the sampling rate box
/// is one whole `srat` looked for, and each other box is one whole box of no
/// type a field claims.
pub proof fn lemma_sort_written_children(
    es: ESDescriptorView,
    rate: Option<Seq<u8>>,
    others: Seq<Seq<u8>>,
    with_rate: bool,
)
    requires
        esds_box_bytes(es) is Some,
        es_round_trips(es),
        rate is Some ==> with_rate && lone_box(rate->0) && is_of_type(rate->0, SRAT_TYPE),
        forall|k: int| 0 <= k < others.len() ==> lone_box(#[trigger] others[k])
            && !is_of_type(others[k], ESDS_TYPE) && !(with_rate && is_of_type(others[k], SRAT_TYPE)),
    ensures
        ({
            let rate_bytes = match rate {
                Some(bytes) => bytes,
                None => Seq::<u8>::empty(),
            };
            spec_sort_children(esds_box_bytes(es)->0 + rate_bytes + crate::mp4::sample_entry::boxes_bytes(others), with_rate)
                == Ok::<(ESDescriptorView, Option<Seq<u8>>, Seq<Seq<u8>>), Error>((es, rate, others))
        }),
{
    let esds = esds_box_bytes(es)->0;
    lemma_esds_box_is_whole(es);
    let rates = match rate {
        Some(bytes) => seq![bytes],
        None => Seq::<Seq<u8>>::empty(),
    };
    let rate_bytes = match rate {
        Some(bytes) => bytes,
        None => Seq::<u8>::empty(),
    };
    let children = seq![esds] + rates + others;
    assert forall|k: int| 0 <= k < children.len() implies lone_box(#[trigger] children[k]) by {
        if k == 0 {
            assert(children[k] == esds);
        } else if k < 1 + rates.len() {
            assert(children[k] == rate->0);
        } else {
            assert(children[k] == others[k - 1 - rates.len()]);
        }
    }
    crate::mp4::sample_entry::lemma_children_of_boxes(children);
    lemma_written_children_bytes(esds, rates, others);
    assert(rates.len() == 0 ==> rate_bytes =~= Seq::<u8>::empty());
    assert(crate::mp4::sample_entry::boxes_bytes(children) =~= esds + rate_bytes + crate::mp4::sample_entry::boxes_bytes(others));
    let first: int = 1 + rates.len() as int;
    assert forall|j: int| first <= j < children.len() implies !is_of_type(#[trigger] children[j], ESDS_TYPE)
        && !(with_rate && is_of_type(children[j], SRAT_TYPE)) by {
        assert(children[j] == others[j - first]);
    }
    assert(children[0] == esds);
    lemma_sort_first_esds(children, es, with_rate);
    if rate is Some {
        assert(children[1] == rate->0);
        lemma_sort_next_rate(children, es, with_rate);
        lemma_sort_rest_kept(children, 2, es, rates, Seq::empty(), with_rate);
    } else {
        lemma_sort_rest_kept(children, 1, es, rates, Seq::empty(), with_rate);
    }
    assert(Seq::<Seq<u8>>::empty() + children.subrange(first, children.len() as int) =~= others);
}

/// Sorting children opening with an `esds` that reads goes on past it, the descriptor found
proof fn lemma_sort_first_esds(children: Seq<Seq<u8>>, es: ESDescriptorView, with_rate: bool)
    requires
        children.len() > 0,
        esds_box_bytes(es) is Some,
        es_round_trips(es),
        children[0] == esds_box_bytes(es)->0,
    ensures
        sort_from(children, 0, None, Seq::empty(), Seq::empty(), None, with_rate)
            == sort_from(children, 1, Some(es), Seq::empty(), Seq::empty(), None, with_rate),
{
    lemma_esds_box_is_whole(es);
    lemma_esds_round_trip(es);
}

/// Sorting goes on past a sampling rate box following the `esds`, the box kept apart
proof fn lemma_sort_next_rate(children: Seq<Seq<u8>>, es: ESDescriptorView, with_rate: bool)
    requires
        children.len() > 1,
        with_rate,
        is_of_type(children[1], SRAT_TYPE),
    ensures
        sort_from(children, 1, Some(es), Seq::empty(), Seq::empty(), None, with_rate)
            == sort_from(children, 2, Some(es), seq![children[1]], Seq::empty(), None, with_rate),
{
    assert(Seq::<Seq<u8>>::empty().push(children[1]) =~= seq![children[1]]);
}

/// The bytes of an entry's children, end to end
proof fn lemma_written_children_bytes(esds: Seq<u8>, rates: Seq<Seq<u8>>, others: Seq<Seq<u8>>)
    requires
        rates.len() <= 1,
    ensures
        crate::mp4::sample_entry::boxes_bytes(seq![esds] + rates + others)
            == esds + (if rates.len() == 1 { rates[0] } else { Seq::<u8>::empty() }) + crate::mp4::sample_entry::boxes_bytes(others),
{
    let children = seq![esds] + rates + others;
    crate::mp4::sample_entry::lemma_boxes_bytes_front(children);
    assert(children[0] == esds);
    let after = children.drop_first();
    assert(after =~= rates + others);
    if rates.len() == 1 {
        crate::mp4::sample_entry::lemma_boxes_bytes_front(after);
        assert(after[0] == rates[0]);
        assert(after.drop_first() =~= others);
        assert(crate::mp4::sample_entry::boxes_bytes(children) =~= esds + rates[0] + crate::mp4::sample_entry::boxes_bytes(others));
    } else {
        assert(after =~= others);
        assert(crate::mp4::sample_entry::boxes_bytes(children) =~= esds + Seq::<u8>::empty() + crate::mp4::sample_entry::boxes_bytes(others));
    }
}

} // verus!
