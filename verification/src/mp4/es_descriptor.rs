//! [`ESDescriptor`] and the descriptors it holds, ISO/IEC 14496-1 §7.2.6

use vstd::prelude::*;

use crate::bytes::{
    BoxError, FieldReader, be16, be16_bytes, be32, be32_bytes, bytes_equal, lemma_be32_round_trip, truncated, write_slice,
    write_u16, write_u32,
};
use crate::mp4::descriptor::{
    DECODER_CONFIG_TAG, DECODER_SPECIFIC_INFO_TAG, ES_TAG, DescriptorTag, MAX_BODY_LEN, RawDescriptor,
    RawDescriptorView, SL_CONFIG_TAG, clone_list, decode_header, descriptor_bytes, encode_header, encode_list,
    encoded_len, header_bytes, spec_size_len, lemma_decode_header_bytes, lemma_decode_raw_bounds, lemma_list_front, lemma_list_len,
    lemma_raw_round_trip, list_avoids, raw_bytes, list_bounded, list_bytes, list_len, lists_equal,
    raw_descriptors_len, raw_views, spec_decode_raw, spec_encoded_len,
};
use crate::mp4::error::Error;

verus! {

/// The bytes of a `DecoderSpecificInfo`, when one is held, laid out whole
pub open spec fn dsi_bytes(dsi: Option<Seq<u8>>) -> Seq<u8> {
    match dsi {
        Some(bytes) => descriptor_bytes(DECODER_SPECIFIC_INFO_TAG, bytes),
        None => Seq::empty(),
    }
}

/// The length a `DecoderSpecificInfo`, when one is held, occupies
pub open spec fn dsi_len(dsi: Option<Seq<u8>>) -> nat {
    match dsi {
        Some(bytes) => spec_encoded_len(bytes.len()),
        None => 0,
    }
}

/// Bytes a decoder of the stream is configured with, as the coding lays them out
///
/// `DecoderSpecificInfo`, ISO/IEC 14496-1 §7.2.6.7. The bytes are the
/// coding's — the `AudioSpecificConfig` of ISO/IEC 14496-3 for AAC — and are
/// not read.
#[derive(Debug)]
pub struct DecoderSpecificInfo(RawDescriptor);

impl View for DecoderSpecificInfo {
    type V = Seq<u8>;

    closed spec fn view(&self) -> Seq<u8> {
        self.0@.body
    }
}

impl Clone for DecoderSpecificInfo {
    fn clone(&self) -> (copy: Self)
        ensures
            copy@ == self@,
    {
        proof {
            use_type_invariant(self);
        }
        DecoderSpecificInfo(self.0.clone())
    }
}

impl PartialEq for DecoderSpecificInfo {
    fn eq(&self, other: &Self) -> (same: bool) {
        bytes_equal(self.0.body(), other.0.body())
    }
}

impl vstd::std_specs::cmp::PartialEqSpecImpl for DecoderSpecificInfo {
    open spec fn obeys_eq_spec() -> bool {
        true
    }

    open spec fn eq_spec(&self, other: &Self) -> bool {
        self@ == other@
    }
}

impl Eq for DecoderSpecificInfo {}

impl DecoderSpecificInfo {
    /// The descriptor held is a `DecoderSpecificInfo`
    #[verifier::type_invariant]
    closed spec fn inv(self) -> bool {
        self.0@.tag == DECODER_SPECIFIC_INFO_TAG
    }

    /// Creates the descriptor from the bytes the coding lays out
    ///
    /// Returns `None` when `bytes` is longer than the 28 bits an expandable
    /// size can state.
    pub fn new(bytes: Vec<u8>) -> (result: Option<Self>)
        ensures
            result is Some <==> bytes@.len() <= MAX_BODY_LEN,
            result matches Some(info) ==> info@ == bytes@,
    {
        match RawDescriptor::new(DescriptorTag::decoder_specific_info(), bytes) {
            Some(raw) => Some(DecoderSpecificInfo(raw)),
            None => None,
        }
    }

    /// Returns the bytes the coding lays out
    pub fn as_bytes(&self) -> (bytes: &[u8])
        ensures
            bytes@ == self@,
    {
        self.0.body()
    }

    /// Returns the length the descriptor occupies, tag and size included
    fn encoded_len(&self) -> (length: u64)
        ensures
            length == spec_encoded_len(self@.len()),
            self@.len() <= MAX_BODY_LEN,
    {
        self.0.encoded_len()
    }

    /// Writes the descriptor behind the bytes of `out`
    fn encode(&self, out: &mut Vec<u8>)
        ensures
            final(out)@ == old(out)@ + dsi_bytes(Some(self@)),
    {
        proof {
            use_type_invariant(self);
        }
        let _ = self.0.encode(out);
    }
}

/// What a [`DecoderConfigDescriptor`] holds
pub struct DecoderConfigView {
    pub object_type_indication: u8,
    pub stream_type: u8,
    pub up_stream: bool,
    pub buffer_size_db: u32,
    pub max_bitrate: u32,
    pub avg_bitrate: u32,
    pub decoder_specific_info: Option<Seq<u8>>,
    pub other_descriptors: Seq<RawDescriptorView>,
}

/// The byte that carries `streamType`, `upStream` and the reserved bit
pub open spec fn dcd_flags(v: DecoderConfigView) -> u8 {
    (v.stream_type * 4 + (if v.up_stream { 2int } else { 0 }) + 1) as u8
}

/// The body of a `DecoderConfigDescriptor`, laid out as the spec states it
pub open spec fn dcd_body_bytes(v: DecoderConfigView) -> Seq<u8> {
    seq![v.object_type_indication, dcd_flags(v)]
        + seq![(v.buffer_size_db / 65536) as u8, ((v.buffer_size_db / 256) % 256) as u8, (v.buffer_size_db % 256) as u8]
        + be32_bytes(v.max_bitrate)
        + be32_bytes(v.avg_bitrate)
        + dsi_bytes(v.decoder_specific_info)
        + list_bytes(v.other_descriptors)
}

/// The length of the body of a `DecoderConfigDescriptor`
pub open spec fn dcd_body_len(v: DecoderConfigView) -> nat {
    13 + dsi_len(v.decoder_specific_info) + list_len(v.other_descriptors)
}

/// A `DecoderConfigDescriptor` laid out whole
pub open spec fn dcd_bytes(v: DecoderConfigView) -> Seq<u8> {
    header_bytes(DECODER_CONFIG_TAG, dcd_body_len(v)) + dcd_body_bytes(v)
}

/// The fields of a `DecoderConfigDescriptor` lie within the bits they are laid out in
pub open spec fn dcd_wf(v: DecoderConfigView) -> bool {
    &&& v.stream_type <= 0x3f
    &&& v.buffer_size_db <= 0x00ff_ffff
    &&& (v.decoder_specific_info matches Some(bytes) ==> bytes.len() <= MAX_BODY_LEN)
    &&& list_bounded(v.other_descriptors)
}

/// Reads the descriptors of a `DecoderConfigDescriptor` body from `pos`,
/// sorting the `DecoderSpecificInfo` out of the others
pub open spec fn spec_dcd_children(
    s: Seq<u8>,
    pos: int,
    dsi: Option<Seq<u8>>,
    others: Seq<RawDescriptorView>,
) -> Result<(Option<Seq<u8>>, Seq<RawDescriptorView>), Error>
    decreases s.len() - pos,
{
    if pos < 0 || pos >= s.len() {
        Ok((dsi, others))
    } else {
        match spec_decode_raw(s, pos) {
            Ok((d, end)) => {
                proof {
                    lemma_decode_raw_bounds(s, pos);
                }
                if d.tag == DECODER_SPECIFIC_INFO_TAG {
                    if dsi is Some {
                        Err(Error::DuplicateDescriptor { tag: DescriptorTag(DECODER_SPECIFIC_INFO_TAG) })
                    } else {
                        spec_dcd_children(s, end, Some(d.body), others)
                    }
                } else {
                    spec_dcd_children(s, end, dsi, others.push(d))
                }
            },
            Err(failure) => Err(failure),
        }
    }
}

/// Reads the body of a `DecoderConfigDescriptor`
pub open spec fn spec_decode_dcd_body(s: Seq<u8>) -> Result<DecoderConfigView, Error> {
    if s.len() < 2 {
        Err(Error::Box(truncated(0, 2, s.len() as int)))
    } else if s.len() < 5 {
        Err(Error::Box(truncated(2, 3, s.len() as int)))
    } else if s.len() < 9 {
        Err(Error::Box(truncated(5, 4, s.len() as int)))
    } else if s.len() < 13 {
        Err(Error::Box(truncated(9, 4, s.len() as int)))
    } else {
        match spec_dcd_children(s, 13, None, Seq::empty()) {
            Ok((dsi, others)) => Ok(
                DecoderConfigView {
                    object_type_indication: s[0],
                    stream_type: s[1] / 4,
                    up_stream: (s[1] / 2) % 2 == 1,
                    buffer_size_db: (s[2] as int * 65536 + s[3] as int * 256 + s[4] as int) as u32,
                    max_bitrate: be32(s[5], s[6], s[7], s[8]),
                    avg_bitrate: be32(s[9], s[10], s[11], s[12]),
                    decoder_specific_info: dsi,
                    other_descriptors: others,
                },
            ),
            Err(failure) => Err(failure),
        }
    }
}

/// A `DecoderConfigDescriptor` body is read with `maxBitrate` the big-endian
/// value of its bytes 5 to 8 and `avgBitrate` that of its bytes 9 to 12,
/// §7.2.6.6: the peak rate comes first, the average after it
pub proof fn lemma_dcd_bitrates_read_in_order(s: Seq<u8>)
    requires
        s.len() >= 13,
        spec_decode_dcd_body(s) is Ok,
    ensures
        spec_decode_dcd_body(s)->Ok_0.max_bitrate == be32(s[5], s[6], s[7], s[8]),
        spec_decode_dcd_body(s)->Ok_0.avg_bitrate == be32(s[9], s[10], s[11], s[12]),
{
}

/// A `DecoderConfigDescriptor` body is written with `maxBitrate` as its bytes
/// 5 to 8 and `avgBitrate` as its bytes 9 to 12, each big-endian, §7.2.6.6
pub proof fn lemma_dcd_bitrates_written_in_order(v: DecoderConfigView)
    ensures
        dcd_body_bytes(v).len() >= 13,
        be32(dcd_body_bytes(v)[5], dcd_body_bytes(v)[6], dcd_body_bytes(v)[7], dcd_body_bytes(v)[8]) == v.max_bitrate,
        be32(dcd_body_bytes(v)[9], dcd_body_bytes(v)[10], dcd_body_bytes(v)[11], dcd_body_bytes(v)[12]) == v.avg_bitrate,
{
    let b = dcd_body_bytes(v);
    lemma_be32_round_trip(v.max_bitrate);
    lemma_be32_round_trip(v.avg_bitrate);
    assert(b[5] == be32_bytes(v.max_bitrate)[0] && b[6] == be32_bytes(v.max_bitrate)[1]
        && b[7] == be32_bytes(v.max_bitrate)[2] && b[8] == be32_bytes(v.max_bitrate)[3]);
    assert(b[9] == be32_bytes(v.avg_bitrate)[0] && b[10] == be32_bytes(v.avg_bitrate)[1]
        && b[11] == be32_bytes(v.avg_bitrate)[2] && b[12] == be32_bytes(v.avg_bitrate)[3]);
}

/// Decoder configuration read and written as the spec lays it out
///
/// `DecoderConfigDescriptor`, ISO/IEC 14496-1 §7.2.6.6. The
/// `DecoderSpecificInfo` it may hold is kept as the bytes it lies as, and
/// every other descriptor after the fixed fields is kept raw.
#[derive(Debug)]
pub struct DecoderConfigDescriptor {
    object_type_indication: u8,
    stream_type: u8,
    up_stream: bool,
    buffer_size_db: u32,
    max_bitrate: u32,
    avg_bitrate: u32,
    decoder_specific_info: Option<DecoderSpecificInfo>,
    other_descriptors: Vec<RawDescriptor>,
}

/// The bytes of a `DecoderSpecificInfo` held, when one is
pub open spec fn dsi_view(dsi: Option<DecoderSpecificInfo>) -> Option<Seq<u8>> {
    match dsi {
        Some(info) => Some(info@),
        None => None,
    }
}

impl View for DecoderConfigDescriptor {
    type V = DecoderConfigView;

    closed spec fn view(&self) -> DecoderConfigView {
        DecoderConfigView {
            object_type_indication: self.object_type_indication,
            stream_type: self.stream_type,
            up_stream: self.up_stream,
            buffer_size_db: self.buffer_size_db,
            max_bitrate: self.max_bitrate,
            avg_bitrate: self.avg_bitrate,
            decoder_specific_info: dsi_view(self.decoder_specific_info),
            other_descriptors: raw_views(self.other_descriptors@),
        }
    }
}

impl Clone for DecoderConfigDescriptor {
    fn clone(&self) -> (copy: Self)
        ensures
            copy@ == self@,
    {
        proof {
            use_type_invariant(self);
        }
        let decoder_specific_info = match &self.decoder_specific_info {
            Some(info) => Some(info.clone()),
            None => None,
        };
        DecoderConfigDescriptor {
            object_type_indication: self.object_type_indication,
            stream_type: self.stream_type,
            up_stream: self.up_stream,
            buffer_size_db: self.buffer_size_db,
            max_bitrate: self.max_bitrate,
            avg_bitrate: self.avg_bitrate,
            decoder_specific_info,
            other_descriptors: clone_list(&self.other_descriptors),
        }
    }
}

impl PartialEq for DecoderConfigDescriptor {
    fn eq(&self, other: &Self) -> (same: bool) {
        let same_info = match (&self.decoder_specific_info, &other.decoder_specific_info) {
            (Some(a), Some(b)) => a.eq(b),
            (None, None) => true,
            _ => false,
        };
        self.object_type_indication == other.object_type_indication && self.stream_type == other.stream_type
            && self.up_stream == other.up_stream && self.buffer_size_db == other.buffer_size_db
            && self.max_bitrate == other.max_bitrate && self.avg_bitrate == other.avg_bitrate && same_info
            && lists_equal(&self.other_descriptors, &other.other_descriptors)
    }
}

impl vstd::std_specs::cmp::PartialEqSpecImpl for DecoderConfigDescriptor {
    open spec fn obeys_eq_spec() -> bool {
        true
    }

    open spec fn eq_spec(&self, other: &Self) -> bool {
        self@ == other@
    }
}

impl Eq for DecoderConfigDescriptor {}

impl DecoderConfigDescriptor {
    /// `streamType` fits its six bits and `bufferSizeDB` its 24
    #[verifier::type_invariant]
    closed spec fn inv(self) -> bool {
        &&& self.stream_type <= 0x3f
        &&& self.buffer_size_db <= 0x00ff_ffff
    }

    /// `objectTypeIndication` of an MPEG-4 AAC stream, ISO/IEC 14496-1 Table 5
    pub const OBJECT_TYPE_AUDIO_ISO_14496_3: u8 = 0x40;

    /// `streamType` of an audio stream, ISO/IEC 14496-1 Table 6
    pub const STREAM_TYPE_AUDIO: u8 = 0x05;

    /// `streamType` of a visual stream, ISO/IEC 14496-1 Table 6
    pub const STREAM_TYPE_VISUAL: u8 = 0x04;

    /// Creates the descriptor for a stream stored in the file, `upStream` off
    ///
    /// Returns `None` when `stream_type` is past its six bits or
    /// `buffer_size_db` past its 24.
    pub fn new(
        object_type_indication: u8,
        stream_type: u8,
        buffer_size_db: u32,
        max_bitrate: u32,
        avg_bitrate: u32,
        decoder_specific_info: Option<DecoderSpecificInfo>,
    ) -> (result: Option<Self>)
        ensures
            result is Some <==> stream_type <= 0x3f && buffer_size_db <= 0x00ff_ffff,
            result matches Some(d) ==> d@ == (DecoderConfigView {
                object_type_indication,
                stream_type,
                up_stream: false,
                buffer_size_db,
                max_bitrate,
                avg_bitrate,
                decoder_specific_info: dsi_view(decoder_specific_info),
                other_descriptors: Seq::empty(),
            }),
    {
        if stream_type > 0x3f || buffer_size_db > 0x00ff_ffff {
            return None;
        }
        let other_descriptors: Vec<RawDescriptor> = Vec::new();
        let d = DecoderConfigDescriptor {
            object_type_indication,
            stream_type,
            up_stream: false,
            buffer_size_db,
            max_bitrate,
            avg_bitrate,
            decoder_specific_info,
            other_descriptors,
        };
        assert(raw_views(d.other_descriptors@) =~= Seq::<RawDescriptorView>::empty());
        Some(d)
    }

    /// The fields lie within the bits they are laid out in, and every body held is bounded
    pub fn well_formed(&self)
        ensures
            dcd_wf(self@),
    {
        proof {
            use_type_invariant(self);
        }
        if let Some(info) = &self.decoder_specific_info {
            let _ = info.encoded_len();
        }
        let _ = raw_descriptors_len(&self.other_descriptors);
    }

    /// Returns the `objectTypeIndication`, the coding of the stream
    pub fn object_type_indication(&self) -> (v: u8)
        ensures
            v == self@.object_type_indication,
    {
        self.object_type_indication
    }

    /// Returns the `streamType`, the kind of stream
    pub fn stream_type(&self) -> (v: u8)
        ensures
            v == self@.stream_type,
    {
        self.stream_type
    }

    /// Returns `upStream`, whether the stream flows to the sender
    pub fn up_stream(&self) -> (v: bool)
        ensures
            v == self@.up_stream,
    {
        self.up_stream
    }

    /// Returns `bufferSizeDB`, the decoding buffer size in bytes
    pub fn buffer_size_db(&self) -> (v: u32)
        ensures
            v == self@.buffer_size_db,
    {
        self.buffer_size_db
    }

    /// Returns `maxBitrate`, in bits per second over any one-second window
    pub fn max_bitrate(&self) -> (v: u32)
        ensures
            v == self@.max_bitrate,
    {
        self.max_bitrate
    }

    /// Returns `avgBitrate`, in bits per second over the whole stream
    pub fn avg_bitrate(&self) -> (v: u32)
        ensures
            v == self@.avg_bitrate,
    {
        self.avg_bitrate
    }

    /// Returns the `DecoderSpecificInfo`, when the descriptor holds one
    pub fn decoder_specific_info(&self) -> (v: Option<&DecoderSpecificInfo>)
        ensures
            v matches Some(info) ==> self@.decoder_specific_info == Some(info@),
            v is None ==> self@.decoder_specific_info is None,
    {
        match &self.decoder_specific_info {
            Some(info) => Some(info),
            None => None,
        }
    }

    /// Returns the descriptors no field claims, in the order they came
    pub fn other_descriptors(&self) -> (v: &[RawDescriptor])
        ensures
            raw_views(v@) == self@.other_descriptors,
    {
        self.other_descriptors.as_slice()
    }

    /// Returns the length of the body, held at the largest count where it runs past it
    pub fn body_len(&self) -> (length: u64)
        ensures
            length == (if dcd_body_len(self@) > u64::MAX { u64::MAX as nat } else { dcd_body_len(self@) }),
    {
        let info = match &self.decoder_specific_info {
            Some(info) => info.encoded_len(),
            None => 0,
        };
        13u64.saturating_add(info).saturating_add(raw_descriptors_len(&self.other_descriptors))
    }

    /// Reads the descriptor from its body, tag and size excluded
    pub fn decode_body(body: &[u8]) -> (result: Result<Self, Error>)
        ensures
            match spec_decode_dcd_body(body@) {
                Ok(view) => result is Ok && result->Ok_0@ == view,
                Err(failure) => result == Err::<Self, Error>(failure),
            },
    {
        let mut reader = FieldReader::new(body);
        let head = match reader.read_slice(2) {
            Ok(head) => head,
            Err(failure) => return Err(Error::Box(failure)),
        };
        let object_type_indication = head[0];
        let flags = head[1];
        let size = match reader.read_slice(3) {
            Ok(size) => size,
            Err(failure) => return Err(Error::Box(failure)),
        };
        let buffer_size_db = (size[0] as u32) * 65536 + (size[1] as u32) * 256 + size[2] as u32;
        let max_bitrate = match reader.read_u32() {
            Ok(v) => v,
            Err(failure) => return Err(Error::Box(failure)),
        };
        let avg_bitrate = match reader.read_u32() {
            Ok(v) => v,
            Err(failure) => return Err(Error::Box(failure)),
        };
        assert(head@[0] == body@[0] && head@[1] == body@[1]);
        assert(size@[0] == body@[2] && size@[1] == body@[3] && size@[2] == body@[4]);

        let mut decoder_specific_info: Option<DecoderSpecificInfo> = None;
        let mut other_descriptors: Vec<RawDescriptor> = Vec::new();
        assert(raw_views(other_descriptors@) =~= Seq::<RawDescriptorView>::empty());
        while reader.remaining() > 0
            invariant
                reader.wf(),
                reader.data() == body@,
                13 <= reader.pos() <= body@.len(),
                spec_dcd_children(body@, 13, None, Seq::empty()) == spec_dcd_children(
                    body@,
                    reader.pos(),
                    dsi_view(decoder_specific_info),
                    raw_views(other_descriptors@),
                ),
            decreases body@.len() - reader.pos(),
        {
            proof {
                lemma_decode_raw_bounds(body@, reader.pos());
            }
            let ghost pos = reader.pos();
            let (tag, descriptor_body) = decode_header(&mut reader)?;
            let descriptor = RawDescriptor::decoded(tag, descriptor_body);
            if tag.0 == DECODER_SPECIFIC_INFO_TAG {
                if decoder_specific_info.is_some() {
                    return Err(Error::DuplicateDescriptor { tag });
                }
                decoder_specific_info = Some(DecoderSpecificInfo(descriptor));
            } else {
                let ghost before = other_descriptors@;
                other_descriptors.push(descriptor);
                proof {
                    assert(raw_views(other_descriptors@) =~= raw_views(before).push(descriptor@));
                }
            }
        }

        let d = DecoderConfigDescriptor {
            object_type_indication,
            stream_type: flags / 4,
            up_stream: (flags / 2) % 2 == 1,
            buffer_size_db,
            max_bitrate,
            avg_bitrate,
            decoder_specific_info,
            other_descriptors,
        };
        Ok(d)
    }

    /// Writes the descriptor behind the bytes of `out`
    ///
    /// A body past the 28 bits an expandable size states is
    /// [`OutOfRange`](BoxError::OutOfRange), and nothing is written.
    #[verifier::spinoff_prover]
    #[verifier::rlimit(40)]
    pub fn encode(&self, out: &mut Vec<u8>) -> (result: Result<(), BoxError>)
        ensures
            dcd_body_len(self@) <= MAX_BODY_LEN ==> result is Ok && final(out)@ == old(out)@ + dcd_bytes(self@),
            dcd_body_len(self@) > MAX_BODY_LEN ==> result is Err && final(out)@ == old(out)@,
    {
        proof {
            use_type_invariant(self);
        }
        let body_len = self.body_len();
        encode_header(out, DescriptorTag::decoder_config(), body_len)?;
        let ghost start = out@;
        let up_stream: u8 = if self.up_stream { 2 } else { 0 };
        out.push(self.object_type_indication);
        out.push(self.stream_type * 4 + up_stream + 1);
        out.push((self.buffer_size_db / 65536) as u8);
        out.push(((self.buffer_size_db / 256) % 256) as u8);
        out.push((self.buffer_size_db % 256) as u8);
        write_u32(out, self.max_bitrate);
        write_u32(out, self.avg_bitrate);
        let ghost fields = out@;
        if let Some(info) = &self.decoder_specific_info {
            info.encode(out);
        }
        let ghost with_info = out@;
        encode_list(&self.other_descriptors, out);
        proof {
            let v = self@;
            assert(fields =~= start + seq![v.object_type_indication, dcd_flags(v)]
                + seq![(v.buffer_size_db / 65536) as u8, ((v.buffer_size_db / 256) % 256) as u8, (v.buffer_size_db % 256) as u8]
                + be32_bytes(v.max_bitrate) + be32_bytes(v.avg_bitrate));
            assert(with_info =~= fields + dsi_bytes(v.decoder_specific_info));
            assert(out@ =~= old(out)@ + dcd_bytes(v));
        }
        Ok(())
    }
}

/// A run of descriptors none of which is a `DecoderSpecificInfo` reads back
/// as the run, behind the descriptors already read
pub proof fn lemma_dcd_children_list(
    views: Seq<RawDescriptorView>,
    s: Seq<u8>,
    pos: int,
    dsi: Option<Seq<u8>>,
    acc: Seq<RawDescriptorView>,
)
    requires
        0 <= pos <= s.len(),
        list_bounded(views),
        list_avoids(views, DECODER_SPECIFIC_INFO_TAG),
        s.subrange(pos, s.len() as int) == list_bytes(views),
    ensures
        spec_dcd_children(s, pos, dsi, acc) == Ok::<(Option<Seq<u8>>, Seq<RawDescriptorView>), Error>((dsi, acc + views)),
    decreases views.len(),
{
    if views.len() == 0 {
        assert(acc + views =~= acc);
        assert(s.subrange(pos, s.len() as int).len() == 0);
    } else {
        lemma_list_front(views);
        let first = views[0];
        let rest = views.drop_first();
        let n = raw_bytes(first).len();
        assert(first.body.len() <= MAX_BODY_LEN);
        assert(first.tag != DECODER_SPECIFIC_INFO_TAG);
        assert(list_bytes(views).len() == n + list_bytes(rest).len());
        assert(s.subrange(pos, s.len() as int).len() == s.len() - pos);
        assert(s.subrange(pos, pos + n) =~= s.subrange(pos, s.len() as int).subrange(0, n as int));
        assert(list_bytes(views).subrange(0, n as int) =~= raw_bytes(first));
        lemma_raw_round_trip(first, s, pos);
        assert(s.subrange(pos + n, s.len() as int) =~= s.subrange(pos, s.len() as int).subrange(n as int, s.len() - pos));
        assert(list_bytes(views).subrange(n as int, list_bytes(views).len() as int) =~= list_bytes(rest));
        assert(list_bounded(rest)) by {
            assert forall|i: int| 0 <= i < rest.len() implies #[trigger] rest[i].body.len() <= MAX_BODY_LEN by {
                assert(rest[i] == views[i + 1]);
            }
        }
        assert(list_avoids(rest, DECODER_SPECIFIC_INFO_TAG)) by {
            assert forall|i: int| 0 <= i < rest.len() implies #[trigger] rest[i].tag != DECODER_SPECIFIC_INFO_TAG by {
                assert(rest[i] == views[i + 1]);
            }
        }
        assert(n > 0);
        lemma_dcd_children_list(rest, s, pos + n, dsi, acc.push(first));
        assert(acc.push(first) + rest =~= acc + views);
    }
}

/// The three bytes a 24-bit value is laid out in give the value back
proof fn lemma_be24_round_trip(v: u32)
    requires
        v <= 0x00ff_ffff,
    ensures
        (((v / 65536) as u8) as int * 65536 + (((v / 256) % 256) as u8) as int * 256 + ((v % 256) as u8) as int) == v,
{
    vstd::arithmetic::div_mod::lemma_div_denominator(v as int, 256, 256);
    vstd::arithmetic::div_mod::lemma_fundamental_div_mod((v / 256) as int, 256);
    vstd::arithmetic::div_mod::lemma_fundamental_div_mod(v as int, 256);
}

/// The length of the body laid out is the length counted for it
pub proof fn lemma_dcd_body_len(v: DecoderConfigView)
    requires
        dcd_wf(v),
    ensures
        dcd_body_bytes(v).len() == dcd_body_len(v),
{
    lemma_list_len(v.other_descriptors);
    if let Some(bytes) = v.decoder_specific_info {
        let h = header_bytes(DECODER_SPECIFIC_INFO_TAG, bytes.len());
        let whole = descriptor_bytes(DECODER_SPECIFIC_INFO_TAG, bytes);
        assert(whole.subrange(0, h.len() as int) =~= h);
        lemma_decode_header_bytes(whole, 0, DECODER_SPECIFIC_INFO_TAG, bytes.len());
    }
}

/// A decoder configuration whose other descriptors are no `DecoderSpecificInfo`
/// reads back from its body as the configuration that wrote it
pub proof fn lemma_dcd_round_trip(v: DecoderConfigView)
    requires
        dcd_wf(v),
        list_avoids(v.other_descriptors, DECODER_SPECIFIC_INFO_TAG),
    ensures
        dcd_body_bytes(v).len() == dcd_body_len(v),
        spec_decode_dcd_body(dcd_body_bytes(v)) == Ok::<DecoderConfigView, Error>(v),
{
    lemma_dcd_body_len(v);
    let s = dcd_body_bytes(v);
    let fixed = seq![v.object_type_indication, dcd_flags(v)]
        + seq![(v.buffer_size_db / 65536) as u8, ((v.buffer_size_db / 256) % 256) as u8, (v.buffer_size_db % 256) as u8]
        + be32_bytes(v.max_bitrate) + be32_bytes(v.avg_bitrate);
    let info = dsi_bytes(v.decoder_specific_info);
    let tail = list_bytes(v.other_descriptors);
    assert(s =~= fixed + info + tail);
    assert(fixed.len() == 13);
    assert forall|i: int| 0 <= i < 13 implies s[i] == fixed[i] by {}
    let flags = dcd_flags(v);
    assert(s[1] == flags);
    assert(flags / 4 == v.stream_type);
    assert((flags / 2) % 2 == 1 <==> v.up_stream);
    lemma_be24_round_trip(v.buffer_size_db);
    lemma_be32_round_trip(v.max_bitrate);
    lemma_be32_round_trip(v.avg_bitrate);
    assert(s[5] == be32_bytes(v.max_bitrate)[0] && s[6] == be32_bytes(v.max_bitrate)[1]
        && s[7] == be32_bytes(v.max_bitrate)[2] && s[8] == be32_bytes(v.max_bitrate)[3]);
    assert(s[9] == be32_bytes(v.avg_bitrate)[0] && s[10] == be32_bytes(v.avg_bitrate)[1]
        && s[11] == be32_bytes(v.avg_bitrate)[2] && s[12] == be32_bytes(v.avg_bitrate)[3]);
    let after_info = 13 + info.len();
    assert(s.subrange(after_info as int, s.len() as int) =~= tail);
    match v.decoder_specific_info {
        Some(bytes) => {
            let d = RawDescriptorView { tag: DECODER_SPECIFIC_INFO_TAG, body: bytes };
            assert(info == raw_bytes(d));
            assert(s.subrange(13, 13 + info.len() as int) =~= info);
            lemma_raw_round_trip(d, s, 13);
            lemma_dcd_children_list(v.other_descriptors, s, after_info as int, Some(bytes), Seq::empty());
            assert(Seq::<RawDescriptorView>::empty() + v.other_descriptors =~= v.other_descriptors);
            assert(raw_bytes(d).len() > 0);
            assert(13 < s.len());
        },
        None => {
            lemma_dcd_children_list(v.other_descriptors, s, 13, None, Seq::empty());
            assert(Seq::<RawDescriptorView>::empty() + v.other_descriptors =~= v.other_descriptors);
        },
    }
}

/// What an [`SLConfigDescriptor`] holds
pub struct SLConfigView {
    pub predefined: u8,
    pub remainder: Seq<u8>,
}

/// The body of an `SLConfigDescriptor`
pub open spec fn sl_body_bytes(v: SLConfigView) -> Seq<u8> {
    seq![v.predefined] + v.remainder
}

/// The length of the body of an `SLConfigDescriptor`
pub open spec fn sl_body_len(v: SLConfigView) -> nat {
    1 + v.remainder.len()
}

/// An `SLConfigDescriptor` laid out whole
pub open spec fn sl_bytes(v: SLConfigView) -> Seq<u8> {
    descriptor_bytes(SL_CONFIG_TAG, sl_body_bytes(v))
}

/// Reads the body of an `SLConfigDescriptor`
pub open spec fn spec_decode_sl_body(s: Seq<u8>) -> Result<SLConfigView, Error> {
    if s.len() < 1 {
        Err(Error::Box(truncated(0, 1, s.len() as int)))
    } else {
        Ok(SLConfigView { predefined: s[0], remainder: s.subrange(1, s.len() as int) })
    }
}

/// Configuration of the sync layer, read as far as its `predefined` field
///
/// `SLConfigDescriptor`, ISO/IEC 14496-1 §7.3.2.3. A stream stored in an MP4
/// file uses `predefined` 2 (ISO/IEC 14496-14 §4.1.2), and the descriptor
/// then holds nothing more. One that states a `predefined` of 0 lays its
/// configuration out field by field; those bytes are kept as they lie.
#[derive(Debug)]
pub struct SLConfigDescriptor {
    predefined: u8,
    remainder: Vec<u8>,
}

impl View for SLConfigDescriptor {
    type V = SLConfigView;

    closed spec fn view(&self) -> SLConfigView {
        SLConfigView { predefined: self.predefined, remainder: self.remainder@ }
    }
}

impl Clone for SLConfigDescriptor {
    fn clone(&self) -> (copy: Self)
        ensures
            copy@ == self@,
    {
        proof {
            use_type_invariant(self);
        }
        SLConfigDescriptor {
            predefined: self.predefined,
            remainder: vstd::slice::slice_to_vec(self.remainder.as_slice()),
        }
    }
}

impl PartialEq for SLConfigDescriptor {
    fn eq(&self, other: &Self) -> (same: bool) {
        self.predefined == other.predefined && bytes_equal(self.remainder.as_slice(), other.remainder.as_slice())
    }
}

impl vstd::std_specs::cmp::PartialEqSpecImpl for SLConfigDescriptor {
    open spec fn obeys_eq_spec() -> bool {
        true
    }

    open spec fn eq_spec(&self, other: &Self) -> bool {
        self@ == other@
    }
}

impl Eq for SLConfigDescriptor {}

impl SLConfigDescriptor {
    /// The body fits the 28 bits an expandable size states
    #[verifier::type_invariant]
    closed spec fn inv(self) -> bool {
        self.remainder@.len() + 1 <= MAX_BODY_LEN
    }

    /// The descriptor of a stream stored in the file, `predefined` 2
    pub fn mp4() -> (d: Self)
        ensures
            d@ == (SLConfigView { predefined: 2, remainder: Seq::empty() }),
    {
        SLConfigDescriptor { predefined: 2, remainder: Vec::new() }
    }

    /// The body fits the 28 bits an expandable size states
    pub fn bounded(&self)
        ensures
            sl_body_len(self@) <= MAX_BODY_LEN,
    {
        proof {
            use_type_invariant(self);
        }
    }

    /// Returns the `predefined` value
    pub fn predefined(&self) -> (v: u8)
        ensures
            v == self@.predefined,
    {
        self.predefined
    }

    /// Returns the bytes after `predefined`, the fields a `predefined` of 0 lays out
    pub fn remainder(&self) -> (v: &[u8])
        ensures
            v@ == self@.remainder,
    {
        self.remainder.as_slice()
    }

    /// Returns the length of the body
    fn body_len(&self) -> (length: u64)
        ensures
            length == sl_body_len(self@),
            length <= MAX_BODY_LEN,
    {
        proof {
            use_type_invariant(self);
        }
        1 + self.remainder.len() as u64
    }

    /// Reads the descriptor from its body, tag and size excluded
    fn decode_body(body: &[u8]) -> (result: Result<Self, Error>)
        requires
            body@.len() <= MAX_BODY_LEN,
        ensures
            match spec_decode_sl_body(body@) {
                Ok(view) => result is Ok && result->Ok_0@ == view,
                Err(failure) => result == Err::<Self, Error>(failure),
            },
    {
        let mut reader = FieldReader::new(body);
        let predefined = match reader.read_u8() {
            Ok(byte) => byte,
            Err(failure) => return Err(Error::Box(failure)),
        };
        let remainder = vstd::slice::slice_to_vec(reader.take_remainder());
        Ok(SLConfigDescriptor { predefined, remainder })
    }

    /// Writes the descriptor behind the bytes of `out`
    fn encode(&self, out: &mut Vec<u8>)
        ensures
            final(out)@ == old(out)@ + sl_bytes(self@),
    {
        let body_len = self.body_len();
        let _ = encode_header(out, DescriptorTag::sl_config(), body_len);
        out.push(self.predefined);
        write_slice(out, self.remainder.as_slice());
        proof {
            assert(out@ =~= old(out)@ + sl_bytes(self@));
        }
    }
}

/// What an [`ESDescriptor`] holds
pub struct ESDescriptorView {
    pub es_id: u16,
    pub stream_priority: u8,
    pub depends_on_es_id: Option<u16>,
    pub url: Option<Seq<u8>>,
    pub ocr_es_id: Option<u16>,
    pub decoder_config: DecoderConfigView,
    pub sl_config: SLConfigView,
    pub other_descriptors: Seq<RawDescriptorView>,
}

/// The byte that carries the three flags and `streamPriority`
pub open spec fn es_flags(v: ESDescriptorView) -> u8 {
    (v.stream_priority + (if v.depends_on_es_id is Some { 128int } else { 0 }) + (if v.url is Some {
        64int
    } else {
        0
    }) + (if v.ocr_es_id is Some { 32int } else { 0 })) as u8
}

/// A 16-bit field present only where its flag is set
pub open spec fn optional_u16_bytes(field: Option<u16>) -> Seq<u8> {
    match field {
        Some(v) => be16_bytes(v),
        None => Seq::empty(),
    }
}

/// `URLstring` behind its one-byte length, present only where `URL_Flag` is set
pub open spec fn url_bytes(url: Option<Seq<u8>>) -> Seq<u8> {
    match url {
        Some(u) => seq![u.len() as u8] + u,
        None => Seq::empty(),
    }
}

/// The fields of an `ES_Descriptor` body before the descriptors it holds
pub open spec fn es_fields_bytes(v: ESDescriptorView) -> Seq<u8> {
    be16_bytes(v.es_id) + seq![es_flags(v)] + optional_u16_bytes(v.depends_on_es_id) + url_bytes(v.url)
        + optional_u16_bytes(v.ocr_es_id)
}

/// The body of an `ES_Descriptor`
pub open spec fn es_body_bytes(v: ESDescriptorView) -> Seq<u8> {
    es_fields_bytes(v) + dcd_bytes(v.decoder_config) + sl_bytes(v.sl_config) + list_bytes(v.other_descriptors)
}

/// The length of the fields of an `ES_Descriptor` body
pub open spec fn es_fields_len(v: ESDescriptorView) -> nat {
    3 + (if v.depends_on_es_id is Some { 2nat } else { 0 }) + (match v.url {
        Some(u) => u.len() + 1,
        None => 0,
    }) + (if v.ocr_es_id is Some { 2nat } else { 0 })
}

/// The length of the body of an `ES_Descriptor`
pub open spec fn es_body_len(v: ESDescriptorView) -> nat {
    es_fields_len(v) + spec_encoded_len(dcd_body_len(v.decoder_config)) + spec_encoded_len(sl_body_len(v.sl_config))
        + list_len(v.other_descriptors)
}

/// An `ES_Descriptor` laid out whole
pub open spec fn es_bytes(v: ESDescriptorView) -> Seq<u8> {
    header_bytes(ES_TAG, es_body_len(v)) + es_body_bytes(v)
}

/// Reads a 16-bit field at `pos` where `present`, and where the next field starts
pub open spec fn spec_optional_u16(s: Seq<u8>, pos: int, present: bool) -> Result<(Option<u16>, int), Error> {
    if !present {
        Ok((None, pos))
    } else if pos + 2 > s.len() {
        Err(Error::Box(truncated(pos, 2, s.len() as int)))
    } else {
        Ok((Some(be16(s[pos], s[pos + 1])), pos + 2))
    }
}

/// Reads `URLstring` behind its length at `pos` where `present`, and where the next field starts
pub open spec fn spec_optional_url(s: Seq<u8>, pos: int, present: bool) -> Result<(Option<Seq<u8>>, int), Error> {
    if !present {
        Ok((None, pos))
    } else if pos + 1 > s.len() {
        Err(Error::Box(truncated(pos, 1, s.len() as int)))
    } else if pos + 1 + s[pos] > s.len() {
        Err(Error::Box(truncated(pos + 1, s[pos] as int, s.len() as int)))
    } else {
        Ok((Some(s.subrange(pos + 1, pos + 1 + s[pos])), pos + 1 + s[pos]))
    }
}

/// What the descriptors of an `ES_Descriptor` body sort into
pub type EsChildren = (Option<DecoderConfigView>, Option<SLConfigView>, Seq<RawDescriptorView>);

/// Reads the descriptors of an `ES_Descriptor` body from `pos`, sorting the
/// decoder and sync layer configurations out of the others
pub open spec fn spec_es_children(
    s: Seq<u8>,
    pos: int,
    dcd: Option<DecoderConfigView>,
    sl: Option<SLConfigView>,
    others: Seq<RawDescriptorView>,
) -> Result<EsChildren, Error>
    decreases s.len() - pos,
{
    if pos < 0 || pos >= s.len() {
        Ok((dcd, sl, others))
    } else {
        match spec_decode_raw(s, pos) {
            Ok((d, end)) => {
                proof {
                    lemma_decode_raw_bounds(s, pos);
                }
                if d.tag == DECODER_CONFIG_TAG {
                    if dcd is Some {
                        Err(Error::DuplicateDescriptor { tag: DescriptorTag(DECODER_CONFIG_TAG) })
                    } else {
                        match spec_decode_dcd_body(d.body) {
                            Ok(c) => spec_es_children(s, end, Some(c), sl, others),
                            Err(failure) => Err(failure),
                        }
                    }
                } else if d.tag == SL_CONFIG_TAG {
                    if sl is Some {
                        Err(Error::DuplicateDescriptor { tag: DescriptorTag(SL_CONFIG_TAG) })
                    } else {
                        match spec_decode_sl_body(d.body) {
                            Ok(c) => spec_es_children(s, end, dcd, Some(c), others),
                            Err(failure) => Err(failure),
                        }
                    }
                } else {
                    spec_es_children(s, end, dcd, sl, others.push(d))
                }
            },
            Err(failure) => Err(failure),
        }
    }
}

/// Reads the body of an `ES_Descriptor`
pub open spec fn spec_decode_es_body(s: Seq<u8>) -> Result<ESDescriptorView, Error> {
    if s.len() < 2 {
        Err(Error::Box(truncated(0, 2, s.len() as int)))
    } else if s.len() < 3 {
        Err(Error::Box(truncated(2, 1, s.len() as int)))
    } else {
        let flags = s[2];
        match spec_optional_u16(s, 3, flags >= 128) {
            Err(failure) => Err(failure),
            Ok((depends_on_es_id, p1)) => match spec_optional_url(s, p1, (flags / 64) % 2 == 1) {
                Err(failure) => Err(failure),
                Ok((url, p2)) => match spec_optional_u16(s, p2, (flags / 32) % 2 == 1) {
                    Err(failure) => Err(failure),
                    Ok((ocr_es_id, p3)) => match spec_es_children(s, p3, None, None, Seq::empty()) {
                        Err(failure) => Err(failure),
                        Ok((dcd, sl, others)) => match (dcd, sl) {
                            (None, _) => Err(Error::MissingDescriptor { tag: DescriptorTag(DECODER_CONFIG_TAG) }),
                            (Some(_), None) => Err(Error::MissingDescriptor { tag: DescriptorTag(SL_CONFIG_TAG) }),
                            (Some(decoder_config), Some(sl_config)) => Ok(
                                ESDescriptorView {
                                    es_id: be16(s[0], s[1]),
                                    stream_priority: flags % 32,
                                    depends_on_es_id,
                                    url,
                                    ocr_es_id,
                                    decoder_config,
                                    sl_config,
                                    other_descriptors: others,
                                },
                            ),
                        },
                    },
                },
            },
        }
    }
}

/// Reads the `ES_Descriptor` at `pos` of `s`, and where it ends
pub open spec fn spec_decode_es(s: Seq<u8>, pos: int) -> Result<(ESDescriptorView, int), Error> {
    match spec_decode_raw(s, pos) {
        Err(failure) => Err(failure),
        Ok((d, end)) => if d.tag != ES_TAG {
            Err(Error::DescriptorTagMismatch { expected: DescriptorTag(ES_TAG), found: DescriptorTag(d.tag) })
        } else {
            match spec_decode_es_body(d.body) {
                Ok(v) => Ok((v, end)),
                Err(failure) => Err(failure),
            }
        },
    }
}

/// The views of the decoder and sync layer configurations sorted out so far
pub open spec fn dcd_option_view(d: Option<DecoderConfigDescriptor>) -> Option<DecoderConfigView> {
    match d {
        Some(c) => Some(c@),
        None => None,
    }
}

/// The view of a sync layer configuration sorted out so far
pub open spec fn sl_option_view(d: Option<SLConfigDescriptor>) -> Option<SLConfigView> {
    match d {
        Some(c) => Some(c@),
        None => None,
    }
}

/// The bytes of a `URLstring` held, when one is
pub open spec fn url_view(url: Option<Vec<u8>>) -> Option<Seq<u8>> {
    match url {
        Some(u) => Some(u@),
        None => None,
    }
}

/// Reads a 16-bit field where `present`
fn decode_optional_u16(reader: &mut FieldReader<'_>, present: bool) -> (result: Result<Option<u16>, Error>)
    requires
        old(reader).wf(),
    ensures
        final(reader).wf(),
        final(reader).data() == old(reader).data(),
        match spec_optional_u16(old(reader).data(), old(reader).pos(), present) {
            Ok((v, end)) => result == Ok::<Option<u16>, Error>(v) && final(reader).pos() == end,
            Err(failure) => result == Err::<Option<u16>, Error>(failure),
        },
{
    if !present {
        return Ok(None);
    }
    match reader.read_u16() {
        Ok(v) => Ok(Some(v)),
        Err(failure) => Err(Error::Box(failure)),
    }
}

/// Reads `URLstring` behind its length where `present`
fn decode_optional_url(reader: &mut FieldReader<'_>, present: bool) -> (result: Result<Option<Vec<u8>>, Error>)
    requires
        old(reader).wf(),
    ensures
        final(reader).wf(),
        final(reader).data() == old(reader).data(),
        match spec_optional_url(old(reader).data(), old(reader).pos(), present) {
            Ok((v, end)) => result is Ok && url_view(result->Ok_0) == v && final(reader).pos() == end
                && (result->Ok_0 matches Some(u) ==> u@.len() <= 255),
            Err(failure) => result == Err::<Option<Vec<u8>>, Error>(failure),
        },
{
    if !present {
        return Ok(None);
    }
    let length = match reader.read_u8() {
        Ok(byte) => byte,
        Err(failure) => return Err(Error::Box(failure)),
    };
    match reader.read_slice(length as usize) {
        Ok(url) => Ok(Some(vstd::slice::slice_to_vec(url))),
        Err(failure) => Err(Error::Box(failure)),
    }
}

/// Reads the descriptors of an `ES_Descriptor` body from where `reader` stands to its end
fn decode_es_children(reader: &mut FieldReader<'_>) -> (result: Result<
    (Option<DecoderConfigDescriptor>, Option<SLConfigDescriptor>, Vec<RawDescriptor>),
    Error,
>)
    requires
        old(reader).wf(),
    ensures
        match spec_es_children(old(reader).data(), old(reader).pos(), None, None, Seq::empty()) {
            Ok((dcd, sl, others)) => result is Ok && dcd_option_view(result->Ok_0.0) == dcd && sl_option_view(
                result->Ok_0.1,
            ) == sl && raw_views(result->Ok_0.2@) == others,
            Err(failure) => result == Err::<
                (Option<DecoderConfigDescriptor>, Option<SLConfigDescriptor>, Vec<RawDescriptor>),
                Error,
            >(failure),
        },
{
    let ghost data = reader.data();
    let ghost start = reader.pos();
    let mut decoder_config: Option<DecoderConfigDescriptor> = None;
    let mut sl_config: Option<SLConfigDescriptor> = None;
    let mut other_descriptors: Vec<RawDescriptor> = Vec::new();
    assert(raw_views(other_descriptors@) =~= Seq::<RawDescriptorView>::empty());
    while reader.remaining() > 0
        invariant
            reader.wf(),
            reader.data() == data,
            data == old(reader).data(),
            start == old(reader).pos(),
            start <= reader.pos(),
            spec_es_children(data, start, None, None, Seq::empty()) == spec_es_children(
                data,
                reader.pos(),
                dcd_option_view(decoder_config),
                sl_option_view(sl_config),
                raw_views(other_descriptors@),
            ),
        decreases data.len() - reader.pos(),
    {
        proof {
            lemma_decode_raw_bounds(data, reader.pos());
        }
        let (tag, body) = decode_header(reader)?;
        if tag.0 == DECODER_CONFIG_TAG {
            if decoder_config.is_some() {
                return Err(Error::DuplicateDescriptor { tag });
            }
            decoder_config = Some(DecoderConfigDescriptor::decode_body(body)?);
        } else if tag.0 == SL_CONFIG_TAG {
            if sl_config.is_some() {
                return Err(Error::DuplicateDescriptor { tag });
            }
            sl_config = Some(SLConfigDescriptor::decode_body(body)?);
        } else {
            let descriptor = RawDescriptor::decoded(tag, body);
            let ghost before = other_descriptors@;
            other_descriptors.push(descriptor);
            proof {
                assert(raw_views(other_descriptors@) =~= raw_views(before).push(descriptor@));
            }
        }
    }
    Ok((decoder_config, sl_config, other_descriptors))
}

/// Descriptor of one elementary stream, the whole of an `esds` payload
///
/// `ES_Descriptor`, ISO/IEC 14496-1 §7.2.6.5. The fields ISO/IEC 14496-14
/// §4.1.2 fixes for a stream stored in the file — `ES_ID` 0, no dependence,
/// no URL, no OCR stream — are held as read, so a file that states others
/// reads and writes back as it came; [`for_mp4_file`](Self::for_mp4_file)
/// writes the fixed values. Descriptors after the two every stream holds are
/// kept raw.
#[derive(Debug)]
pub struct ESDescriptor {
    es_id: u16,
    stream_priority: u8,
    depends_on_es_id: Option<u16>,
    url: Option<Vec<u8>>,
    ocr_es_id: Option<u16>,
    decoder_config: DecoderConfigDescriptor,
    sl_config: SLConfigDescriptor,
    other_descriptors: Vec<RawDescriptor>,
}

impl View for ESDescriptor {
    type V = ESDescriptorView;

    closed spec fn view(&self) -> ESDescriptorView {
        ESDescriptorView {
            es_id: self.es_id,
            stream_priority: self.stream_priority,
            depends_on_es_id: self.depends_on_es_id,
            url: url_view(self.url),
            ocr_es_id: self.ocr_es_id,
            decoder_config: self.decoder_config@,
            sl_config: self.sl_config@,
            other_descriptors: raw_views(self.other_descriptors@),
        }
    }
}

/// The fields of an `ES_Descriptor` lie within the bits they are laid out in,
/// and every descriptor it holds within what an expandable size states
pub open spec fn es_wf(v: ESDescriptorView) -> bool {
    &&& v.stream_priority <= 0x1f
    &&& (v.url matches Some(u) ==> u.len() <= 255)
    &&& dcd_wf(v.decoder_config)
    &&& sl_body_len(v.sl_config) <= MAX_BODY_LEN
    &&& list_bounded(v.other_descriptors)
}

impl Clone for ESDescriptor {
    fn clone(&self) -> (copy: Self)
        ensures
            copy@ == self@,
    {
        proof {
            use_type_invariant(self);
        }
        let url = match &self.url {
            Some(u) => Some(vstd::slice::slice_to_vec(u.as_slice())),
            None => None,
        };
        ESDescriptor {
            es_id: self.es_id,
            stream_priority: self.stream_priority,
            depends_on_es_id: self.depends_on_es_id,
            url,
            ocr_es_id: self.ocr_es_id,
            decoder_config: self.decoder_config.clone(),
            sl_config: self.sl_config.clone(),
            other_descriptors: clone_list(&self.other_descriptors),
        }
    }
}

impl PartialEq for ESDescriptor {
    fn eq(&self, other: &Self) -> (same: bool) {
        let same_url = match (&self.url, &other.url) {
            (Some(a), Some(b)) => bytes_equal(a.as_slice(), b.as_slice()),
            (None, None) => true,
            _ => false,
        };
        self.es_id == other.es_id && self.stream_priority == other.stream_priority
            && self.depends_on_es_id == other.depends_on_es_id && same_url && self.ocr_es_id == other.ocr_es_id
            && self.decoder_config.eq(&other.decoder_config) && self.sl_config.eq(&other.sl_config)
            && lists_equal(&self.other_descriptors, &other.other_descriptors)
    }
}

impl vstd::std_specs::cmp::PartialEqSpecImpl for ESDescriptor {
    open spec fn obeys_eq_spec() -> bool {
        true
    }

    open spec fn eq_spec(&self, other: &Self) -> bool {
        self@ == other@
    }
}

impl Eq for ESDescriptor {}

impl ESDescriptor {
    /// `streamPriority` fits its five bits and `URLstring` its one-byte length
    #[verifier::type_invariant]
    closed spec fn inv(self) -> bool {
        &&& self.stream_priority <= 0x1f
        &&& (self.url matches Some(u) ==> u@.len() <= 255)
    }

    /// Creates the descriptor of a stream stored in the file, with every field
    /// ISO/IEC 14496-14 §4.1.2 fixes at its value
    pub fn for_mp4_file(decoder_config: DecoderConfigDescriptor) -> (d: Self)
        ensures
            d@ == (ESDescriptorView {
                es_id: 0,
                stream_priority: 0,
                depends_on_es_id: None,
                url: None,
                ocr_es_id: None,
                decoder_config: decoder_config@,
                sl_config: SLConfigView { predefined: 2, remainder: Seq::empty() },
                other_descriptors: Seq::empty(),
            }),
    {
        let d = ESDescriptor {
            es_id: 0,
            stream_priority: 0,
            depends_on_es_id: None,
            url: None,
            ocr_es_id: None,
            decoder_config,
            sl_config: SLConfigDescriptor::mp4(),
            other_descriptors: Vec::new(),
        };
        assert(raw_views(d.other_descriptors@) =~= Seq::<RawDescriptorView>::empty());
        d
    }

    /// The fields lie within the bits they are laid out in, and every descriptor held is bounded
    pub fn well_formed(&self)
        ensures
            es_wf(self@),
    {
        proof {
            use_type_invariant(self);
        }
        self.decoder_config.well_formed();
        self.sl_config.bounded();
        let _ = raw_descriptors_len(&self.other_descriptors);
    }

    /// Returns `ES_ID`, 0 for a stream stored in the file
    pub fn es_id(&self) -> (v: u16)
        ensures
            v == self@.es_id,
    {
        self.es_id
    }

    /// Returns `streamPriority`
    pub fn stream_priority(&self) -> (v: u8)
        ensures
            v == self@.stream_priority,
    {
        self.stream_priority
    }

    /// Returns `dependsOn_ES_ID`, when `streamDependenceFlag` is set
    pub fn depends_on_es_id(&self) -> (v: Option<u16>)
        ensures
            v == self@.depends_on_es_id,
    {
        self.depends_on_es_id
    }

    /// Returns `URLstring`, when `URL_Flag` is set
    pub fn url(&self) -> (v: Option<&[u8]>)
        ensures
            v matches Some(u) ==> self@.url == Some(u@),
            v is None ==> self@.url is None,
    {
        match &self.url {
            Some(u) => Some(u.as_slice()),
            None => None,
        }
    }

    /// Returns `OCR_ES_Id`, when `OCRstreamFlag` is set
    pub fn ocr_es_id(&self) -> (v: Option<u16>)
        ensures
            v == self@.ocr_es_id,
    {
        self.ocr_es_id
    }

    /// Returns the decoder configuration
    pub fn decoder_config(&self) -> (v: &DecoderConfigDescriptor)
        ensures
            v@ == self@.decoder_config,
    {
        &self.decoder_config
    }

    /// Returns the sync layer configuration
    pub fn sl_config(&self) -> (v: &SLConfigDescriptor)
        ensures
            v@ == self@.sl_config,
    {
        &self.sl_config
    }

    /// Returns the descriptors no field claims, in the order they came
    pub fn other_descriptors(&self) -> (v: &[RawDescriptor])
        ensures
            raw_views(v@) == self@.other_descriptors,
    {
        self.other_descriptors.as_slice()
    }

    /// Returns the length of the body, held at the largest count where it runs past it
    pub fn body_len(&self) -> (length: u64)
        ensures
            length == (if es_body_len(self@) > u64::MAX { u64::MAX as nat } else { es_body_len(self@) }),
    {
        proof {
            use_type_invariant(self);
        }
        let depends_on: u64 = if self.depends_on_es_id.is_some() { 2 } else { 0 };
        let url: u64 = match &self.url {
            Some(u) => u.len() as u64 + 1,
            None => 0,
        };
        let ocr: u64 = if self.ocr_es_id.is_some() { 2 } else { 0 };
        let decoder_config = encoded_len(self.decoder_config.body_len());
        let sl_config = encoded_len(self.sl_config.body_len());
        proof {
            let dcd = dcd_body_len(self.decoder_config@);
            if dcd > u64::MAX {
                assert(spec_encoded_len(dcd) > u64::MAX);
            }
        }
        3u64.saturating_add(depends_on).saturating_add(url).saturating_add(ocr).saturating_add(decoder_config)
            .saturating_add(sl_config).saturating_add(raw_descriptors_len(&self.other_descriptors))
    }

    /// Returns the length the descriptor occupies, tag and size included, held
    /// at the largest count where it runs past it
    pub fn encoded_len(&self) -> (length: u64)
        ensures
            length == (if spec_encoded_len(es_body_len(self@)) > u64::MAX {
                u64::MAX as nat
            } else {
                spec_encoded_len(es_body_len(self@))
            }),
    {
        let body_len = self.body_len();
        proof {
            if es_body_len(self@) > u64::MAX {
                assert(spec_encoded_len(es_body_len(self@)) > u64::MAX);
            }
        }
        encoded_len(body_len)
    }

    /// Reads the descriptor that opens `reader`
    ///
    /// Fails with
    /// * [`DescriptorTagMismatch`](Error::DescriptorTagMismatch) when the
    ///   descriptor is not an `ES_Descriptor`;
    /// * [`ExpandableSizeTooLong`](Error::ExpandableSizeTooLong) when a size
    ///   runs past four bytes;
    /// * [`MissingDescriptor`](Error::MissingDescriptor) when no
    ///   `DecoderConfigDescriptor` or no `SLConfigDescriptor` is held;
    /// * [`DuplicateDescriptor`](Error::DuplicateDescriptor) when one of
    ///   those, or a `DecoderSpecificInfo`, is held more than once;
    /// * [`Box`](Error::Box) when the bytes end inside a field or a descriptor.
    pub fn decode(reader: &mut FieldReader<'_>) -> (result: Result<Self, Error>)
        requires
            old(reader).wf(),
        ensures
            final(reader).wf(),
            final(reader).data() == old(reader).data(),
            match spec_decode_es(old(reader).data(), old(reader).pos()) {
                Ok((view, end)) => result is Ok && result->Ok_0@ == view && final(reader).pos() == end,
                Err(failure) => result == Err::<Self, Error>(failure),
            },
    {
        proof {
            lemma_decode_raw_bounds(reader.data(), reader.pos());
        }
        let (tag, body) = decode_header(reader)?;
        if tag.0 != ES_TAG {
            return Err(Error::DescriptorTagMismatch { expected: DescriptorTag::es(), found: tag });
        }
        let mut fields = FieldReader::new(body);
        let es_id = match fields.read_u16() {
            Ok(v) => v,
            Err(failure) => return Err(Error::Box(failure)),
        };
        let flags = match fields.read_u8() {
            Ok(v) => v,
            Err(failure) => return Err(Error::Box(failure)),
        };
        let depends_on_es_id = decode_optional_u16(&mut fields, flags >= 128)?;
        let url = decode_optional_url(&mut fields, (flags / 64) % 2 == 1)?;
        let ocr_es_id = decode_optional_u16(&mut fields, (flags / 32) % 2 == 1)?;
        let (decoder_config, sl_config, other_descriptors) = decode_es_children(&mut fields)?;
        let decoder_config = match decoder_config {
            Some(c) => c,
            None => return Err(Error::MissingDescriptor { tag: DescriptorTag::decoder_config() }),
        };
        let sl_config = match sl_config {
            Some(c) => c,
            None => return Err(Error::MissingDescriptor { tag: DescriptorTag::sl_config() }),
        };
        Ok(ESDescriptor {
            es_id,
            stream_priority: flags % 32,
            depends_on_es_id,
            url,
            ocr_es_id,
            decoder_config,
            sl_config,
            other_descriptors,
        })
    }

    /// Writes the descriptor behind the bytes of `out`
    ///
    /// A body past the 28 bits an expandable size states is
    /// [`OutOfRange`](BoxError::OutOfRange), and nothing is written.
    #[verifier::spinoff_prover]
    #[verifier::rlimit(40)]
    pub fn encode(&self, out: &mut Vec<u8>) -> (result: Result<(), BoxError>)
        ensures
            es_body_len(self@) <= MAX_BODY_LEN ==> result is Ok && final(out)@ == old(out)@ + es_bytes(self@),
            es_body_len(self@) > MAX_BODY_LEN ==> result is Err && final(out)@ == old(out)@,
    {
        proof {
            use_type_invariant(self);
        }
        let body_len = self.body_len();
        encode_header(out, DescriptorTag::es(), body_len)?;
        let ghost start = out@;
        write_u16(out, self.es_id);
        let depends: u8 = if self.depends_on_es_id.is_some() { 128 } else { 0 };
        let url_flag: u8 = if self.url.is_some() { 64 } else { 0 };
        let ocr: u8 = if self.ocr_es_id.is_some() { 32 } else { 0 };
        out.push(self.stream_priority + depends + url_flag + ocr);
        if let Some(depends_on) = self.depends_on_es_id {
            write_u16(out, depends_on);
        }
        if let Some(url) = &self.url {
            out.push(url.len() as u8);
            write_slice(out, url.as_slice());
        }
        if let Some(ocr_es_id) = self.ocr_es_id {
            write_u16(out, ocr_es_id);
        }
        let ghost fields = out@;
        proof {
            assert(fields =~= start + es_fields_bytes(self@));
            assert(dcd_body_len(self@.decoder_config) <= MAX_BODY_LEN);
        }
        let _ = self.decoder_config.encode(out);
        self.sl_config.encode(out);
        encode_list(&self.other_descriptors, out);
        proof {
            assert(out@ =~= old(out)@ + es_bytes(self@));
        }
        Ok(())
    }
}

/// A run of descriptors none of which is a decoder or a sync layer
/// configuration reads back as the run, behind the descriptors already read
pub proof fn lemma_es_children_list(
    views: Seq<RawDescriptorView>,
    s: Seq<u8>,
    pos: int,
    dcd: Option<DecoderConfigView>,
    sl: Option<SLConfigView>,
    acc: Seq<RawDescriptorView>,
)
    requires
        0 <= pos <= s.len(),
        list_bounded(views),
        list_avoids(views, DECODER_CONFIG_TAG),
        list_avoids(views, SL_CONFIG_TAG),
        s.subrange(pos, s.len() as int) == list_bytes(views),
    ensures
        spec_es_children(s, pos, dcd, sl, acc) == Ok::<EsChildren, Error>((dcd, sl, acc + views)),
    decreases views.len(),
{
    if views.len() == 0 {
        assert(acc + views =~= acc);
        assert(s.subrange(pos, s.len() as int).len() == 0);
    } else {
        lemma_list_front(views);
        let first = views[0];
        let rest = views.drop_first();
        let n = raw_bytes(first).len();
        assert(first.body.len() <= MAX_BODY_LEN);
        assert(first.tag != DECODER_CONFIG_TAG && first.tag != SL_CONFIG_TAG);
        assert(list_bytes(views).len() == n + list_bytes(rest).len());
        assert(s.subrange(pos, s.len() as int).len() == s.len() - pos);
        assert(s.subrange(pos, pos + n) =~= s.subrange(pos, s.len() as int).subrange(0, n as int));
        assert(list_bytes(views).subrange(0, n as int) =~= raw_bytes(first));
        lemma_raw_round_trip(first, s, pos);
        assert(s.subrange(pos + n, s.len() as int) =~= s.subrange(pos, s.len() as int).subrange(n as int, s.len() - pos));
        assert(list_bytes(views).subrange(n as int, list_bytes(views).len() as int) =~= list_bytes(rest));
        assert forall|i: int| 0 <= i < rest.len() implies #[trigger] rest[i] == views[i + 1] by {}
        assert(list_bounded(rest));
        assert(list_avoids(rest, DECODER_CONFIG_TAG));
        assert(list_avoids(rest, SL_CONFIG_TAG));
        assert(n > 0);
        lemma_es_children_list(rest, s, pos + n, dcd, sl, acc.push(first));
        assert(acc.push(first) + rest =~= acc + views);
    }
}

/// The conditions under which an `ES_Descriptor` reads back as the value that wrote it:
/// its fields within their bits, no descriptor kept raw carrying a tag a field
/// claims, and a body within what an expandable size states
pub open spec fn es_round_trips(v: ESDescriptorView) -> bool {
    &&& es_wf(v)
    &&& list_avoids(v.decoder_config.other_descriptors, DECODER_SPECIFIC_INFO_TAG)
    &&& list_avoids(v.other_descriptors, DECODER_CONFIG_TAG)
    &&& list_avoids(v.other_descriptors, SL_CONFIG_TAG)
    &&& es_body_len(v) <= MAX_BODY_LEN
}

/// A body laid out for a descriptor is as long as counted
proof fn lemma_body_lengths(v: ESDescriptorView)
    requires
        es_wf(v),
    ensures
        es_fields_bytes(v).len() == es_fields_len(v),
        dcd_bytes(v.decoder_config).len() == spec_encoded_len(dcd_body_len(v.decoder_config)),
        sl_bytes(v.sl_config).len() == spec_encoded_len(sl_body_len(v.sl_config)),
        es_body_bytes(v).len() == es_body_len(v),
{
    lemma_dcd_body_len(v.decoder_config);
    lemma_list_len(v.other_descriptors);
    let dcd_len = dcd_body_len(v.decoder_config);
    let sl_len = sl_body_len(v.sl_config);
    let dh = header_bytes(DECODER_CONFIG_TAG, dcd_len);
    let sh = header_bytes(SL_CONFIG_TAG, sl_len);
    lemma_header_len(DECODER_CONFIG_TAG, dcd_len);
    lemma_header_len(SL_CONFIG_TAG, sl_len);
}

/// The header of a body of any length is its tag and its expandable size
proof fn lemma_header_len(tag: u8, body_len: nat)
    ensures
        header_bytes(tag, body_len).len() == 1 + spec_size_len(body_len),
{
}

/// The length `dependsOn_ES_ID` takes
pub open spec fn es_depends_len(v: ESDescriptorView) -> int {
    if v.depends_on_es_id is Some { 2 } else { 0 }
}

/// The length `URLstring` and its length take
pub open spec fn es_url_len(v: ESDescriptorView) -> int {
    match v.url {
        Some(u) => u.len() + 1int,
        None => 0,
    }
}

/// The fields of an `ES_Descriptor` body read back as the values that wrote them
proof fn lemma_es_fields_round_trip(v: ESDescriptorView, s: Seq<u8>)
    requires
        es_wf(v),
        s.len() >= es_fields_len(v),
        s.subrange(0, es_fields_len(v) as int) == es_fields_bytes(v),
    ensures
        s[2] == es_flags(v),
        be16(s[0], s[1]) == v.es_id,
        es_flags(v) % 32 == v.stream_priority,
        spec_optional_u16(s, 3, es_flags(v) >= 128) == Ok::<(Option<u16>, int), Error>(
            (v.depends_on_es_id, 3 + es_depends_len(v)),
        ),
        spec_optional_url(s, 3 + es_depends_len(v), (es_flags(v) / 64) % 2 == 1) == Ok::<(Option<Seq<u8>>, int), Error>(
            (v.url, 3 + es_depends_len(v) + es_url_len(v)),
        ),
        spec_optional_u16(s, 3 + es_depends_len(v) + es_url_len(v), (es_flags(v) / 32) % 2 == 1) == Ok::<
            (Option<u16>, int),
            Error,
        >((v.ocr_es_id, es_fields_len(v) as int)),
{
    lemma_body_lengths(v);
    let f = es_fields_bytes(v);
    assert forall|i: int| 0 <= i < f.len() implies s[i] == f[i] by {
        assert(s.subrange(0, f.len() as int)[i] == s[i]);
    }
    let flags = es_flags(v);
    let dep_len: int = if v.depends_on_es_id is Some { 2 } else { 0 };
    let url_len: int = match v.url {
        Some(u) => u.len() + 1int,
        None => 0,
    };
    assert(s[0] == f[0] && s[1] == f[1] && s[2] == f[2]);
    crate::bytes::lemma_be16_round_trip(v.es_id);
    assert(flags >= 128 <==> v.depends_on_es_id is Some);
    assert((flags / 64) % 2 == 1 <==> v.url is Some);
    assert((flags / 32) % 2 == 1 <==> v.ocr_es_id is Some);
    if let Some(d) = v.depends_on_es_id {
        crate::bytes::lemma_be16_round_trip(d);
        assert(s[3] == f[3] && s[4] == f[4]);
    }
    if let Some(u) = v.url {
        let p1 = 3 + dep_len;
        assert(s[p1] == f[p1]);
        assert(s[p1] == u.len());
        assert(s.subrange(p1 + 1, p1 + 1 + u.len()) =~= u) by {
            assert forall|i: int| 0 <= i < u.len() implies s[p1 + 1 + i] == u[i] by {
                assert(f[p1 + 1 + i] == u[i]);
            }
        }
    }
    if let Some(o) = v.ocr_es_id {
        let p2 = 3 + dep_len + url_len;
        crate::bytes::lemma_be16_round_trip(o);
        assert(s[p2] == f[p2] && s[p2 + 1] == f[p2 + 1]);
    }
}

/// An `ES_Descriptor` laid out at `pos` reads back as the value that wrote it,
/// where no descriptor kept raw carries a tag a field claims
pub proof fn lemma_es_round_trip(v: ESDescriptorView, s: Seq<u8>, pos: int)
    requires
        es_round_trips(v),
        0 <= pos,
        pos + es_bytes(v).len() <= s.len(),
        s.subrange(pos, pos + es_bytes(v).len()) == es_bytes(v),
    ensures
        es_bytes(v).len() == spec_encoded_len(es_body_len(v)),
        spec_decode_es(s, pos) == Ok::<(ESDescriptorView, int), Error>((v, pos + es_bytes(v).len())),
{
    lemma_body_lengths(v);
    let body = es_body_bytes(v);
    let whole = RawDescriptorView { tag: ES_TAG, body };
    assert(raw_bytes(whole) == es_bytes(v));
    lemma_raw_round_trip(whole, s, pos);
    lemma_es_body_round_trip(v);
}

/// The descriptors an `ES_Descriptor` body holds read back as the configurations and the run that wrote them
#[verifier::spinoff_prover]
#[verifier::rlimit(100)]
proof fn lemma_es_children_round_trip(v: ESDescriptorView, s: Seq<u8>, p: int)
    requires
        es_round_trips(v),
        0 <= p <= s.len(),
        s.subrange(p, s.len() as int) == dcd_bytes(v.decoder_config) + sl_bytes(v.sl_config) + list_bytes(v.other_descriptors),
    ensures
        spec_es_children(s, p, None, None, Seq::empty()) == Ok::<EsChildren, Error>(
            (Some(v.decoder_config), Some(v.sl_config), v.other_descriptors),
        ),
{
    lemma_body_lengths(v);
    let dc = v.decoder_config;
    let sl = v.sl_config;
    let rest = s.subrange(p, s.len() as int);
    let dcd_view = RawDescriptorView { tag: DECODER_CONFIG_TAG, body: dcd_body_bytes(dc) };
    let sl_view = RawDescriptorView { tag: SL_CONFIG_TAG, body: sl_body_bytes(sl) };
    assert(raw_bytes(dcd_view) == dcd_bytes(dc));
    assert(sl_body_bytes(sl).len() == sl_body_len(sl));
    assert(raw_bytes(sl_view) == sl_bytes(sl));
    let n1 = dcd_bytes(dc).len() as int;
    let n2 = sl_bytes(sl).len() as int;
    assert(dcd_body_len(dc) <= es_body_len(v));
    assert(rest.len() == n1 + n2 + list_bytes(v.other_descriptors).len());
    assert(rest.len() == s.len() - p);
    assert(s.subrange(p, p + n1) =~= rest.subrange(0, n1));
    assert(rest.subrange(0, n1) =~= dcd_bytes(dc));
    lemma_raw_round_trip(dcd_view, s, p);
    lemma_dcd_round_trip(dc);
    assert(s.subrange(p + n1, p + n1 + n2) =~= rest.subrange(n1, n1 + n2));
    assert(rest.subrange(n1, n1 + n2) =~= sl_bytes(sl));
    lemma_raw_round_trip(sl_view, s, p + n1);
    assert(sl_body_bytes(sl).subrange(1, sl_body_bytes(sl).len() as int) =~= sl.remainder);
    assert(spec_decode_sl_body(sl_body_bytes(sl)) == Ok::<SLConfigView, Error>(sl));
    assert(s.subrange(p + n1 + n2, s.len() as int) =~= rest.subrange(n1 + n2, rest.len() as int));
    assert(rest.subrange(n1 + n2, rest.len() as int) =~= list_bytes(v.other_descriptors));
    lemma_es_children_list(v.other_descriptors, s, p + n1 + n2, Some(dc), Some(sl), Seq::empty());
    assert(Seq::<RawDescriptorView>::empty() + v.other_descriptors =~= v.other_descriptors);
    assert(n1 > 0 && n2 > 0);
    assert(spec_es_children(s, p, None, None, Seq::empty()) == spec_es_children(s, p + n1, Some(dc), None, Seq::empty()));
    assert(spec_es_children(s, p + n1, Some(dc), None, Seq::empty()) == spec_es_children(
        s,
        p + n1 + n2,
        Some(dc),
        Some(sl),
        Seq::empty(),
    ));
}

/// The body of an `ES_Descriptor` reads back as the value that wrote it
#[verifier::spinoff_prover]
#[verifier::rlimit(100)]
proof fn lemma_es_body_round_trip(v: ESDescriptorView)
    requires
        es_round_trips(v),
    ensures
        spec_decode_es_body(es_body_bytes(v)) == Ok::<ESDescriptorView, Error>(v),
{
    lemma_body_lengths(v);
    let s = es_body_bytes(v);
    let p3 = es_fields_len(v) as int;
    assert(s.subrange(0, p3) =~= es_fields_bytes(v));
    lemma_es_fields_round_trip(v, s);
    assert(s.subrange(p3, s.len() as int) =~= dcd_bytes(v.decoder_config) + sl_bytes(v.sl_config) + list_bytes(
        v.other_descriptors,
    ));
    lemma_es_children_round_trip(v, s, p3);
}

} // verus!