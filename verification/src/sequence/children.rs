//! [`AnyBox`], a box kept as it lies, and the boxes a payload holds one after another

use vstd::prelude::*;

use crate::bytes::BoxError;
use crate::sequence::header::{decode_failure, needed_len, read_size, size_field_of, type_field_of, BoxHeader, BoxType};

verus! {

/// A box kept as it lies: its header, and its payload as bytes
#[derive(Clone, PartialEq, Eq, Debug)]
pub struct AnyBox {
    /// The header the box opens with
    pub header: BoxHeader,
    /// The payload that follows it
    pub payload: Vec<u8>,
}

impl AnyBox {
    /// The bytes the box is written as
    pub open spec fn bytes(self) -> Seq<u8> {
        self.header.encoding() + self.payload@
    }

    /// Returns a copy of the box
    pub fn clone_box(&self) -> (copy: AnyBox)
        ensures
            copy.header == self.header,
            copy.payload@ == self.payload@,
    {
        AnyBox { header: self.header, payload: self.payload.clone() }
    }

    /// Returns the type of the box
    pub fn box_type(&self) -> (box_type: BoxType)
        ensures
            box_type == self.header.spec_box_type(),
    {
        self.header.box_type()
    }

    /// Returns the length the box is written in, held at the largest count where it runs past it
    pub fn encoded_len(&self) -> (len: u64)
        ensures
            len == crate::bytes::saturated(self.bytes().len() as int),
    {
        (self.header.encoded_len() as u64).saturating_add(self.payload.len() as u64)
    }

    /// Appends the bytes the box is written as
    pub fn encode(&self, out: &mut Vec<u8>)
        ensures
            final(out)@ == old(out)@ + self.bytes(),
    {
        let ghost start = out@;
        self.header.encode(out);
        crate::bytes::write_slice(out, self.payload.as_slice());
        proof {
            assert(out@ =~= start + self.bytes());
        }
    }
}

/// The length of the box opening `bytes`, up to their end for one running to its end
pub open spec fn box_len(bytes: Seq<u8>) -> int {
    match read_size(bytes).spec_total_bytes() {
        Some(total) => total as int,
        None => bytes.len() as int,
    }
}

/// The boxes `bytes` hold one after another, each as the bytes it lies as, and
/// the failure of the first that does not frame, if one does not
///
/// A box declaring more than the bytes left to it does not frame; a box
/// declaring no total runs to their end.
pub open spec fn children_of(bytes: Seq<u8>) -> (Seq<Seq<u8>>, Option<BoxError>)
    decreases bytes.len(),
{
    if bytes.len() == 0 {
        (Seq::empty(), None)
    } else if decode_failure(bytes) is Some {
        (Seq::empty(), decode_failure(bytes))
    } else if box_len(bytes) > bytes.len() {
        (Seq::empty(), Some(BoxError::TruncatedPayload { needed: box_len(bytes) as u64, available: bytes.len() as u64 }))
    } else {
        let rest = children_of(bytes.subrange(box_len(bytes), bytes.len() as int));
        (seq![bytes.subrange(0, box_len(bytes))] + rest.0, rest.1)
    }
}

/// Whether `child` is the box that lies as `bytes`
pub open spec fn kept_as(child: AnyBox, bytes: Seq<u8>) -> bool {
    &&& child.bytes() == bytes
    &&& child.header.spec_len() == needed_len(bytes)
}

/// Returns the boxes `bytes` hold one after another, and the failure of the first that does not frame
///
/// The boxes before that failure are all returned.
pub fn split_children(bytes: &[u8]) -> (split: (Vec<AnyBox>, Option<BoxError>))
    ensures
        split.0@.len() == children_of(bytes@).0.len(),
        forall|i: int| 0 <= i < split.0@.len() ==> kept_as(#[trigger] split.0@[i], children_of(bytes@).0[i]),
        split.1 == children_of(bytes@).1,
{
    let mut children: Vec<AnyBox> = Vec::new();
    let mut at: usize = 0;
    let ghost whole = children_of(bytes@);
    proof {
        assert(bytes@.subrange(0, bytes@.len() as int) =~= bytes@);
        assert(children@.map_values(|child: AnyBox| child.bytes()) =~= Seq::<Seq<u8>>::empty());
        assert(whole.0 =~= children@.map_values(|child: AnyBox| child.bytes()) + whole.0);
    }
    loop
        invariant
            at <= bytes@.len(),
            whole == children_of(bytes@),
            whole.0 == children@.map_values(|child: AnyBox| child.bytes()) + children_of(bytes@.subrange(at as int, bytes@.len() as int)).0,
            whole.1 == children_of(bytes@.subrange(at as int, bytes@.len() as int)).1,
            forall|i: int| 0 <= i < children@.len() ==> kept_as(#[trigger] children@[i], whole.0[i]),
        decreases bytes@.len() - at,
    {
        let rest = vstd::slice::slice_subrange(bytes, at, bytes.len());
        let ghost rest_view = rest@;
        if rest.len() == 0 {
            proof {
                assert(children@.map_values(|child: AnyBox| child.bytes()) + Seq::<Seq<u8>>::empty() =~= children@.map_values(|child: AnyBox| child.bytes()));
            }
            return (children, None);
        }
        let (header, header_len) = match BoxHeader::decode(rest) {
            Ok(decoded) => decoded,
            Err(failure) => {
                proof {
                    assert(children@.map_values(|child: AnyBox| child.bytes()) + Seq::<Seq<u8>>::empty() =~= children@.map_values(|child: AnyBox| child.bytes()));
                }
                return (children, Some(failure));
            },
        };
        let len: usize = match header.size().total_bytes() {
            Some(total) => {
                if total > rest.len() as u64 {
                    proof {
                        assert(children@.map_values(|child: AnyBox| child.bytes()) + Seq::<Seq<u8>>::empty() =~= children@.map_values(|child: AnyBox| child.bytes()));
                    }
                    return (children, Some(BoxError::TruncatedPayload { needed: total, available: rest.len() as u64 }));
                }
                total as usize
            },
            None => rest.len(),
        };
        let payload = copy_range(rest, header_len, len);
        let child = AnyBox { header, payload };
        let ghost before = children@;
        proof {
            assert(rest_view.subrange(0, len as int) =~= rest_view.subrange(0, header_len as int) + rest_view.subrange(header_len as int, len as int));
            assert(child.bytes() == rest_view.subrange(0, len as int));
            assert(bytes@.subrange(at + len, bytes@.len() as int) =~= rest_view.subrange(len as int, rest_view.len() as int));
        }
        children.push(child);
        at = at + len;
        proof {
            assert(children@.map_values(|child: AnyBox| child.bytes()) =~= before.map_values(|child: AnyBox| child.bytes()).push(child.bytes()));
            assert(whole.0 =~= children@.map_values(|child: AnyBox| child.bytes()) + children_of(bytes@.subrange(at as int, bytes@.len() as int)).0);
            assert forall|i: int| 0 <= i < children@.len() implies kept_as(#[trigger] children@[i], whole.0[i]) by {
                if i < before.len() {
                    assert(children@[i] == before[i]);
                } else {
                    assert(whole.0[i] == rest_view.subrange(0, len as int));
                }
            }
        }
    }
}

/// Returns every byte of `bytes`, owned
pub fn copy_all(bytes: &[u8]) -> (copied: Vec<u8>)
    ensures
        copied@ == bytes@,
{
    let copied = copy_range(bytes, 0, bytes.len());
    assert(bytes@.subrange(0, bytes@.len() as int) =~= bytes@);
    copied
}

/// Returns the bytes of `bytes` from `from` to `to`
fn copy_range(bytes: &[u8], from: usize, to: usize) -> (copied: Vec<u8>)
    requires
        from <= to <= bytes@.len(),
    ensures
        copied@ == bytes@.subrange(from as int, to as int),
{
    let mut copied: Vec<u8> = Vec::new();
    let mut i = from;
    while i < to
        invariant
            from <= i <= to <= bytes@.len(),
            copied@ == bytes@.subrange(from as int, i as int),
        decreases to - i,
    {
        copied.push(bytes[i]);
        i = i + 1;
        assert(copied@ =~= bytes@.subrange(from as int, i as int));
    }
    copied
}

/// Whether `bytes` are one whole box, declaring the total they run to
pub open spec fn lone_box(bytes: Seq<u8>) -> bool {
    &&& bytes.len() > 0
    &&& decode_failure(bytes) is None
    &&& read_size(bytes).spec_total_bytes() is Some
    &&& box_len(bytes) == bytes.len()
}

/// A whole box reads the same whatever follows it
pub proof fn lemma_lone_box_prefix(bytes: Seq<u8>, rest: Seq<u8>)
    requires
        lone_box(bytes),
    ensures
        decode_failure(bytes + rest) is None,
        needed_len(bytes + rest) == needed_len(bytes),
        read_size(bytes + rest) == read_size(bytes),
        type_field_of(bytes + rest) == type_field_of(bytes),
        box_len(bytes + rest) == bytes.len(),
{
    let longer = bytes + rest;
    assert(bytes.len() >= 8);
    assert(longer[0] == bytes[0] && longer[1] == bytes[1] && longer[2] == bytes[2] && longer[3] == bytes[3]);
    assert(longer[4] == bytes[4] && longer[5] == bytes[5] && longer[6] == bytes[6] && longer[7] == bytes[7]);
    assert(size_field_of(longer) == size_field_of(bytes));
    assert(type_field_of(longer) == type_field_of(bytes));
    if size_field_of(bytes) == 1 {
        assert(longer.subrange(8, 16) =~= bytes.subrange(8, 16));
    }
}

/// The children of a whole box followed by more are that box, then the children of the rest
pub proof fn lemma_children_of_lone_box(bytes: Seq<u8>, rest: Seq<u8>)
    requires
        lone_box(bytes),
    ensures
        children_of(bytes + rest) == (seq![bytes] + children_of(rest).0, children_of(rest).1),
{
    lemma_lone_box_prefix(bytes, rest);
    let longer = bytes + rest;
    assert(longer.subrange(0, bytes.len() as int) =~= bytes);
    assert(longer.subrange(bytes.len() as int, longer.len() as int) =~= rest);
}

} // verus!
