//! The boxes a sample entry holds behind its fields, kept as they came and written back

use vstd::prelude::*;

use crate::bytes::saturated;
use crate::sequence::children::{children_of, lemma_children_of_lone_box, lone_box, AnyBox};

verus! {

/// The bytes the boxes `boxes` lie as, end to end
pub open spec fn boxes_bytes(boxes: Seq<Seq<u8>>) -> Seq<u8>
    decreases boxes.len(),
{
    if boxes.len() == 0 {
        Seq::empty()
    } else {
        boxes_bytes(boxes.drop_last()) + boxes.last()
    }
}

/// The bytes each box of `boxes` lies as
pub open spec fn kept_bytes(boxes: Seq<AnyBox>) -> Seq<Seq<u8>> {
    boxes.map_values(|kept: AnyBox| kept.bytes())
}

/// Appends the bytes the boxes `boxes` are written as, in turn
pub fn encode_boxes(boxes: &[AnyBox], out: &mut Vec<u8>)
    ensures
        final(out)@ == old(out)@ + boxes_bytes(kept_bytes(boxes@)),
{
    let ghost start = out@;
    let mut i: usize = 0;
    while i < boxes.len()
        invariant
            0 <= i <= boxes@.len(),
            out@ == start + boxes_bytes(kept_bytes(boxes@.subrange(0, i as int))),
        decreases boxes@.len() - i,
    {
        let ghost before = out@;
        boxes[i].encode(out);
        i = i + 1;
        proof {
            let taken = kept_bytes(boxes@.subrange(0, i as int));
            assert(taken.drop_last() =~= kept_bytes(boxes@.subrange(0, i - 1)));
            assert(taken.last() == boxes@[i - 1].bytes());
            assert(out@ =~= start + boxes_bytes(taken));
        }
    }
    proof {
        assert(boxes@.subrange(0, boxes@.len() as int) =~= boxes@);
    }
}

/// The length the boxes `boxes` are written in, held at the largest count where it runs past it
pub open spec fn boxes_len(boxes: Seq<Seq<u8>>) -> u64 {
    saturated(boxes_bytes(boxes).len() as int)
}

/// Returns the length the boxes `boxes` are written in, held at the largest count where it runs past it
pub fn encoded_boxes_len(boxes: &[AnyBox]) -> (len: u64)
    ensures
        len == boxes_len(kept_bytes(boxes@)),
{
    let mut total: u64 = 0;
    let mut i: usize = 0;
    while i < boxes.len()
        invariant
            0 <= i <= boxes@.len(),
            total == saturated(boxes_bytes(kept_bytes(boxes@.subrange(0, i as int))).len() as int),
        decreases boxes@.len() - i,
    {
        let len = boxes[i].encoded_len();
        total = total.saturating_add(len);
        i = i + 1;
        proof {
            let taken = kept_bytes(boxes@.subrange(0, i as int));
            assert(taken.drop_last() =~= kept_bytes(boxes@.subrange(0, i - 1)));
            assert(taken.last() == boxes@[i - 1].bytes());
        }
    }
    proof {
        assert(boxes@.subrange(0, boxes@.len() as int) =~= boxes@);
    }
    total
}

/// The bytes of boxes end to end are the first box, then the rest
pub proof fn lemma_boxes_bytes_front(boxes: Seq<Seq<u8>>)
    requires
        boxes.len() > 0,
    ensures
        boxes_bytes(boxes) == boxes[0] + boxes_bytes(boxes.drop_first()),
    decreases boxes.len(),
{
    if boxes.len() == 1 {
        assert(boxes.drop_last() =~= Seq::<Seq<u8>>::empty());
        assert(boxes.drop_first() =~= Seq::<Seq<u8>>::empty());
        assert(boxes_bytes(boxes) =~= boxes[0] + boxes_bytes(boxes.drop_first()));
    } else {
        lemma_boxes_bytes_front(boxes.drop_last());
        assert(boxes.drop_last().drop_first() =~= boxes.drop_first().drop_last());
        assert(boxes.drop_first().last() == boxes.last());
        assert(boxes.drop_last()[0] == boxes[0]);
        assert(boxes_bytes(boxes) =~= boxes[0] + boxes_bytes(boxes.drop_first()));
    }
}

/// Whole boxes laid end to end split back into those boxes
pub proof fn lemma_children_of_boxes(boxes: Seq<Seq<u8>>)
    requires
        forall|k: int| 0 <= k < boxes.len() ==> lone_box(#[trigger] boxes[k]),
    ensures
        children_of(boxes_bytes(boxes)) == (boxes, None::<crate::bytes::BoxError>),
    decreases boxes.len(),
{
    if boxes.len() == 0 {
    } else {
        lemma_boxes_bytes_front(boxes);
        let rest = boxes.drop_first();
        assert forall|k: int| 0 <= k < rest.len() implies lone_box(#[trigger] rest[k]) by {
            assert(rest[k] == boxes[k + 1]);
        }
        lemma_children_of_boxes(rest);
        assert(lone_box(boxes[0]));
        lemma_children_of_lone_box(boxes[0], boxes_bytes(rest));
        assert(seq![boxes[0]] + rest =~= boxes);
    }
}

} // verus!
