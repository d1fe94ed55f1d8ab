//! [`BoxEvent`], one step of the sequence of boxes of ISO/IEC 14496-12 §4.2, and the framing the steps follow

use vstd::prelude::*;

use crate::sequence::header::{lemma_header_written_once, plain, BoxHeader};

verus! {

/// Step of the sequence of boxes, owning the bytes it carries
///
/// A box is one [`Header`](Self::Header), then as many
/// [`Payload`](Self::Payload) steps as its payload was cut into, then
/// [`End`](Self::End). The bytes one step is made of are the header alone for
/// a header, that part of the payload for a payload, and none for an end.
#[derive(Clone, PartialEq, Eq, Debug)]
pub enum BoxEvent {
    /// Header of the box that started
    Header(BoxHeader),
    /// Part of the payload of the box that started, as it lay in the input
    Payload(Vec<u8>),
    /// End of the box that started, its declared total reached
    End,
}

/// The bytes one event was written as, owned by whoever takes them
///
/// The bytes of a [`Header`](BoxEvent::Header) are the header encoded, and
/// those of a [`Payload`](BoxEvent::Payload) are the very allocation the event
/// carried, handed back by [`into_vec`](Self::into_vec) as it stands.
#[derive(Clone, PartialEq, Eq, Debug)]
pub struct EventBytes {
    bytes: Vec<u8>,
}

impl View for EventBytes {
    type V = Seq<u8>;

    closed spec fn view(&self) -> Seq<u8> {
        self.bytes@
    }
}

impl EventBytes {
    /// Encodes the header of a box that started
    pub fn header(header: BoxHeader) -> (bytes: Self)
        ensures
            bytes@ == header.encoding(),
    {
        let mut encoded: Vec<u8> = Vec::new();
        header.encode(&mut encoded);
        proof {
            assert(encoded@ =~= header.encoding());
        }
        EventBytes { bytes: encoded }
    }

    /// Takes the payload a box was handed, as it lies
    pub fn payload(payload: Vec<u8>) -> (bytes: Self)
        ensures
            bytes@ == payload@,
    {
        EventBytes { bytes: payload }
    }

    /// Returns the bytes
    pub fn as_slice(&self) -> (bytes: &[u8])
        ensures
            bytes@ == self@,
    {
        self.bytes.as_slice()
    }

    /// Hands the bytes over as a `Vec`
    pub fn into_vec(self) -> (bytes: Vec<u8>)
        ensures
            bytes@ == self@,
    {
        self.bytes
    }
}

/// A step of the sequence, its payload bytes taken as a sequence
pub enum EventView {
    /// Header of the box that started
    Header(BoxHeader),
    /// Part of the payload of the box that started
    Payload(Seq<u8>),
    /// End of the box that started
    End,
}

/// The step `event` is, its payload bytes taken as a sequence
pub open spec fn event_view(event: BoxEvent) -> EventView {
    match event {
        BoxEvent::Header(header) => EventView::Header(header),
        BoxEvent::Payload(payload) => EventView::Payload(payload@),
        BoxEvent::End => EventView::End,
    }
}

/// The bytes of the file a step is made of
pub open spec fn event_bytes(event: EventView) -> Seq<u8> {
    match event {
        EventView::Header(header) => header.encoding(),
        EventView::Payload(payload) => payload,
        EventView::End => Seq::empty(),
    }
}

/// Where the sequence stands between two steps
pub enum Framing {
    /// Between boxes, ready for the one that starts next
    Between,
    /// Inside the box `header` opened, `taken` bytes of its payload carried so far
    Open { header: BoxHeader, taken: nat },
    /// Past the end of the box running to the end of the file
    Closed,
    /// The steps do not form boxes
    Broken,
}

/// Where the sequence stands after `event`, having stood at `framing`
///
/// A payload never runs past the payload its box declares, and an end comes
/// once that payload is all there.
pub open spec fn step(framing: Framing, event: EventView) -> Framing {
    match framing {
        Framing::Between => match event {
            EventView::Header(header) => Framing::Open { header, taken: 0 },
            _ => Framing::Broken,
        },
        Framing::Open { header, taken } => match event {
            EventView::Payload(payload) => {
                let reached = taken + payload.len();
                if header.spec_payload_len() is None || reached <= header.spec_payload_len()->0 {
                    Framing::Open { header, taken: reached }
                } else {
                    Framing::Broken
                }
            },
            EventView::End => match header.spec_payload_len() {
                Some(declared) => if taken == declared { Framing::Between } else { Framing::Broken },
                None => Framing::Closed,
            },
            EventView::Header(_) => Framing::Broken,
        },
        _ => Framing::Broken,
    }
}

/// Where the sequence stands after the steps `made`, each with the extent of the file it covers
pub open spec fn framing(made: Seq<(int, int, EventView)>) -> Framing
    decreases made.len(),
{
    if made.len() == 0 {
        Framing::Between
    } else {
        step(framing(made.drop_last()), made.last().2)
    }
}

/// Where the steps `made` end in the file
pub open spec fn made_end(made: Seq<(int, int, EventView)>) -> int {
    if made.len() == 0 {
        0
    } else {
        made.last().1
    }
}

/// Whether the steps `made` lie end to end from offset zero
pub open spec fn end_to_end(made: Seq<(int, int, EventView)>) -> bool {
    &&& made.len() > 0 ==> made[0].0 == 0
    &&& forall|i: int| 0 <= i < made.len() ==> (#[trigger] made[i]).0 <= made[i].1
    &&& forall|i: int, j: int|
        #![trigger made[i], made[j]]
        0 <= i && j == i + 1 && j < made.len() ==> made[j].0 == made[i].1
}

/// Whether the steps `made` lie end to end from the start of `file`, each over the bytes it is made of
pub open spec fn lays_out(file: Seq<u8>, made: Seq<(int, int, EventView)>) -> bool {
    &&& made_end(made) <= file.len()
    &&& end_to_end(made)
    &&& forall|i: int| 0 <= i < made.len() ==> file.subrange((#[trigger] made[i]).0, made[i].1) == event_bytes(made[i].2)
}

/// Whether no payload among the steps `made` is empty
pub open spec fn payloads_not_empty(made: Seq<(int, int, EventView)>) -> bool {
    forall|i: int| 0 <= i < made.len() ==> (#[trigger] made[i]).2 is Payload ==> made[i].2->Payload_0.len() > 0
}

/// Steps made one after another stand where the last one leaves the ones before it
pub proof fn lemma_framing_push(made: Seq<(int, int, EventView)>, next: (int, int, EventView))
    ensures
        framing(made.push(next)) == step(framing(made), next.2),
        made_end(made.push(next)) == next.1,
{
    assert(made.push(next).drop_last() =~= made);
}

/// A step laid over the bytes that follow the steps before it keeps them laid out
pub proof fn lemma_lays_out_push(file: Seq<u8>, made: Seq<(int, int, EventView)>, next: (int, int, EventView))
    requires
        lays_out(file, made),
        next.0 == made_end(made),
        next.0 <= next.1 <= file.len(),
        file.subrange(next.0, next.1) == event_bytes(next.2),
    ensures
        lays_out(file, made.push(next)),
{
    let pushed = made.push(next);
    assert forall|i: int| 0 <= i < pushed.len() implies (#[trigger] pushed[i]).0 <= pushed[i].1 by {
        if i < made.len() {
            assert(pushed[i] == made[i]);
        }
    }
    assert forall|i: int, j: int|
        #![trigger pushed[i], pushed[j]]
        0 <= i && j == i + 1 && j < pushed.len() implies pushed[j].0 == pushed[i].1 by {
        assert(pushed[i] == made[i]);
        if j < made.len() {
            assert(pushed[j] == made[j]);
        }
    }
    if made.len() > 0 {
        assert(pushed[0] == made[0]);
    }
    assert forall|i: int| 0 <= i < pushed.len() implies file.subrange((#[trigger] pushed[i]).0, pushed[i].1) == event_bytes(pushed[i].2) by {
        if i < made.len() {
            assert(pushed[i] == made[i]);
        }
    }
    lemma_framing_push(made, next);
}

/// Steps laid out over a file stay laid out over a longer one it begins
pub proof fn lemma_lays_out_extend(file: Seq<u8>, more: Seq<u8>, made: Seq<(int, int, EventView)>)
    requires
        lays_out(file, made),
    ensures
        lays_out(file + more, made),
{
    let longer = file + more;
    assert forall|i: int| 0 <= i < made.len() implies longer.subrange((#[trigger] made[i]).0, made[i].1) == event_bytes(made[i].2) by {
        lemma_made_within(made, i);
        assert(longer.subrange(made[i].0, made[i].1) =~= file.subrange(made[i].0, made[i].1));
    }
}

/// Every step of steps laid end to end lies between offset zero and the end of the last
pub proof fn lemma_made_within(made: Seq<(int, int, EventView)>, i: int)
    requires
        end_to_end(made),
        0 <= i < made.len(),
    ensures
        0 <= made[i].0 <= made[i].1 <= made_end(made),
{
    assert forall|j: int| 0 <= j < made.len() implies 0 <= #[trigger] made[j].0 by {
        lemma_made_start(made, j);
    }
    assert forall|j: int| i <= j < made.len() implies made[i].1 <= #[trigger] made[j].1 by {
        lemma_made_rising(made, i, j);
    }
    let _ = made[made.len() - 1];
}

/// No step of steps laid end to end begins before offset zero
proof fn lemma_made_start(made: Seq<(int, int, EventView)>, i: int)
    requires
        end_to_end(made),
        0 <= i < made.len(),
    ensures
        0 <= made[i].0,
    decreases i,
{
    let _ = made[i];
    if i > 0 {
        let _ = made[i - 1];
        lemma_made_start(made, i - 1);
    }
}

/// Steps laid end to end end no earlier than the steps before them
proof fn lemma_made_rising(made: Seq<(int, int, EventView)>, i: int, j: int)
    requires
        end_to_end(made),
        0 <= i <= j < made.len(),
    ensures
        made[i].1 <= made[j].1,
    decreases j - i,
{
    if i < j {
        let _ = made[j];
        let _ = made[j - 1];
        lemma_made_rising(made, i, j - 1);
    }
}

/// The bytes the steps `made` are made of, end to end
pub open spec fn events_bytes(made: Seq<(int, int, EventView)>) -> Seq<u8>
    decreases made.len(),
{
    if made.len() == 0 {
        Seq::empty()
    } else {
        events_bytes(made.drop_last()) + event_bytes(made.last().2)
    }
}

/// The steps before the last of steps laid out over a file are laid out over it too
proof fn lemma_lays_out_prefix(file: Seq<u8>, made: Seq<(int, int, EventView)>)
    requires
        lays_out(file, made),
        made.len() > 0,
    ensures
        lays_out(file, made.drop_last()),
        made.last().0 == made_end(made.drop_last()),
{
    let prefix = made.drop_last();
    let last = made.len() - 1;
    assert forall|i: int| 0 <= i < prefix.len() implies (#[trigger] prefix[i]).0 <= prefix[i].1 by {
        assert(prefix[i] == made[i]);
    }
    assert forall|i: int, j: int|
        #![trigger prefix[i], prefix[j]]
        0 <= i && j == i + 1 && j < prefix.len() implies prefix[j].0 == prefix[i].1 by {
        assert(prefix[i] == made[i]);
        assert(prefix[j] == made[j]);
    }
    assert forall|i: int| 0 <= i < prefix.len() implies file.subrange((#[trigger] prefix[i]).0, prefix[i].1) == event_bytes(prefix[i].2) by {
        assert(prefix[i] == made[i]);
        let _ = made[i];
    }
    if prefix.len() > 0 {
        assert(prefix[0] == made[0]);
        let _ = made[last - 1];
        let _ = made[last];
        lemma_made_within(made, last - 1);
        assert(prefix.last() == made[last - 1]);
    }
}

/// Steps laid out over a file are the bytes of the file up to where they end
pub proof fn lemma_laid_out_bytes(file: Seq<u8>, made: Seq<(int, int, EventView)>)
    requires
        lays_out(file, made),
    ensures
        file.subrange(0, made_end(made)) == events_bytes(made),
        made_end(made) == events_bytes(made).len(),
    decreases made.len(),
{
    if made.len() > 0 {
        let prefix = made.drop_last();
        let last = made.last();
        lemma_lays_out_prefix(file, made);
        lemma_laid_out_bytes(file, prefix);
        lemma_made_within(made, made.len() - 1);
        let _ = made[made.len() - 1];
        assert(file.subrange(last.0, last.1) == event_bytes(last.2));
        assert(file.subrange(0, last.1) =~= file.subrange(0, last.0) + file.subrange(last.0, last.1));
    } else {
        assert(file.subrange(0, 0) =~= Seq::<u8>::empty());
    }
}

/// The same steps laid out over two files lie over the same bytes of each
pub proof fn lemma_same_events_same_bytes(
    file: Seq<u8>,
    made: Seq<(int, int, EventView)>,
    other_file: Seq<u8>,
    other_made: Seq<(int, int, EventView)>,
)
    requires
        lays_out(file, made),
        lays_out(other_file, other_made),
        made.len() == other_made.len(),
        forall|i: int| 0 <= i < made.len() ==> (#[trigger] made[i]).2 == other_made[i].2,
    ensures
        made_end(made) == made_end(other_made),
        file.subrange(0, made_end(made)) == other_file.subrange(0, made_end(other_made)),
{
    lemma_same_events_bytes(made, other_made);
    lemma_laid_out_bytes(file, made);
    lemma_laid_out_bytes(other_file, other_made);
}

/// Steps that are the same are made of the same bytes
proof fn lemma_same_events_bytes(made: Seq<(int, int, EventView)>, other_made: Seq<(int, int, EventView)>)
    requires
        made.len() == other_made.len(),
        forall|i: int| 0 <= i < made.len() ==> (#[trigger] made[i]).2 == other_made[i].2,
    ensures
        events_bytes(made) == events_bytes(other_made),
    decreases made.len(),
{
    if made.len() > 0 {
        let last = made.len() - 1;
        assert forall|i: int| 0 <= i < made.drop_last().len() implies (#[trigger] made.drop_last()[i]).2 == other_made.drop_last()[i].2 by {
            assert(made[i].2 == other_made[i].2);
        }
        lemma_same_events_bytes(made.drop_last(), other_made.drop_last());
        assert(made[last].2 == other_made[last].2);
    }
}

/// Whether every header among the steps `made` is one a reader gives back
pub open spec fn headers_plain(made: Seq<(int, int, EventView)>) -> bool {
    forall|i: int| 0 <= i < made.len() ==> (#[trigger] made[i]).2 is Header ==> plain(made[i].2->Header_0)
}

/// Whether no payload among the steps `made` directly follows another
pub open spec fn fused(made: Seq<(int, int, EventView)>) -> bool {
    forall|i: int, j: int|
        #![trigger made[i], made[j]]
        0 <= i && j == i + 1 && j < made.len() ==> !(made[i].2 is Payload && made[j].2 is Payload)
}

/// The steps `made` with each run of payloads fused into one, over the extent of the whole run
pub open spec fn fuse(made: Seq<(int, int, EventView)>) -> Seq<(int, int, EventView)>
    decreases made.len(),
{
    if made.len() == 0 {
        Seq::empty()
    } else {
        let before = fuse(made.drop_last());
        let last = made.last();
        if last.2 is Payload && before.len() > 0 && before.last().2 is Payload {
            before.drop_last().push(
                (before.last().0, last.1, EventView::Payload(before.last().2->Payload_0 + last.2->Payload_0)),
            )
        } else {
            before.push(last)
        }
    }
}

/// Whether the steps `made` are the whole of `file`: laid out over all of it,
/// forming whole boxes, each header one a reader gives back, and no payload
/// empty or cut in two
pub open spec fn whole_file(file: Seq<u8>, made: Seq<(int, int, EventView)>) -> bool {
    &&& lays_out(file, made)
    &&& made_end(made) == file.len()
    &&& (framing(made) is Between || framing(made) is Closed)
    &&& payloads_not_empty(made)
    &&& headers_plain(made)
    &&& fused(made)
}

/// Fusing the runs of payloads of steps laid out over a file keeps them laid
/// out over it, standing where they stood
pub proof fn lemma_fuse_keeps(file: Seq<u8>, made: Seq<(int, int, EventView)>)
    requires
        lays_out(file, made),
        !(framing(made) is Broken),
        payloads_not_empty(made),
        headers_plain(made),
    ensures
        lays_out(file, fuse(made)),
        framing(fuse(made)) == framing(made),
        made_end(fuse(made)) == made_end(made),
        payloads_not_empty(fuse(made)),
        headers_plain(fuse(made)),
        fused(fuse(made)),
    decreases made.len(),
{
    if made.len() > 0 {
        let prefix = made.drop_last();
        let last = made.last();
        lemma_lays_out_prefix(file, made);
        lemma_framing_push(prefix, last);
        assert(made =~= prefix.push(last));
        if framing(prefix) is Broken {
            assert(step(framing(prefix), last.2) is Broken);
        }
        assert forall|i: int| 0 <= i < prefix.len() implies (#[trigger] prefix[i]).2 is Payload ==> prefix[i].2->Payload_0.len() > 0 by {
            assert(prefix[i] == made[i]);
        }
        assert forall|i: int| 0 <= i < prefix.len() implies (#[trigger] prefix[i]).2 is Header ==> plain(prefix[i].2->Header_0) by {
            assert(prefix[i] == made[i]);
        }
        lemma_fuse_keeps(file, prefix);
        let before = fuse(prefix);
        let at = made.len() - 1;
        let _ = made[at];
        lemma_made_within(made, at);
        if at > 0 {
            let _ = made[at - 1];
        }
        assert(last.0 == made_end(prefix));
        assert(file.subrange(last.0, last.1) == event_bytes(last.2));
        if last.2 is Payload && before.len() > 0 && before.last().2 is Payload {
            let run = before.last();
            let rest = before.drop_last();
            lemma_lays_out_prefix(file, before);
            lemma_framing_push(rest, run);
            assert(before =~= rest.push(run));
            let merged = (run.0, last.1, EventView::Payload(run.2->Payload_0 + last.2->Payload_0));
            lemma_made_within(before, before.len() - 1);
            assert(run.1 == made_end(before));
            assert(file.subrange(run.0, last.1) =~= file.subrange(run.0, run.1) + file.subrange(last.0, last.1));
            assert(file.subrange(run.0, run.1) == event_bytes(run.2)) by {
                let _ = before[before.len() - 1];
            }
            lemma_lays_out_push(file, rest, merged);
            lemma_framing_push(rest, merged);
            let fused_made = rest.push(merged);
            assert(fuse(made) == fused_made);
            assert forall|i: int| 0 <= i < fused_made.len() implies (#[trigger] fused_made[i]).2 is Payload ==> fused_made[i].2->Payload_0.len() > 0 by {
                if i < rest.len() {
                    assert(fused_made[i] == before[i]);
                }
            }
            assert forall|i: int| 0 <= i < fused_made.len() implies (#[trigger] fused_made[i]).2 is Header ==> plain(fused_made[i].2->Header_0) by {
                if i < rest.len() {
                    assert(fused_made[i] == before[i]);
                }
            }
            assert forall|i: int, j: int|
                #![trigger fused_made[i], fused_made[j]]
                0 <= i && j == i + 1 && j < fused_made.len() implies !(fused_made[i].2 is Payload && fused_made[j].2 is Payload) by {
                assert(fused_made[i] == before[i]);
                if j < rest.len() {
                    assert(fused_made[j] == before[j]);
                } else {
                    assert(before[j] == run);
                }
            }
        } else {
            lemma_lays_out_push(file, before, last);
            lemma_framing_push(before, last);
            let fused_made = before.push(last);
            assert(fuse(made) == fused_made);
            assert forall|i: int| 0 <= i < fused_made.len() implies (#[trigger] fused_made[i]).2 is Payload ==> fused_made[i].2->Payload_0.len() > 0 by {
                if i < before.len() {
                    assert(fused_made[i] == before[i]);
                } else {
                    assert(fused_made[i] == made[at]);
                }
            }
            assert forall|i: int| 0 <= i < fused_made.len() implies (#[trigger] fused_made[i]).2 is Header ==> plain(fused_made[i].2->Header_0) by {
                if i < before.len() {
                    assert(fused_made[i] == before[i]);
                } else {
                    assert(fused_made[i] == made[at]);
                }
            }
            assert forall|i: int, j: int|
                #![trigger fused_made[i], fused_made[j]]
                0 <= i && j == i + 1 && j < fused_made.len() implies !(fused_made[i].2 is Payload && fused_made[j].2 is Payload) by {
                assert(fused_made[i] == before[i]);
                if j < before.len() {
                    assert(fused_made[j] == before[j]);
                }
            }
        }
    }
}

/// Where the first `k` steps stand, and the step after them
proof fn lemma_prefix_framing(made: Seq<(int, int, EventView)>, k: int)
    requires
        0 <= k < made.len(),
    ensures
        framing(made.subrange(0, k + 1)) == step(framing(made.subrange(0, k)), made[k].2),
        made_end(made.subrange(0, k + 1)) == made[k].1,
{
    assert(made.subrange(0, k + 1).drop_last() =~= made.subrange(0, k));
}

/// Steps that do not break down do not break down anywhere before their end
proof fn lemma_prefix_not_broken(made: Seq<(int, int, EventView)>, k: int)
    requires
        !(framing(made) is Broken),
        0 <= k <= made.len(),
    ensures
        !(framing(made.subrange(0, k)) is Broken),
    decreases made.len() - k,
{
    if k == made.len() {
        assert(made.subrange(0, k) =~= made);
    } else {
        lemma_prefix_not_broken(made, k + 1);
        lemma_prefix_framing(made, k);
    }
}

/// A step of steps laid end to end begins where the steps before it end
proof fn lemma_step_begins(made: Seq<(int, int, EventView)>, k: int)
    requires
        end_to_end(made),
        0 <= k < made.len(),
    ensures
        made[k].0 == made_end(made.subrange(0, k)),
{
    if k > 0 {
        let _ = made[k - 1];
        let _ = made[k];
        assert(made.subrange(0, k).last() == made[k - 1]);
    }
}

/// Two sets of steps that are each the whole of a file, and agree on their
/// first `k` steps, are the same steps
proof fn lemma_whole_file_agree(file: Seq<u8>, a: Seq<(int, int, EventView)>, b: Seq<(int, int, EventView)>, k: int)
    requires
        whole_file(file, a),
        whole_file(file, b),
        0 <= k <= a.len(),
        k <= b.len(),
        a.subrange(0, k) == b.subrange(0, k),
    ensures
        a == b,
    decreases a.len() - k,
{
    let prefix = a.subrange(0, k);
    lemma_prefix_not_broken(a, k);
    let state = framing(prefix);
    let at = made_end(prefix);
    if k == a.len() {
        assert(prefix =~= a);
        if k < b.len() {
            lemma_prefix_framing(b, k);
            lemma_prefix_not_broken(b, k + 1);
            lemma_step_begins(b, k);
            lemma_made_within(b, k);
            let _ = b[k];
            assert(file.subrange(b[k].0, b[k].1) == event_bytes(b[k].2));
            if b[k].2 is Header {
                crate::sequence::header::lemma_type_of_encoding(b[k].2->Header_0, Seq::empty());
            }
        }
        assert(b.subrange(0, k) =~= b);
    } else if k == b.len() {
        assert(b.subrange(0, k) =~= b);
        lemma_prefix_framing(a, k);
        lemma_prefix_not_broken(a, k + 1);
        lemma_step_begins(a, k);
        lemma_made_within(a, k);
        let _ = a[k];
        assert(file.subrange(a[k].0, a[k].1) == event_bytes(a[k].2));
        if a[k].2 is Header {
            crate::sequence::header::lemma_type_of_encoding(a[k].2->Header_0, Seq::empty());
        }
    } else {
        lemma_steps_agree(file, a, b, k);
        assert(a.subrange(0, k + 1) =~= a.subrange(0, k).push(a[k]));
        assert(b.subrange(0, k + 1) =~= b.subrange(0, k).push(b[k]));
        lemma_whole_file_agree(file, a, b, k + 1);
    }
}

/// Two sets of steps that are each the whole of a file, and agree on their
/// first `k` steps, agree on the step after them
proof fn lemma_steps_agree(file: Seq<u8>, a: Seq<(int, int, EventView)>, b: Seq<(int, int, EventView)>, k: int)
    requires
        whole_file(file, a),
        whole_file(file, b),
        0 <= k < a.len(),
        k < b.len(),
        a.subrange(0, k) == b.subrange(0, k),
    ensures
        a[k] == b[k],
{
    let prefix = a.subrange(0, k);
    let state = framing(prefix);
    lemma_prefix_framing(a, k);
    lemma_prefix_framing(b, k);
    lemma_prefix_not_broken(a, k + 1);
    lemma_prefix_not_broken(b, k + 1);
    lemma_step_begins(a, k);
    lemma_step_begins(b, k);
    lemma_made_within(a, k);
    lemma_made_within(b, k);
    let x = a[k];
    let y = b[k];
    let at = x.0;
    assert(y.0 == at);
    assert(file.subrange(x.0, x.1) == event_bytes(x.2));
    assert(file.subrange(y.0, y.1) == event_bytes(y.2));
    match state {
        Framing::Between => {
            let hx = x.2->Header_0;
            let hy = y.2->Header_0;
            assert(plain(hx));
            assert(plain(hy));
            crate::sequence::header::lemma_type_of_encoding(hx, Seq::empty());
            crate::sequence::header::lemma_type_of_encoding(hy, Seq::empty());
            let rest = file.subrange(at, file.len() as int);
            assert(rest =~= hx.encoding() + file.subrange(x.1, file.len() as int));
            assert(rest =~= hy.encoding() + file.subrange(y.1, file.len() as int));
            lemma_header_written_once(hx, file.subrange(x.1, file.len() as int), hy, file.subrange(y.1, file.len() as int));
        },
        Framing::Open { header, taken } => {
            lemma_open_step_agree(file, a, b, k, header, taken);
        },
        _ => {},
    }
}

/// Inside a box, two sets of steps that are each the whole of a file, and
/// agree on their first `k` steps, agree on the step after them
proof fn lemma_open_step_agree(
    file: Seq<u8>,
    a: Seq<(int, int, EventView)>,
    b: Seq<(int, int, EventView)>,
    k: int,
    header: BoxHeader,
    taken: nat,
)
    requires
        whole_file(file, a),
        whole_file(file, b),
        0 <= k < a.len(),
        k < b.len(),
        a.subrange(0, k) == b.subrange(0, k),
        framing(a.subrange(0, k)) == (Framing::Open { header, taken }),
        a[k].0 == b[k].0,
        0 <= a[k].0 <= a[k].1 <= file.len(),
        0 <= b[k].0 <= b[k].1 <= file.len(),
        file.subrange(a[k].0, a[k].1) == event_bytes(a[k].2),
        file.subrange(b[k].0, b[k].1) == event_bytes(b[k].2),
        !(step(Framing::Open { header, taken }, a[k].2) is Broken),
        !(step(Framing::Open { header, taken }, b[k].2) is Broken),
    ensures
        a[k] == b[k],
{
    let x = a[k];
    let y = b[k];
    let at = x.0;
    let after_payload = k > 0 && a[k - 1].2 is Payload;
    if k > 0 {
        let _ = a[k - 1];
        let _ = b[k - 1];
        assert(a[k - 1] == a.subrange(0, k)[k - 1]);
        assert(b[k - 1] == b.subrange(0, k)[k - 1]);
        assert(a[k - 1] == b[k - 1]);
    }
    let _ = a[k];
    let _ = b[k];
    assert(file.subrange(x.0, x.1).len() == x.1 - x.0);
    assert(file.subrange(y.0, y.1).len() == y.1 - y.0);
    if after_payload {
        assert(!(x.2 is Payload));
        assert(!(y.2 is Payload));
    } else {
        lemma_box_payload_settled(file, a, k, header, taken);
        lemma_box_payload_settled(file, b, k, header, taken);
        if x.2 is Payload && y.2 is Payload {
            assert(x.1 == y.1);
            assert(x.2->Payload_0 =~= y.2->Payload_0);
        }
    }
}

/// Right after the header of a box, the step of steps that are the whole of a
/// file is the whole payload the box declares, or its end where it declares none
proof fn lemma_box_payload_settled(file: Seq<u8>, made: Seq<(int, int, EventView)>, k: int, header: BoxHeader, taken: nat)
    requires
        whole_file(file, made),
        0 <= k < made.len(),
        framing(made.subrange(0, k)) == (Framing::Open { header, taken }),
        !(k > 0 && made[k - 1].2 is Payload),
        0 <= made[k].0 <= made[k].1 <= file.len(),
        file.subrange(made[k].0, made[k].1) == event_bytes(made[k].2),
        !(step(Framing::Open { header, taken }, made[k].2) is Broken),
    ensures
        taken == 0,
        made[k].2 is Payload ==> made[k].1 == (match header.spec_payload_len() {
            Some(declared) => made[k].0 + declared,
            None => file.len() as int,
        }),
        made[k].2 is End ==> (match header.spec_payload_len() {
            Some(declared) => declared == 0,
            None => made[k].0 == file.len(),
        }),
        made[k].2 is Payload || made[k].2 is End,
{
    if k == 0 {
        assert(made.subrange(0, 0) =~= Seq::<(int, int, EventView)>::empty());
    } else {
        lemma_prefix_framing(made, k - 1);
        lemma_prefix_not_broken(made, k - 1);
    }
    let x = made[k];
    lemma_prefix_framing(made, k);
    let next_state = step(Framing::Open { header, taken }, x.2);
    assert(framing(made.subrange(0, k + 1)) == next_state);
    assert(file.subrange(x.0, x.1).len() == x.1 - x.0);
    assert(x.1 - x.0 == event_bytes(x.2).len());
    if x.2 is Payload || x.2 is End {
        if k + 1 == made.len() {
            assert(made.subrange(0, k + 1) =~= made);
        } else {
            let y = made[k + 1];
            lemma_prefix_framing(made, k + 1);
            lemma_prefix_not_broken(made, k + 2);
            lemma_step_begins(made, k + 1);
            lemma_made_within(made, k + 1);
            assert(file.subrange(y.0, y.1) == event_bytes(y.2));
            assert(file.subrange(y.0, y.1).len() == y.1 - y.0);
            assert(y.0 == x.1);
            let after_next = step(next_state, y.2);
            if (next_state is Closed || after_next is Closed) && k + 2 < made.len() {
                lemma_prefix_framing(made, k + 2);
                lemma_prefix_not_broken(made, k + 3);
            }
            if k + 2 == made.len() {
                assert(made.subrange(0, k + 2) =~= made);
            }
        }
    }
}

/// Two sets of steps that are each the whole of a file are the same steps
pub proof fn lemma_whole_file_unique(file: Seq<u8>, a: Seq<(int, int, EventView)>, b: Seq<(int, int, EventView)>)
    requires
        whole_file(file, a),
        whole_file(file, b),
    ensures
        a == b,
{
    assert(a.subrange(0, 0) =~= b.subrange(0, 0));
    lemma_whole_file_agree(file, a, b, 0);
}

} // verus!
