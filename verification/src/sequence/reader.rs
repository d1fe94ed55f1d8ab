//! [`BoxReader`], the sequence of boxes of ISO/IEC 14496-12 §4.2 read as the input arrives

use std::collections::VecDeque;
use std::ops::Range;

use vstd::prelude::*;

use crate::bytes::BoxError;
use crate::sequence::error::Error;
use crate::sequence::event::{
    event_bytes, event_view, framing, fuse, headers_plain, lays_out, lemma_framing_push, lemma_fuse_keeps,
    lemma_lays_out_extend, lemma_lays_out_push, lemma_whole_file_unique, made_end, payloads_not_empty, step,
    whole_file, BoxEvent, EventView, Framing,
};
use crate::sequence::header::{decode_failure, lemma_header_written_once, needed_len, plain, BoxHeader, MAX_ENCODED_LEN};

verus! {

/// Where a reader stands between calls, as its contracts speak of it
pub enum ReaderPhase {
    /// Gathering the header of the box that starts next, these bytes of it so far
    Gathering(Seq<u8>),
    /// Passing on the payload of the box `header` opened, `remaining` bytes of it
    /// still to come, none while the box declares no total
    Passing { header: BoxHeader, remaining: Option<u64> },
    /// Told the file is over, and taking no more input
    Finished,
    /// Failed, and reporting that same failure for every call after it
    Failed(Error),
}

/// A reader, as its contracts speak of it
pub struct ReaderView {
    /// Every byte of the file the reader has taken
    pub input: Seq<u8>,
    /// Every event the reader has made, with the extent of the file it was read from
    pub made: Seq<(int, int, EventView)>,
    /// How many of those events were taken by [`BoxReader::poll_event`]
    pub taken: nat,
    /// Where the reader stands
    pub phase: ReaderPhase,
    /// The extent of the event taken last
    pub event_extent: Option<(int, int)>,
}

/// The needed length a header gathered so far reports, as the file ends inside it
pub open spec fn header_reach(gathered: Seq<u8>) -> u64 {
    match decode_failure(gathered) {
        Some(BoxError::TruncatedHeader { needed, .. }) => needed,
        _ => MAX_ENCODED_LEN as u64,
    }
}

/// The header a reader reads off the front of `bytes`, once they hold one whole
pub open spec fn header_read(bytes: Seq<u8>) -> BoxHeader {
    choose|header: BoxHeader| plain(header) && header.encoding() == bytes.subrange(0, needed_len(bytes) as int)
}

/// How far a reader standing at `phase` is from taking input or stopping
pub open spec fn phase_rank(phase: ReaderPhase) -> int {
    match phase {
        ReaderPhase::Gathering(gathered) => if decode_failure(gathered) is Some && decode_failure(gathered)->0 is TruncatedHeader {
            0
        } else {
            2
        },
        ReaderPhase::Passing { remaining, .. } => if remaining == Some(0u64) {
            1
        } else {
            0
        },
        _ => 0,
    }
}

/// What a reader standing at `phase`, having taken the file up to `offset`,
/// makes of the input `input` handed over next: the events, each with the
/// extent of the file it was read from, and where the reader then stands
///
/// A header is framed as soon as it is gathered whole, and a header is
/// gathered no further than its length; an end is made as soon as the payload
/// declared is all there. A payload event carries what is left of the payload
/// or of the input, whichever is less, so the payload is cut where the input
/// was cut, and nowhere else.
pub open spec fn read_on(phase: ReaderPhase, offset: int, input: Seq<u8>) -> (Seq<(int, int, EventView)>, ReaderPhase)
    decreases input.len(), phase_rank(phase),
{
    match phase {
        ReaderPhase::Gathering(gathered) => match decode_failure(gathered) {
            None => {
                let header = header_read(gathered);
                let opened = ReaderPhase::Passing { header, remaining: header.spec_payload_len() };
                let (rest, reached) = read_on(opened, offset, input);
                (seq![(offset - gathered.len(), offset, EventView::Header(header))] + rest, reached)
            },
            Some(BoxError::TruncatedHeader { needed, .. }) => if input.len() == 0 || needed <= gathered.len() {
                (Seq::empty(), phase)
            } else {
                let wanted: int = if needed - gathered.len() < input.len() { needed - gathered.len() } else { input.len() as int };
                read_on(ReaderPhase::Gathering(gathered + input.take(wanted)), offset + wanted, input.skip(wanted))
            },
            Some(failure) => (Seq::empty(), ReaderPhase::Failed(Error::Box(failure))),
        },
        ReaderPhase::Passing { header, remaining } => if remaining == Some(0u64) {
            let (rest, reached) = read_on(ReaderPhase::Gathering(Seq::empty()), offset, input);
            (seq![(offset, offset, EventView::End)] + rest, reached)
        } else if input.len() == 0 {
            (Seq::empty(), phase)
        } else {
            let wanted: int = match remaining {
                Some(still) => if still < input.len() { still as int } else { input.len() as int },
                None => input.len() as int,
            };
            let still = match remaining {
                Some(still) => Some((still - wanted) as u64),
                None => None,
            };
            let (rest, reached) = read_on(ReaderPhase::Passing { header, remaining: still }, offset + wanted, input.skip(wanted));
            (seq![(offset, offset + wanted, EventView::Payload(input.take(wanted)))] + rest, reached)
        },
        _ => (Seq::empty(), phase),
    }
}

/// Where the reader stands between calls
#[derive(Clone, Copy)]
enum State {
    /// Gathering the header of the box that starts next
    Header,
    /// Passing on the payload of the box that started
    Payload { header: BoxHeader, remaining: Option<u64> },
    /// Told the file is over
    Finished,
    /// Failed for good
    Failed(Error),
}

/// Reads the sequence of boxes a file is formed as, taking the input as it arrives
///
/// The reader is handed the input as it arrives and reports the boxes it frames
/// as owned [`BoxEvent`]s, with the bytes each of them covers named by
/// [`event_extent`](Self::event_extent). Every box is passed on as it lies: the
/// reader frames the file and reads no box into a value.
///
/// The events partition the input: each one covers the bytes it was made from,
/// and the extent of one ends where the extent of the next begins. A payload
/// event is never empty; where a payload is cut follows how the caller cut the
/// file, and nothing else does.
pub struct BoxReader {
    state: State,
    gathered: Vec<u8>,
    events: VecDeque<(Range<u64>, BoxEvent)>,
    event_extent: Option<(u64, u64)>,
    position: u64,
    queued_position: u64,
    input: Ghost<Seq<u8>>,
    made: Ghost<Seq<(int, int, EventView)>>,
    taken: Ghost<nat>,
}

/// Whether the queued event `queued` is the made event `made`
spec fn queued_as(queued: (Range<u64>, BoxEvent), made: (int, int, EventView)) -> bool {
    &&& queued.0.start == made.0
    &&& queued.0.end == made.1
    &&& event_view(queued.1) == made.2
}

/// The payload the box `header` opened still has to come, `taken` bytes of it carried
spec fn remaining_after(header: BoxHeader, taken: nat) -> Option<u64> {
    match header.spec_payload_len() {
        Some(declared) => Some((declared - taken) as u64),
        None => None,
    }
}

/// The reader went from `before` to `after` by reading `input` from `at` to
/// `next`, and reading on from `after` makes what reading on from `before` does
spec fn continues(before: ReaderView, after: ReaderView, input: Seq<u8>, at: int, next: int) -> bool {
    let (rest, reached) = read_on(after.phase, after.input.len() as int, input.subrange(next, input.len() as int));
    read_on(before.phase, before.input.len() as int, input.subrange(at, input.len() as int))
        == (after.made.subrange(before.made.len() as int, after.made.len() as int) + rest, reached)
}

/// Reading on from `before` to `middle` and then to `after` is reading on from `before` to `after`
proof fn lemma_continues_chain(before: ReaderView, middle: ReaderView, after: ReaderView, input: Seq<u8>, i: int, j: int, k: int)
    requires
        continues(before, middle, input, i, j),
        continues(middle, after, input, j, k),
        before.made.len() <= middle.made.len() <= after.made.len(),
        after.made.subrange(0, middle.made.len() as int) == middle.made,
    ensures
        continues(before, after, input, i, k),
{
    let first = middle.made.subrange(before.made.len() as int, middle.made.len() as int);
    let second = after.made.subrange(middle.made.len() as int, after.made.len() as int);
    let rest = read_on(after.phase, after.input.len() as int, input.subrange(k, input.len() as int)).0;
    assert(after.made.subrange(before.made.len() as int, after.made.len() as int) =~= first + second);
    assert(first + (second + rest) =~= (first + second) + rest);
}

/// Where reading on from `before` to `after` stops, it has made what reading the whole input makes
proof fn lemma_read_on_ends(before: ReaderView, after: ReaderView, input: Seq<u8>, at: int)
    requires
        0 <= at <= input.len(),
        continues(before, after, input, 0, at),
        before.made.len() <= after.made.len(),
        after.made.subrange(0, before.made.len() as int) == before.made,
        read_on(after.phase, after.input.len() as int, input.subrange(at, input.len() as int))
            == (Seq::<(int, int, EventView)>::empty(), after.phase),
    ensures
        ({
            let (events, reached) = read_on(before.phase, before.input.len() as int, input);
            &&& after.made == before.made + events
            &&& after.phase == reached
        }),
{
    let suffix = after.made.subrange(before.made.len() as int, after.made.len() as int);
    assert(input.subrange(0, input.len() as int) =~= input);
    assert(suffix + Seq::<(int, int, EventView)>::empty() =~= suffix);
    assert(after.made =~= before.made + suffix);
}

impl View for BoxReader {
    type V = ReaderView;

    closed spec fn view(&self) -> ReaderView {
        ReaderView {
            input: self.input@,
            made: self.made@,
            taken: self.taken@,
            phase: match self.state {
                State::Header => ReaderPhase::Gathering(self.gathered@),
                State::Payload { header, remaining } => ReaderPhase::Passing { header, remaining },
                State::Finished => ReaderPhase::Finished,
                State::Failed(failure) => ReaderPhase::Failed(failure),
            },
            event_extent: match self.event_extent {
                Some((start, end)) => Some((start as int, end as int)),
                None => None,
            },
        }
    }
}

impl BoxReader {
    /// The events made, and those still queued, lie over the input as they were read from it
    closed spec fn events_wf(&self) -> bool {
        &&& self.position as int == self.input@.len()
        &&& self.queued_position as int == made_end(self.made@)
        &&& lays_out(self.input@, self.made@)
        &&& !(framing(self.made@) is Broken)
        &&& payloads_not_empty(self.made@)
        &&& headers_plain(self.made@)
        &&& self.taken@ <= self.made@.len()
        &&& self.events@.len() + self.taken@ == self.made@.len()
        &&& forall|j: int| 0 <= j < self.events@.len() ==> queued_as(#[trigger] self.events@[j], self.made@[self.taken@ + j])
        &&& (self.taken@ == 0 <==> self.event_extent is None)
        &&& self.taken@ > 0 ==> self.event_extent == Some(
            (self.made@[self.taken@ - 1].0 as u64, self.made@[self.taken@ - 1].1 as u64),
        )
    }

    /// The state agrees with the events made, a header being gathered no further than its length
    closed spec fn loop_wf(&self) -> bool {
        match self.state {
            State::Header => {
                &&& framing(self.made@) == Framing::Between
                &&& self.gathered@ == self.input@.subrange(self.queued_position as int, self.position as int)
                &&& (self.gathered@.len() <= 8 || self.gathered@.len() <= needed_len(self.gathered@))
            },
            State::Payload { header, remaining } => {
                &&& framing(self.made@) is Open
                &&& framing(self.made@)->header == header
                &&& remaining == remaining_after(header, framing(self.made@)->taken)
                &&& header.spec_payload_len() is Some ==> framing(self.made@)->taken <= header.spec_payload_len()->0
                &&& self.queued_position == self.position
            },
            State::Finished => {
                &&& self.queued_position == self.position
                &&& (framing(self.made@) is Between || framing(self.made@) is Closed)
            },
            State::Failed(_) => true,
        }
    }

    /// The reader is whole: its events lie over the input, and a header gathered is not complete yet
    pub closed spec fn wf(&self) -> bool {
        &&& self.events_wf()
        &&& self.loop_wf()
        &&& self.state is Header ==> decode_failure(self.gathered@) is Some
            && decode_failure(self.gathered@)->0 is TruncatedHeader
    }

    /// How far a step of reading is from taking input or stopping
    spec fn rank(&self) -> int {
        match self.state {
            State::Header => if decode_failure(self.gathered@) is Some && decode_failure(self.gathered@)->0 is TruncatedHeader {
                0
            } else {
                2
            },
            State::Payload { remaining, .. } => if remaining == Some(0u64) {
                1
            } else {
                0
            },
            _ => 0,
        }
    }

    /// A reader whole has taken no more events than it made
    pub proof fn lemma_taken_within(&self)
        requires
            self.wf(),
        ensures
            self@.taken <= self@.made.len(),
    {
    }

    /// Creates a reader waiting at the start of a file
    ///
    /// The extents the reader reports count from the first byte handed to it,
    /// which it takes as offset zero.
    pub fn new() -> (reader: Self)
        ensures
            reader.wf(),
            reader@.input == Seq::<u8>::empty(),
            reader@.made == Seq::<(int, int, EventView)>::empty(),
            reader@.taken == 0,
            reader@.phase == ReaderPhase::Gathering(Seq::empty()),
            reader@.event_extent is None,
    {
        let reader = BoxReader {
            state: State::Header,
            gathered: Vec::new(),
            events: VecDeque::new(),
            event_extent: None,
            position: 0,
            queued_position: 0,
            input: Ghost(Seq::empty()),
            made: Ghost(Seq::empty()),
            taken: Ghost(0),
        };
        proof {
            assert(reader.gathered@ =~= reader.input@.subrange(0, 0));
        }
        reader
    }

    /// Queues `event`, over the input read since the event before it
    fn push_event(&mut self, event: BoxEvent)
        requires
            old(self).events_wf(),
            old(self).input@.subrange(old(self).queued_position as int, old(self).position as int)
                == event_bytes(event_view(event)),
            old(self).queued_position <= old(self).position,
            !(step(framing(old(self).made@), event_view(event)) is Broken),
            event is Payload ==> event->Payload_0@.len() > 0,
            event is Header ==> plain(event->Header_0),
        ensures
            final(self).events_wf(),
            final(self).made@ == old(self).made@.push(
                (old(self).queued_position as int, old(self).position as int, event_view(event)),
            ),
            framing(final(self).made@) == step(framing(old(self).made@), event_view(event)),
            final(self).queued_position == old(self).position,
            final(self).position == old(self).position,
            final(self).input@ == old(self).input@,
            final(self).taken@ == old(self).taken@,
            final(self).event_extent == old(self).event_extent,
            final(self).state == old(self).state,
            final(self).gathered@ == old(self).gathered@,
    {
        let ghost next = (self.queued_position as int, self.position as int, event_view(event));
        proof {
            lemma_lays_out_push(self.input@, self.made@, next);
            lemma_framing_push(self.made@, next);
        }
        let extent = Range { start: self.queued_position, end: self.position };
        self.events.push_back((extent, event));
        self.queued_position = self.position;
        proof {
            let old_made = self.made@;
            self.made@ = self.made@.push(next);
            assert forall|i: int| 0 <= i < self.made@.len() implies (#[trigger] self.made@[i]).2 is Payload ==> self.made@[i].2->Payload_0.len() > 0 by {
                if i < old_made.len() {
                    assert(self.made@[i] == old_made[i]);
                }
            }
            assert forall|i: int| 0 <= i < self.made@.len() implies (#[trigger] self.made@[i]).2 is Header ==> plain(self.made@[i].2->Header_0) by {
                if i < old_made.len() {
                    assert(self.made@[i] == old_made[i]);
                }
            }
            assert forall|j: int| 0 <= j < self.events@.len() implies queued_as(
                #[trigger] self.events@[j],
                self.made@[self.taken@ + j],
            ) by {
                if j + 1 < self.events@.len() {
                    assert(self.made@[self.taken@ + j] == old_made[self.taken@ + j]);
                }
            }
            if self.taken@ > 0 {
                assert(self.made@[self.taken@ - 1] == old_made[self.taken@ - 1]);
            }
        }
    }

    /// Counts the bytes `taken` as read off the input
    fn take_input(&mut self, taken: &[u8])
        requires
            old(self).events_wf(),
            old(self).input@.len() + taken@.len() <= u64::MAX,
        ensures
            final(self).events_wf(),
            final(self).input@ == old(self).input@ + taken@,
            final(self).position == old(self).position + taken@.len(),
            final(self).made@ == old(self).made@,
            final(self).queued_position == old(self).queued_position,
            final(self).taken@ == old(self).taken@,
            final(self).event_extent == old(self).event_extent,
            final(self).state == old(self).state,
            final(self).gathered@ == old(self).gathered@,
            final(self).events@ == old(self).events@,
    {
        proof {
            lemma_lays_out_extend(self.input@, taken@, self.made@);
            self.input@ = self.input@ + taken@;
        }
        self.position = self.position + taken.len() as u64;
    }

    /// Takes the input that arrived, and makes the events it completes
    ///
    /// The input is taken whole. What it completed is then taken from
    /// [`poll_event`](Self::poll_event); empty input completes nothing.
    ///
    /// Fails with the failure of [`BoxHeader::decode`], carried on
    /// [`Box`](Error::Box), when a header gathered whole does not decode; with
    /// [`AlreadyFinished`](Error::AlreadyFinished) when the file was declared
    /// over; and with the failure of a previous call, which the reader keeps.
    #[verifier::rlimit(50)]
    pub fn handle_input(&mut self, input: &[u8]) -> (result: Result<(), Error>)
        requires
            old(self).wf(),
            old(self)@.input.len() + input@.len() <= u64::MAX,
        ensures
            final(self).wf(),
            final(self)@.taken == old(self)@.taken,
            final(self)@.event_extent == old(self)@.event_extent,
            old(self)@.made.len() <= final(self)@.made.len(),
            final(self)@.made.subrange(0, old(self)@.made.len() as int) == old(self)@.made,
            old(self)@.phase is Failed ==> result == Err::<(), Error>(old(self)@.phase->Failed_0)
                && final(self)@ == old(self)@,
            old(self)@.phase is Finished ==> result == Err::<(), Error>(Error::AlreadyFinished)
                && final(self)@ == old(self)@,
            (old(self)@.phase is Gathering || old(self)@.phase is Passing) ==> {
                let (events, reached) = read_on(old(self)@.phase, old(self)@.input.len() as int, input@);
                &&& final(self)@.made == old(self)@.made + events
                &&& final(self)@.phase == reached
                &&& reached is Failed ==> result == Err::<(), Error>(reached->Failed_0)
                &&& !(reached is Failed) ==> result is Ok
            },
            (old(self)@.phase is Gathering || old(self)@.phase is Passing) && result is Ok ==> {
                &&& final(self)@.input == old(self)@.input + input@
                &&& final(self)@.phase is Gathering || (final(self)@.phase is Passing
                    && final(self)@.phase->remaining != Some(0u64))
            },
            (old(self)@.phase is Gathering || old(self)@.phase is Passing) && result is Err ==> {
                let gathered = final(self)@.input.subrange(made_end(final(self)@.made), final(self)@.input.len() as int);
                &&& exists|k: int| 0 <= k <= input@.len() && final(self)@.input == old(self)@.input + input@.subrange(0, k)
                &&& final(self)@.phase == ReaderPhase::Failed(result->Err_0)
                &&& framing(final(self)@.made) == Framing::Between
                &&& decode_failure(gathered) is Some
                &&& decode_failure(gathered)->0 is SizeBelowHeader
                &&& result->Err_0 == Error::Box(decode_failure(gathered)->0)
            },
    {
        match self.state {
            State::Failed(failure) => {
                return Err(failure);
            },
            State::Finished => {
                return Err(Error::already_finished());
            },
            _ => {},
        }
        let mut at: usize = 0;
        proof {
            assert(self.made@.subrange(0, old(self).made@.len() as int) =~= self.made@);
            assert(input@.subrange(0, 0) =~= Seq::<u8>::empty());
            assert(self.input@ =~= old(self).input@ + input@.subrange(0, 0));
        }
        loop
            invariant
                self.events_wf(),
                self.loop_wf(),
                self.state is Header || self.state is Payload,
                old(self).state is Header || old(self).state is Payload,
                at <= input.len(),
                self.input@ == old(self).input@ + input@.subrange(0, at as int),
                old(self).input@.len() + input@.len() <= u64::MAX,
                self.taken@ == old(self).taken@,
                self.event_extent == old(self).event_extent,
                old(self).made@.len() <= self.made@.len(),
                self.made@.subrange(0, old(self).made@.len() as int) == old(self).made@,
                continues(old(self)@, self@, input@, 0, at as int),
            decreases 3 * (input.len() - at) + self.rank(),
        {
            let ghost before = self@;
            let ghost made_before = self.made@;
            let ghost input_before = self.input@;
            let ghost at_before = at;
            let next = match self.state {
                State::Header => match self.step_header(input, at) {
                    Ok(next) => next,
                    Err(failure) => {
                        proof {
                            assert(input@.subrange(0, at as int) + input@.subrange(at as int, at as int) =~= input@.subrange(0, at as int));
                            lemma_read_on_ends(old(self)@, self@, input@, at as int);
                        }
                        return Err(failure);
                    },
                },
                _ => self.step_payload(input, at),
            };
            match next {
                Some(next) => {
                    at = next;
                    proof {
                        assert(input@.subrange(0, at_before as int) + input@.subrange(at_before as int, at as int) =~= input@.subrange(0, at as int));
                        assert(self.input@ =~= old(self).input@ + input@.subrange(0, at as int));
                        assert(self.made@.subrange(0, old(self).made@.len() as int) =~= self.made@.subrange(0, made_before.len() as int).subrange(0, old(self).made@.len() as int));
                        lemma_continues_chain(old(self)@, before, self@, input@, 0, at_before as int, at as int);
                    }
                },
                None => {
                    proof {
                        lemma_read_on_ends(old(self)@, self@, input@, at as int);
                    }
                    return Ok(());
                },
            }
        }
    }

    /// Reads on from `at` while gathering a header: completes it, takes more of it, or stops
    #[verifier::rlimit(50)]
    fn step_header(&mut self, input: &[u8], at: usize) -> (result: Result<Option<usize>, Error>)
        requires
            old(self).events_wf(),
            old(self).loop_wf(),
            old(self).state is Header,
            at <= input.len(),
            old(self).input@.len() + (input.len() - at) <= u64::MAX,
        ensures
            final(self).events_wf(),
            final(self).taken@ == old(self).taken@,
            final(self).event_extent == old(self).event_extent,
            old(self).made@.len() <= final(self).made@.len(),
            final(self).made@.subrange(0, old(self).made@.len() as int) == old(self).made@,
            match result {
                Ok(Some(next)) => {
                    &&& at <= next <= input.len()
                    &&& final(self).input@ == old(self).input@ + input@.subrange(at as int, next as int)
                    &&& final(self).loop_wf()
                    &&& (final(self).state is Header || final(self).state is Payload)
                    &&& 3 * (input.len() - next) + final(self).rank() < 3 * (input.len() - at) + old(self).rank()
                    &&& continues(old(self)@, final(self)@, input@, at as int, next as int)
                },
                Ok(None) => {
                    &&& at == input.len()
                    &&& final(self).input@ == old(self).input@
                    &&& final(self).wf()
                    &&& final(self).state is Header
                    &&& final(self).made@ == old(self).made@
                    &&& read_on(final(self)@.phase, final(self)@.input.len() as int, input@.subrange(at as int, input.len() as int))
                        == (Seq::<(int, int, EventView)>::empty(), final(self)@.phase)
                },
                Err(failure) => {
                    let gathered = final(self).input@.subrange(made_end(final(self).made@), final(self).input@.len() as int);
                    &&& final(self).input@ == old(self).input@
                    &&& final(self).made@ == old(self).made@
                    &&& read_on(old(self)@.phase, old(self)@.input.len() as int, input@.subrange(at as int, input.len() as int))
                        == (Seq::<(int, int, EventView)>::empty(), ReaderPhase::Failed(failure))
                    &&& final(self).wf()
                    &&& final(self).state == State::Failed(failure)
                    &&& framing(final(self).made@) == Framing::Between
                    &&& decode_failure(gathered) is Some
                    &&& decode_failure(gathered)->0 is SizeBelowHeader
                    &&& failure == Error::Box(decode_failure(gathered)->0)
                },
            },
    {
        match BoxHeader::decode(self.gathered.as_slice()) {
            Ok((header, _len)) => {
                proof {
                    assert(self.gathered@.subrange(0, self.gathered@.len() as int) =~= self.gathered@);
                }
                self.push_event(BoxEvent::Header(header));
                self.state = State::Payload { header, remaining: header.payload_len() };
                self.gathered = Vec::new();
                proof {
                    assert(self.made@.subrange(0, old(self).made@.len() as int) =~= old(self).made@);
                    assert(input@.subrange(at as int, at as int) =~= Seq::<u8>::empty());
                    assert(self.input@ =~= old(self).input@ + input@.subrange(at as int, at as int));
                }
                proof {
                    let gathered = old(self).gathered@;
                    let chosen = header_read(gathered);
                    assert(header.encoding() + Seq::<u8>::empty() =~= gathered.subrange(0, needed_len(gathered) as int));
                    assert(plain(chosen) && chosen.encoding() == gathered.subrange(0, needed_len(gathered) as int));
                    assert(chosen.encoding() + Seq::<u8>::empty() =~= chosen.encoding());
                    lemma_header_written_once(header, Seq::<u8>::empty(), chosen, Seq::<u8>::empty());
                    let made = self.made@.subrange(old(self).made@.len() as int, self.made@.len() as int);
                    assert(made =~= seq![(old(self).queued_position as int, old(self).position as int, EventView::Header(header))]);
                }
                Ok(Some(at))
            },
            Err(error) => {
                let reached: usize = match error {
                    BoxError::TruncatedHeader { needed, .. } => needed as usize,
                    _ => {
                        let failure = Error::Box(error);
                        self.state = State::Failed(failure);
                        proof {
                            assert(self.input@.subrange(made_end(self.made@), self.input@.len() as int) == self.gathered@);
                            assert(self.made@.subrange(0, old(self).made@.len() as int) =~= old(self).made@);
                        }
                        return Err(failure);
                    },
                };
                let filled = self.gathered.len();
                let left = input.len() - at;
                let wanted = if reached - filled < left { reached - filled } else { left };
                if wanted == 0 {
                    proof {
                        assert(self.made@.subrange(0, old(self).made@.len() as int) =~= old(self).made@);
                    }
                    return Ok(None);
                }
                let ghost gathered_before = self.gathered@;
                let taken = copy_bytes(input, at, at + wanted);
                append_bytes(&mut self.gathered, &taken);
                self.take_input(&taken);
                proof {
                    assert(self.input@ =~= old(self).input@ + input@.subrange(at as int, at + wanted));
                    assert(self.gathered@ =~= self.input@.subrange(self.queued_position as int, self.position as int));
                    if gathered_before.len() >= 8 {
                        assert(self.gathered@[0] == gathered_before[0]);
                        assert(self.gathered@[1] == gathered_before[1]);
                        assert(self.gathered@[2] == gathered_before[2]);
                        assert(self.gathered@[3] == gathered_before[3]);
                        assert(self.gathered@[4] == gathered_before[4]);
                        assert(self.gathered@[5] == gathered_before[5]);
                        assert(self.gathered@[6] == gathered_before[6]);
                        assert(self.gathered@[7] == gathered_before[7]);
                    }
                    assert(self.made@.subrange(0, old(self).made@.len() as int) =~= old(self).made@);
                }
                proof {
                    let rest = input@.subrange(at as int, input.len() as int);
                    assert(rest.take(wanted as int) =~= input@.subrange(at as int, at + wanted));
                    assert(rest.skip(wanted as int) =~= input@.subrange(at + wanted, input.len() as int));
                    assert(self.made@.subrange(old(self).made@.len() as int, self.made@.len() as int) =~= Seq::<(int, int, EventView)>::empty());
                    assert(Seq::<(int, int, EventView)>::empty() + read_on(self@.phase, self@.input.len() as int, rest.skip(wanted as int)).0
                        =~= read_on(self@.phase, self@.input.len() as int, rest.skip(wanted as int)).0);
                }
                Ok(Some(at + wanted))
            },
        }
    }

    /// Reads on from `at` while passing on a payload: ends the box, passes on more of it, or stops
    fn step_payload(&mut self, input: &[u8], at: usize) -> (next: Option<usize>)
        requires
            old(self).events_wf(),
            old(self).loop_wf(),
            old(self).state is Payload,
            at <= input.len(),
            old(self).input@.len() + (input.len() - at) <= u64::MAX,
        ensures
            final(self).events_wf(),
            final(self).taken@ == old(self).taken@,
            final(self).event_extent == old(self).event_extent,
            old(self).made@.len() <= final(self).made@.len(),
            final(self).made@.subrange(0, old(self).made@.len() as int) == old(self).made@,
            match next {
                Some(next) => {
                    &&& at <= next <= input.len()
                    &&& final(self).input@ == old(self).input@ + input@.subrange(at as int, next as int)
                    &&& final(self).loop_wf()
                    &&& (final(self).state is Header || final(self).state is Payload)
                    &&& 3 * (input.len() - next) + final(self).rank() < 3 * (input.len() - at) + old(self).rank()
                    &&& continues(old(self)@, final(self)@, input@, at as int, next as int)
                },
                None => {
                    &&& at == input.len()
                    &&& final(self).input@ == old(self).input@
                    &&& final(self).wf()
                    &&& final(self).state is Payload
                    &&& final(self).state->remaining != Some(0u64)
                    &&& final(self).made@ == old(self).made@
                    &&& read_on(final(self)@.phase, final(self)@.input.len() as int, input@.subrange(at as int, input.len() as int))
                        == (Seq::<(int, int, EventView)>::empty(), final(self)@.phase)
                },
            },
    {
        let (header, remaining) = match self.state {
            State::Payload { header, remaining } => (header, remaining),
            _ => {
                return None;
            },
        };
        let reached_end = match remaining {
            Some(left) => left == 0,
            None => false,
        };
        if reached_end {
            proof {
                assert(self.input@.subrange(self.queued_position as int, self.position as int) =~= Seq::<u8>::empty());
            }
            self.push_event(BoxEvent::End);
            self.state = State::Header;
            self.gathered = Vec::new();
            proof {
                assert(self.gathered@ =~= self.input@.subrange(self.queued_position as int, self.position as int));
                assert(self.made@.subrange(0, old(self).made@.len() as int) =~= old(self).made@);
                assert(input@.subrange(at as int, at as int) =~= Seq::<u8>::empty());
                assert(self.input@ =~= old(self).input@ + input@.subrange(at as int, at as int));
            }
            proof {
                assert(self.gathered@ =~= Seq::<u8>::empty());
                assert(self.made@.subrange(old(self).made@.len() as int, self.made@.len() as int)
                    =~= seq![(old(self).position as int, old(self).position as int, EventView::End)]);
            }
            return Some(at);
        }
        if at == input.len() {
            proof {
                assert(self.made@.subrange(0, old(self).made@.len() as int) =~= old(self).made@);
            }
            return None;
        }
        let left = input.len() - at;
        let wanted: usize = match remaining {
            Some(still) => if still < left as u64 { still as usize } else { left },
            None => left,
        };
        let taken = copy_bytes(input, at, at + wanted);
        self.take_input(&taken);
        let still: Option<u64> = match remaining {
            Some(still) => Some(still - wanted as u64),
            None => None,
        };
        proof {
            assert(self.input@ =~= old(self).input@ + input@.subrange(at as int, at + wanted));
            assert(self.input@.subrange(self.queued_position as int, self.position as int) =~= taken@);
        }
        self.push_event(BoxEvent::Payload(taken));
        self.state = State::Payload { header, remaining: still };
        proof {
            assert(self.made@.subrange(0, old(self).made@.len() as int) =~= old(self).made@);
        }
        proof {
            let rest = input@.subrange(at as int, input.len() as int);
            assert(rest.take(wanted as int) =~= taken@);
            assert(rest.skip(wanted as int) =~= input@.subrange(at + wanted, input.len() as int));
            assert(self.made@.subrange(old(self).made@.len() as int, self.made@.len() as int)
                =~= seq![(old(self).position as int, old(self).position + wanted, EventView::Payload(taken@))]);
        }
        Some(at + wanted)
    }

    /// Takes the next event the input handed over so far completed
    ///
    /// Reports `None` once they are used up. The bytes the event taken was
    /// read from are named by [`event_extent`](Self::event_extent) until the
    /// next event is taken.
    pub fn poll_event(&mut self) -> (event: Option<BoxEvent>)
        requires
            old(self).wf(),
        ensures
            final(self).wf(),
            final(self)@.input == old(self)@.input,
            final(self)@.made == old(self)@.made,
            final(self)@.phase == old(self)@.phase,
            old(self)@.taken < old(self)@.made.len() ==> {
                &&& event is Some
                &&& event_view(event->0) == old(self)@.made[old(self)@.taken as int].2
                &&& final(self)@.taken == old(self)@.taken + 1
                &&& final(self)@.event_extent == Some(
                    (old(self)@.made[old(self)@.taken as int].0, old(self)@.made[old(self)@.taken as int].1),
                )
            },
            old(self)@.taken == old(self)@.made.len() ==> event is None && final(self)@ == old(self)@,
    {
        match self.events.pop_front() {
            Some((extent, event)) => {
                let ghost index = self.taken@;
                proof {
                    assert(queued_as(old(self).events@[0], self.made@[index as int]));
                    end_to_end_bounds(self.input@, self.made@, index as int);
                }
                self.event_extent = Some((extent.start, extent.end));
                proof {
                    self.taken@ = self.taken@ + 1;
                    assert forall|j: int| 0 <= j < self.events@.len() implies queued_as(
                        #[trigger] self.events@[j],
                        self.made@[self.taken@ + j],
                    ) by {
                        assert(self.events@[j] == old(self).events@[j + 1]);
                        assert(queued_as(old(self).events@[j + 1], self.made@[index + (j + 1)]));
                    }
                }
                Some(event)
            },
            None => None,
        }
    }

    /// Returns the bytes of the file the event last taken was read from, `None` until one is
    ///
    /// The extent counts from the first byte handed to the reader.
    pub fn event_extent(&self) -> (extent: Option<Range<u64>>)
        requires
            self.wf(),
        ensures
            extent is None <==> self@.event_extent is None,
            extent is Some ==> self@.event_extent == Some((extent->0.start as int, extent->0.end as int)),
    {
        match self.event_extent {
            Some((start, end)) => Some(Range { start, end }),
            None => None,
        }
    }

    /// Declares the file over, and closes the box left open
    ///
    /// A box declaring no total, or one whose declared total was reached
    /// without its end being made, is closed with an [`End`](BoxEvent::End).
    /// Fails with [`UnfinishedHeader`](Error::UnfinishedHeader) when the file
    /// ended inside a box header; with [`UnfinishedBox`](Error::UnfinishedBox)
    /// when it ended before the declared total of a box; with
    /// [`AlreadyFinished`](Error::AlreadyFinished) when it was already declared
    /// over; and with the failure of a previous call, which the reader keeps.
    pub fn finish(&mut self) -> (result: Result<(), Error>)
        requires
            old(self).wf(),
        ensures
            final(self).wf(),
            final(self)@.input == old(self)@.input,
            final(self)@.taken == old(self)@.taken,
            final(self)@.event_extent == old(self)@.event_extent,
            match old(self)@.phase {
                ReaderPhase::Failed(failure) => result == Err::<(), Error>(failure) && final(self)@ == old(self)@,
                ReaderPhase::Finished => result == Err::<(), Error>(Error::AlreadyFinished) && final(self)@ == old(self)@,
                ReaderPhase::Gathering(gathered) => if gathered.len() == 0 {
                    &&& result is Ok
                    &&& final(self)@.phase == ReaderPhase::Finished
                    &&& final(self)@.made == old(self)@.made
                } else {
                    let failure = Error::UnfinishedHeader { needed: header_reach(gathered), available: gathered.len() as u64 };
                    &&& result == Err::<(), Error>(failure)
                    &&& final(self)@.phase == ReaderPhase::Failed(failure)
                    &&& final(self)@.made == old(self)@.made
                },
                ReaderPhase::Passing { header, remaining } => if remaining is Some && remaining->0 != 0 {
                    let total = header.spec_size().spec_total_bytes()->0;
                    let failure = Error::UnfinishedBox { needed: total, available: (total - remaining->0) as u64 };
                    &&& result == Err::<(), Error>(failure)
                    &&& final(self)@.phase == ReaderPhase::Failed(failure)
                    &&& final(self)@.made == old(self)@.made
                } else {
                    let end = old(self)@.input.len() as int;
                    &&& result is Ok
                    &&& final(self)@.phase == ReaderPhase::Finished
                    &&& final(self)@.made == old(self)@.made.push((end, end, EventView::End))
                },
            },
    {
        match self.state {
            State::Failed(failure) => Err(failure),
            State::Finished => Err(Error::already_finished()),
            State::Header => {
                if self.gathered.len() == 0 {
                    self.state = State::Finished;
                    return Ok(());
                }
                let reached: u64 = match BoxHeader::decode(self.gathered.as_slice()) {
                    Err(BoxError::TruncatedHeader { needed, .. }) => needed,
                    _ => MAX_ENCODED_LEN as u64,
                };
                let failure = Error::unfinished_header(reached, self.gathered.len() as u64);
                self.state = State::Failed(failure);
                Err(failure)
            },
            State::Payload { header, remaining } => {
                let unfinished = match remaining {
                    Some(left) => left != 0,
                    None => false,
                };
                if unfinished {
                    let left = match remaining {
                        Some(left) => left,
                        None => 0,
                    };
                    let total = match header.size().total_bytes() {
                        Some(total) => total,
                        None => 0,
                    };
                    let declared = header.payload_len();
                    assert(declared is Some && left <= declared->0 && declared->0 <= total);
                    let failure = Error::unfinished_box(total, total - left);
                    self.state = State::Failed(failure);
                    Err(failure)
                } else {
                    proof {
                        assert(self.input@.subrange(self.queued_position as int, self.position as int) =~= Seq::<u8>::empty());
                    }
                    self.push_event(BoxEvent::End);
                    self.state = State::Finished;
                    Ok(())
                }
            },
        }
    }
}

impl Default for BoxReader {
    /// Creates one waiting at the start of a file, as [`new`](BoxReader::new) does
    fn default() -> (reader: Self)
        ensures
            reader.wf(),
            reader@.input == Seq::<u8>::empty(),
            reader@.made == Seq::<(int, int, EventView)>::empty(),
            reader@.taken == 0,
            reader@.phase == ReaderPhase::Gathering(Seq::empty()),
            reader@.event_extent is None,
    {
        Self::new()
    }
}

/// Every made event of a reader's lies within the input it has taken
proof fn end_to_end_bounds(file: Seq<u8>, made: Seq<(int, int, EventView)>, i: int)
    requires
        lays_out(file, made),
        0 <= i < made.len(),
    ensures
        0 <= made[i].0 <= made[i].1 <= file.len(),
{
    crate::sequence::event::lemma_made_within(made, i);
}

/// Returns the bytes of `input` from `from` to `to`
fn copy_bytes(input: &[u8], from: usize, to: usize) -> (copied: Vec<u8>)
    requires
        from <= to <= input@.len(),
    ensures
        copied@ == input@.subrange(from as int, to as int),
{
    let mut copied: Vec<u8> = Vec::new();
    let mut i = from;
    while i < to
        invariant
            from <= i <= to <= input@.len(),
            copied@ == input@.subrange(from as int, i as int),
        decreases to - i,
    {
        copied.push(input[i]);
        i = i + 1;
        assert(copied@ =~= input@.subrange(from as int, i as int));
    }
    copied
}

/// Appends every byte of `bytes` to `out`
fn append_bytes(out: &mut Vec<u8>, bytes: &Vec<u8>)
    ensures
        final(out)@ == old(out)@ + bytes@,
{
    crate::bytes::write_slice(out, bytes.as_slice());
}

/// The events a reader made lie end to end over the input it took, each over the bytes it was read from
///
/// A header lies over the bytes it is written as, a payload over the bytes it
/// carries, and an end over none. No payload is empty, and the events form
/// boxes: each payload within what its box declares, each end where that
/// payload is all there. What follows the last event is the part of a header
/// still being gathered, and nothing follows it while a payload is passed on.
/// A header being gathered is never whole: one gathered whole is framed.
pub proof fn lemma_events_partition_the_input(reader: BoxReader)
    requires
        reader.wf(),
    ensures
        lays_out(reader@.input, reader@.made),
        payloads_not_empty(reader@.made),
        !(framing(reader@.made) is Broken),
        reader@.phase is Gathering ==> reader@.input == reader@.input.subrange(0, made_end(reader@.made))
            + reader@.phase->Gathering_0,
        reader@.phase is Passing ==> made_end(reader@.made) == reader@.input.len(),
        reader@.phase is Gathering ==> decode_failure(reader@.phase->Gathering_0) is Some
            && decode_failure(reader@.phase->Gathering_0)->0 is TruncatedHeader,
{
    if reader@.phase is Gathering {
        assert(reader@.input =~= reader@.input.subrange(0, made_end(reader@.made)) + reader@.phase->Gathering_0);
    }
}

/// The events two readers made of the same file, each run of payloads fused
/// into one, are the same however the file was cut as it arrived
///
/// Where a payload is cut follows how the file was handed over; the headers
/// and ends, the extents they cover, and the payload bytes between them, end
/// to end, do not.
pub proof fn lemma_events_do_not_turn_on_the_cuts(first: BoxReader, second: BoxReader)
    requires
        first.wf(),
        second.wf(),
        first@.phase is Finished,
        second@.phase is Finished,
        first@.input == second@.input,
    ensures
        fuse(first@.made) == fuse(second@.made),
{
    let file = first@.input;
    lemma_fuse_keeps(file, first@.made);
    lemma_fuse_keeps(file, second@.made);
    assert(whole_file(file, fuse(first@.made)));
    assert(whole_file(file, fuse(second@.made)));
    lemma_whole_file_unique(file, fuse(first@.made), fuse(second@.made));
}

} // verus!
