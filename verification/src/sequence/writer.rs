//! [`BoxWriter`], the sequence of boxes of ISO/IEC 14496-12 §4.2 written as the events come

use std::collections::VecDeque;
use std::ops::Range;

use vstd::prelude::*;

use crate::sequence::error::Error;
use crate::sequence::event::{
    event_bytes, event_view, events_bytes, framing, lays_out, lemma_framing_push, lemma_laid_out_bytes,
    lemma_lays_out_push, lemma_same_events_same_bytes, made_end, step, BoxEvent, EventView, Framing,
};
use crate::sequence::reader::{lemma_events_partition_the_input, BoxReader};
use crate::sequence::header::BoxHeader;

verus! {

/// Where a writer stands between calls, as its contracts speak of it
pub enum WriterPhase {
    /// Between boxes, ready for the one that starts next
    Between,
    /// Laying down the payload of the box `header` opened, `written` bytes of it so far
    Writing { header: BoxHeader, written: u64 },
    /// Closed the box running to the end of the file, so nothing may follow it
    EndOfFile,
    /// Told the file is over, and taking no more events
    Finished,
    /// Failed, and reporting that same failure for every call after it
    Failed(Error),
}

/// A writer, as its contracts speak of it
pub struct WriterView {
    /// Every byte the writer has laid down
    pub output: Seq<u8>,
    /// How many of them were handed out by [`BoxWriter::poll_output`]
    pub drained: nat,
    /// Every event the writer has taken, with the extent of the output it was written to
    pub made: Seq<(int, int, EventView)>,
    /// Where the writer stands
    pub phase: WriterPhase,
    /// The extent of the event taken last
    pub event_extent: Option<(int, int)>,
}

/// The failure of closing off the box `header` opened, `written` payload bytes of it laid down
pub open spec fn unfinished_failure(header: BoxHeader, written: u64) -> Error {
    Error::UnfinishedBox {
        needed: header.spec_size().spec_total_bytes()->0,
        available: (header.spec_len() + written) as u64,
    }
}

/// Where a writer standing at `phase` goes on taking `event`, or the failure it meets
pub open spec fn outcome(phase: WriterPhase, event: EventView) -> Result<WriterPhase, Error> {
    match phase {
        WriterPhase::Between => match event {
            EventView::Header(header) => Ok(WriterPhase::Writing { header, written: 0 }),
            _ => Err(Error::NoBoxOpen),
        },
        WriterPhase::Writing { header, written } => match event {
            EventView::Header(_) => Err(Error::BoxStillOpen { box_type: header.spec_box_type() }),
            EventView::Payload(payload) => {
                let offered = written + payload.len();
                match header.spec_payload_len() {
                    Some(declared) => if offered > declared {
                        Err(Error::PayloadPastDeclared {
                            box_type: header.spec_box_type(),
                            declared,
                            offered: offered as u64,
                        })
                    } else {
                        Ok(WriterPhase::Writing { header, written: offered as u64 })
                    },
                    None => Ok(WriterPhase::Writing { header, written: offered as u64 }),
                }
            },
            EventView::End => match header.spec_payload_len() {
                Some(declared) => if written < declared {
                    Err(unfinished_failure(header, written))
                } else {
                    Ok(WriterPhase::Between)
                },
                None => Ok(WriterPhase::EndOfFile),
            },
        },
        WriterPhase::EndOfFile => Err(Error::PastEndOfFile),
        WriterPhase::Finished => Err(Error::AlreadyFinished),
        WriterPhase::Failed(failure) => Err(failure),
    }
}

/// The bytes the chunks `chunks` hold, end to end
pub open spec fn chunks_bytes(chunks: Seq<Vec<u8>>) -> Seq<u8>
    decreases chunks.len(),
{
    if chunks.len() == 0 {
        Seq::empty()
    } else {
        chunks[0]@ + chunks_bytes(chunks.drop_first())
    }
}

/// A chunk queued behind others comes out after them
proof fn lemma_chunks_push(chunks: Seq<Vec<u8>>, chunk: Vec<u8>)
    ensures
        chunks_bytes(chunks.push(chunk)) == chunks_bytes(chunks) + chunk@,
    decreases chunks.len(),
{
    if chunks.len() == 0 {
        let one = chunks.push(chunk);
        assert(one.drop_first() =~= Seq::<Vec<u8>>::empty());
        assert(chunks_bytes(one.drop_first()) == Seq::<u8>::empty());
        assert(chunks_bytes(one) =~= chunk@);
    } else {
        lemma_chunks_push(chunks.drop_first(), chunk);
        assert(chunks.push(chunk).drop_first() =~= chunks.drop_first().push(chunk));
        assert(chunks_bytes(chunks.push(chunk)) =~= chunks_bytes(chunks) + chunk@);
    }
}

/// The bytes of the chunk at the front of the queue come first
proof fn lemma_chunks_front(chunks: Seq<Vec<u8>>)
    requires
        chunks.len() > 0,
    ensures
        chunks_bytes(chunks) == chunks[0]@ + chunks_bytes(chunks.drop_first()),
        chunks_bytes(chunks).len() >= chunks[0]@.len(),
{
}

/// Where the writer stands between calls
#[derive(Clone, Copy)]
enum State {
    Between,
    Payload { header: BoxHeader, written: u64 },
    EndOfFile,
    Finished,
    Failed(Error),
}

/// Writes the sequence of boxes a file is formed as, taking the events as they come
///
/// The writer is handed the steps of the sequence and lays down the bytes they
/// make, which are taken from [`poll_output`](Self::poll_output). A box writes
/// the header of its [`Header`](BoxEvent::Header) as it stands, and a payload
/// must measure what the box declares. What a reader reports, this writes, so
/// an event stream read from one file writes back as that file.
pub struct BoxWriter {
    state: State,
    output: VecDeque<Vec<u8>>,
    taken: usize,
    position: u64,
    event_extent: Option<(u64, u64)>,
    laid: Ghost<Seq<u8>>,
    drained: Ghost<nat>,
    made: Ghost<Seq<(int, int, EventView)>>,
}

impl View for BoxWriter {
    type V = WriterView;

    closed spec fn view(&self) -> WriterView {
        WriterView {
            output: self.laid@,
            drained: self.drained@,
            made: self.made@,
            phase: match self.state {
                State::Between => WriterPhase::Between,
                State::Payload { header, written } => WriterPhase::Writing { header, written },
                State::EndOfFile => WriterPhase::EndOfFile,
                State::Finished => WriterPhase::Finished,
                State::Failed(failure) => WriterPhase::Failed(failure),
            },
            event_extent: match self.event_extent {
                Some((start, end)) => Some((start as int, end as int)),
                None => None,
            },
        }
    }
}

impl BoxWriter {
    /// The events taken lie over the bytes laid down, and the bytes not handed out yet are queued
    closed spec fn bytes_wf(&self) -> bool {
        &&& self.position as int == self.laid@.len()
        &&& lays_out(self.laid@, self.made@)
        &&& made_end(self.made@) == self.position
        &&& !(framing(self.made@) is Broken)
        &&& self.drained@ <= self.position
        &&& (if self.output@.len() == 0 { self.taken == 0 } else { self.taken <= self.output@[0]@.len() })
        &&& self.laid@.subrange(self.drained@ as int, self.position as int)
            == chunks_bytes(self.output@).subrange(self.taken as int, chunks_bytes(self.output@).len() as int)
        &&& (self.made@.len() == 0 <==> self.event_extent is None)
        &&& self.made@.len() > 0 ==> self.event_extent == Some(
            (self.made@.last().0 as u64, self.made@.last().1 as u64),
        )
    }

    /// The state agrees with the events taken
    closed spec fn state_wf(&self) -> bool {
        match self.state {
            State::Between => framing(self.made@) == Framing::Between,
            State::Payload { header, written } => {
                &&& framing(self.made@) == (Framing::Open { header, taken: written as nat })
                &&& written <= self.position
            },
            State::EndOfFile => framing(self.made@) == Framing::Closed,
            State::Finished => {
                ||| framing(self.made@) is Between
                ||| framing(self.made@) is Closed
                ||| framing(self.made@) is Open && (framing(self.made@)->header.spec_payload_len() is None
                    || framing(self.made@)->taken == framing(self.made@)->header.spec_payload_len()->0)
            },
            State::Failed(_) => true,
        }
    }

    /// The writer is whole: its events lie over the bytes laid down, which are queued until handed out
    pub closed spec fn wf(&self) -> bool {
        &&& self.bytes_wf()
        &&& self.state_wf()
    }

    /// Creates a writer waiting at the start of a file
    ///
    /// The extents the writer reports count from the first byte it lays down,
    /// which it takes as offset zero.
    pub fn new() -> (writer: Self)
        ensures
            writer.wf(),
            writer@.output == Seq::<u8>::empty(),
            writer@.drained == 0,
            writer@.made == Seq::<(int, int, EventView)>::empty(),
            writer@.phase == WriterPhase::Between,
            writer@.event_extent is None,
    {
        let writer = BoxWriter {
            state: State::Between,
            output: VecDeque::new(),
            taken: 0,
            position: 0,
            event_extent: None,
            laid: Ghost(Seq::empty()),
            drained: Ghost(0),
            made: Ghost(Seq::empty()),
        };
        proof {
            assert(writer.laid@.subrange(0, 0) =~= chunks_bytes(writer.output@).subrange(0, 0));
        }
        writer
    }

    /// Fails the writer for good, and hands the failure back to report
    fn fail(&mut self, failure: Error) -> (reported: Error)
        requires
            old(self).bytes_wf(),
        ensures
            final(self).wf(),
            reported == failure,
            final(self)@.phase == WriterPhase::Failed(failure),
            final(self)@.output == old(self)@.output,
            final(self)@.drained == old(self)@.drained,
            final(self)@.made == old(self)@.made,
            final(self)@.event_extent == old(self)@.event_extent,
    {
        self.state = State::Failed(failure);
        failure
    }

    /// Lays down the bytes `chunk` an event is made of, and counts the event as taken
    fn lay_down(&mut self, chunk: Vec<u8>, Ghost(event): Ghost<EventView>)
        requires
            old(self).bytes_wf(),
            chunk@ == event_bytes(event),
            !(step(framing(old(self).made@), event) is Broken),
            old(self).laid@.len() + chunk@.len() <= u64::MAX,
        ensures
            final(self).bytes_wf(),
            final(self).laid@ == old(self).laid@ + chunk@,
            final(self).made@ == old(self).made@.push((old(self).position as int, old(self).position + chunk@.len(), event)),
            framing(final(self).made@) == step(framing(old(self).made@), event),
            final(self).drained@ == old(self).drained@,
            final(self).state == old(self).state,
            final(self).event_extent == Some((old(self).position, (old(self).position + chunk@.len()) as u64)),
    {
        let began_at = self.position;
        let length = chunk.len() as u64;
        let ghost next = (began_at as int, began_at + chunk@.len(), event);
        let ghost laid = self.laid@ + chunk@;
        let ghost pending = chunks_bytes(self.output@);
        proof {
            crate::sequence::event::lemma_lays_out_extend(self.laid@, chunk@, self.made@);
            assert(laid.subrange(began_at as int, began_at + chunk@.len()) =~= chunk@);
            lemma_lays_out_push(laid, self.made@, next);
            lemma_framing_push(self.made@, next);
            lemma_chunks_push(self.output@, chunk);
        }
        let ghost old_output = self.output@;
        let ghost old_laid = self.laid@;
        let ghost chunk_bytes = chunk@;
        self.output.push_back(chunk);
        self.position = self.position + length;
        self.event_extent = Some((began_at, self.position));
        proof {
            self.made@ = self.made@.push(next);
            self.laid@ = laid;
            if old_output.len() > 0 {
                assert(self.output@[0] == old_output[0]);
                lemma_chunks_front(old_output);
            }
            assert(self.laid@.subrange(self.drained@ as int, self.position as int) =~= old_laid.subrange(
                self.drained@ as int,
                began_at as int,
            ) + chunk_bytes);
            assert((pending + chunk_bytes).subrange(self.taken as int, (pending + chunk_bytes).len() as int)
                =~= pending.subrange(self.taken as int, pending.len() as int) + chunk_bytes);
            assert(self.laid@.subrange(self.drained@ as int, self.position as int) =~= chunks_bytes(self.output@).subrange(
                self.taken as int,
                chunks_bytes(self.output@).len() as int,
            ));
        }
    }

    /// Takes the next step of the sequence, and lays down the bytes it makes
    ///
    /// The event is taken whole; what it made is then taken from
    /// [`poll_output`](Self::poll_output). Fails with
    /// [`NoBoxOpen`](Error::NoBoxOpen) when a payload or an end comes while no
    /// box is open; with [`BoxStillOpen`](Error::BoxStillOpen) when a box starts
    /// while the one before it is open; with
    /// [`PayloadPastDeclared`](Error::PayloadPastDeclared) when more payload is
    /// offered than the box declares; with [`UnfinishedBox`](Error::UnfinishedBox)
    /// when a box is closed before its declared total; with
    /// [`PastEndOfFile`](Error::PastEndOfFile) when an event comes after the box
    /// running to the end of the file was closed; with
    /// [`AlreadyFinished`](Error::AlreadyFinished) after
    /// [`finish`](Self::finish); and with the failure of a previous call, which
    /// the writer keeps.
    pub fn handle_event(&mut self, event: BoxEvent) -> (result: Result<(), Error>)
        requires
            old(self).wf(),
            old(self)@.output.len() + event_bytes(event_view(event)).len() <= u64::MAX,
        ensures
            final(self).wf(),
            final(self)@.drained == old(self)@.drained,
            old(self)@.phase is Failed || old(self)@.phase is Finished ==> {
                &&& result == Err::<(), Error>(outcome(old(self)@.phase, event_view(event))->Err_0)
                &&& final(self)@ == old(self)@
            },
            !(old(self)@.phase is Failed || old(self)@.phase is Finished) ==> match outcome(old(self)@.phase, event_view(event)) {
                Ok(next) => {
                    let began_at = old(self)@.output.len() as int;
                    let bytes = event_bytes(event_view(event));
                    &&& result is Ok
                    &&& final(self)@.phase == next
                    &&& final(self)@.output == old(self)@.output + bytes
                    &&& final(self)@.made == old(self)@.made.push((began_at, began_at + bytes.len(), event_view(event)))
                    &&& final(self)@.event_extent == Some((began_at, began_at + bytes.len()))
                    &&& old(self)@.event_extent matches Some((_, end)) ==> began_at == end
                    &&& old(self)@.event_extent is None ==> began_at == 0
                },
                Err(failure) => {
                    &&& result == Err::<(), Error>(failure)
                    &&& final(self)@.phase == WriterPhase::Failed(failure)
                    &&& final(self)@.output == old(self)@.output
                    &&& final(self)@.made == old(self)@.made
                    &&& final(self)@.event_extent == old(self)@.event_extent
                },
            },
    {
        proof {
            lemma_output_is_the_events(*self);
        }
        match self.state {
            State::Failed(failure) => {
                return Err(failure);
            },
            State::Finished => {
                return Err(Error::already_finished());
            },
            State::EndOfFile => {
                return Err(self.fail(Error::past_end_of_file()));
            },
            _ => {},
        }
        match event {
            BoxEvent::Header(header) => {
                match self.state {
                    State::Payload { header: open, .. } => {
                        return Err(self.fail(Error::box_still_open(open.box_type())));
                    },
                    _ => {},
                }
                let mut bytes: Vec<u8> = Vec::new();
                header.encode(&mut bytes);
                proof {
                    assert(bytes@ =~= header.encoding());
                }
                self.lay_down(bytes, Ghost(EventView::Header(header)));
                self.state = State::Payload { header, written: 0 };
                Ok(())
            },
            BoxEvent::Payload(payload) => {
                let (header, written) = match self.state {
                    State::Payload { header, written } => (header, written),
                    _ => {
                        return Err(self.fail(Error::no_box_open()));
                    },
                };
                let offered = written + payload.len() as u64;
                match header.payload_len() {
                    Some(declared) => {
                        if offered > declared {
                            return Err(self.fail(Error::payload_past_declared(header.box_type(), declared, offered)));
                        }
                    },
                    None => {},
                }
                let ghost event = EventView::Payload(payload@);
                self.lay_down(payload, Ghost(event));
                self.state = State::Payload { header, written: offered };
                Ok(())
            },
            BoxEvent::End => {
                let (header, written) = match self.state {
                    State::Payload { header, written } => (header, written),
                    _ => {
                        return Err(self.fail(Error::no_box_open()));
                    },
                };
                match header.payload_len() {
                    Some(declared) => {
                        if written < declared {
                            return Err(self.fail(unfinished(header, written)));
                        }
                        self.lay_down(Vec::new(), Ghost(EventView::End));
                        self.state = State::Between;
                        Ok(())
                    },
                    None => {
                        self.lay_down(Vec::new(), Ghost(EventView::End));
                        self.state = State::EndOfFile;
                        Ok(())
                    },
                }
            },
        }
    }

    /// Returns the bytes of the output the event last taken was written to, `None` until one is
    ///
    /// The extent counts from the first byte the writer laid down.
    pub fn event_extent(&self) -> (extent: Option<Range<u64>>)
        requires
            self.wf(),
        ensures
            extent is None <==> self@.event_extent is None,
            extent is Some ==> self@.event_extent == Some((extent->0.start as int, extent->0.end as int)),
    {
        match self.event_extent {
            Some((start, end)) => Some(Range { start, end }),
            None => None,
        }
    }

    /// Fills `buffer` with the bytes the events taken so far made, and reports how many
    ///
    /// Reports `0` once they are all handed out. A failed writer hands out the
    /// bytes it had already made.
    pub fn poll_output(&mut self, buffer: &mut [u8]) -> (filled: usize)
        requires
            old(self).wf(),
        ensures
            final(self).wf(),
            ({
                let pending = old(self)@.output.subrange(old(self)@.drained as int, old(self)@.output.len() as int);
                &&& filled == (if old(buffer)@.len() < pending.len() { old(buffer)@.len() } else { pending.len() })
                &&& final(buffer)@.len() == old(buffer)@.len()
                &&& final(buffer)@.subrange(0, filled as int) == pending.subrange(0, filled as int)
                &&& final(buffer)@.subrange(filled as int, final(buffer)@.len() as int)
                    == old(buffer)@.subrange(filled as int, old(buffer)@.len() as int)
            }),
            final(self)@.drained == old(self)@.drained + filled,
            final(self)@.output == old(self)@.output,
            final(self)@.made == old(self)@.made,
            final(self)@.phase == old(self)@.phase,
            final(self)@.event_extent == old(self)@.event_extent,
    {
        let ghost pending = self.laid@.subrange(self.drained@ as int, self.position as int);
        let mut filled: usize = 0;
        while filled < buffer.len() && self.output.len() > 0
            invariant
                self.bytes_wf(),
                self.state_wf(),
                self.state == old(self).state,
                self.laid@ == old(self).laid@,
                self.made@ == old(self).made@,
                self.position == old(self).position,
                self.event_extent == old(self).event_extent,
                pending == old(self).laid@.subrange(old(self).drained@ as int, old(self).position as int),
                self.drained@ == old(self).drained@ + filled,
                filled <= buffer@.len(),
                filled <= pending.len(),
                buffer@.len() == old(buffer)@.len(),
                buffer@.subrange(0, filled as int) == pending.subrange(0, filled as int),
                buffer@.subrange(filled as int, buffer@.len() as int) == old(buffer)@.subrange(filled as int, old(buffer)@.len() as int),
            decreases buffer@.len() - filled + self.output@.len(),
        {
            let ghost output = self.output@;
            let ghost cb = chunks_bytes(output);
            let ghost lp = self.laid@.subrange(self.drained@ as int, self.position as int);
            let chunk_len = self.output[0].len();
            proof {
                lemma_chunks_front(output);
                assert(lp =~= pending.subrange(filled as int, pending.len() as int));
            }
            if self.taken < chunk_len {
                let byte = self.output[0][self.taken];
                let ghost t = self.taken as int;
                let ghost f = filled as int;
                proof {
                    assert(cb[t] == output[0]@[t]);
                    assert(lp == cb.subrange(t, cb.len() as int));
                    assert(lp[0] == byte);
                    assert(pending[f] == byte);
                }
                let ghost buffer_before = buffer@;
                buffer[filled] = byte;
                self.taken = self.taken + 1;
                filled = filled + 1;
                proof {
                    self.drained@ = self.drained@ + 1;
                    assert(self.laid@.subrange(self.drained@ as int, self.position as int) =~= lp.subrange(1, lp.len() as int));
                    assert(cb.subrange(t + 1, cb.len() as int) =~= cb.subrange(t, cb.len() as int).subrange(1, cb.len() - t));
                    assert forall|i: int| 0 <= i < filled implies buffer@[i] == pending[i] by {
                        if i < f {
                            assert(buffer_before.subrange(0, f)[i] == pending.subrange(0, f)[i]);
                        }
                    }
                    assert(buffer@.subrange(0, filled as int) =~= pending.subrange(0, filled as int));
                    assert forall|i: int| 0 <= i < buffer@.len() - filled implies buffer@.subrange(filled as int, buffer@.len() as int)[i]
                        == old(buffer)@.subrange(filled as int, old(buffer)@.len() as int)[i] by {
                        assert(buffer_before.subrange(f, buffer_before.len() as int)[i + 1] == old(buffer)@.subrange(f, old(buffer)@.len() as int)[i + 1]);
                    }
                    assert(buffer@.subrange(filled as int, buffer@.len() as int) =~= old(buffer)@.subrange(filled as int, old(buffer)@.len() as int));
                }
            }
            if self.taken == self.output[0].len() {
                let ghost t = self.taken as int;
                self.output.pop_front();
                self.taken = 0;
                proof {
                    assert(self.output@ =~= output.drop_first());
                    assert(cb.subrange(t, cb.len() as int) =~= chunks_bytes(output.drop_first()));
                    assert(chunks_bytes(self.output@).subrange(0, chunks_bytes(self.output@).len() as int) =~= chunks_bytes(self.output@));
                    if self.output@.len() > 0 {
                        lemma_chunks_front(self.output@);
                    }
                }
            }
        }
        proof {
            if self.output@.len() == 0 {
                assert(chunks_bytes(self.output@).len() == 0);
                assert(self.laid@.subrange(self.drained@ as int, self.position as int).len() == 0);
            }
        }
        filled
    }

    /// Declares the file over
    ///
    /// Fails with [`UnfinishedBox`](Error::UnfinishedBox) while a box whose
    /// declared total was not reached is open; with
    /// [`AlreadyFinished`](Error::AlreadyFinished) when the file was already
    /// declared over; and with the failure of a previous call, which the
    /// writer keeps. A box declaring no total, and one whose payload is all
    /// there though it was not closed, end the file where it stands.
    pub fn finish(&mut self) -> (result: Result<(), Error>)
        requires
            old(self).wf(),
        ensures
            final(self).wf(),
            final(self)@.output == old(self)@.output,
            final(self)@.drained == old(self)@.drained,
            final(self)@.made == old(self)@.made,
            final(self)@.event_extent == old(self)@.event_extent,
            match old(self)@.phase {
                WriterPhase::Failed(failure) => result == Err::<(), Error>(failure) && final(self)@ == old(self)@,
                WriterPhase::Finished => result == Err::<(), Error>(Error::AlreadyFinished) && final(self)@ == old(self)@,
                WriterPhase::Writing { header, written } => if header.spec_payload_len() is Some
                    && written < header.spec_payload_len()->0 {
                    &&& result == Err::<(), Error>(unfinished_failure(header, written))
                    &&& final(self)@.phase == WriterPhase::Failed(unfinished_failure(header, written))
                } else {
                    result is Ok && final(self)@.phase == WriterPhase::Finished
                },
                _ => result is Ok && final(self)@.phase == WriterPhase::Finished,
            },
    {
        match self.state {
            State::Failed(failure) => Err(failure),
            State::Finished => Err(Error::already_finished()),
            State::Between | State::EndOfFile => {
                self.state = State::Finished;
                Ok(())
            },
            State::Payload { header, written } => {
                match header.payload_len() {
                    Some(declared) => {
                        if written < declared {
                            return Err(self.fail(unfinished(header, written)));
                        }
                    },
                    None => {},
                }
                self.state = State::Finished;
                Ok(())
            },
        }
    }
}

impl Default for BoxWriter {
    /// Creates one waiting at the start of a file, as [`new`](BoxWriter::new) does
    fn default() -> (writer: Self)
        ensures
            writer.wf(),
            writer@.output == Seq::<u8>::empty(),
            writer@.drained == 0,
            writer@.made == Seq::<(int, int, EventView)>::empty(),
            writer@.phase == WriterPhase::Between,
            writer@.event_extent is None,
    {
        Self::new()
    }
}

/// Returns the failure of closing off the box `header` opened, `written` payload bytes of it laid down
fn unfinished(header: BoxHeader, written: u64) -> (failure: Error)
    requires
        header.spec_payload_len() is Some,
        written < header.spec_payload_len()->0,
    ensures
        failure == unfinished_failure(header, written),
{
    let header_len = header.encoded_len() as u64;
    let total = match header.payload_len() {
        Some(declared) => header_len + declared,
        None => header_len,
    };
    Error::unfinished_box(total, header_len + written)
}

/// The bytes a writer laid down are the events it took, end to end, each over the bytes it is made of
///
/// The extent of the event taken last ends where the output does, so the
/// extent of each event taken starts where the one before it ended.
pub proof fn lemma_output_is_the_events(writer: BoxWriter)
    requires
        writer.wf(),
    ensures
        lays_out(writer@.output, writer@.made),
        made_end(writer@.made) == writer@.output.len(),
        writer@.output == events_bytes(writer@.made),
        !(framing(writer@.made) is Broken),
        writer@.drained <= writer@.output.len(),
        writer@.event_extent is None <==> writer@.made.len() == 0,
        writer@.made.len() > 0 ==> writer@.event_extent == Some((writer@.made.last().0, writer@.made.last().1)),
        writer@.event_extent is None ==> writer@.output.len() == 0,
        writer@.event_extent matches Some((_, end)) ==> end == writer@.output.len(),
{
    lemma_laid_out_bytes(writer@.output, writer@.made);
    assert(writer@.output.subrange(0, writer@.output.len() as int) =~= writer@.output);
    if writer@.made.len() > 0 {
        crate::sequence::event::lemma_made_within(writer@.made, writer@.made.len() - 1);
    }
}

/// The events a reader read off a file, handed to a writer, write back as that file
///
/// The bytes laid down are the input up to where the last event read ends.
pub proof fn lemma_events_read_write_back_the_file(reader: BoxReader, writer: BoxWriter)
    requires
        reader.wf(),
        writer.wf(),
        reader@.made.len() == writer@.made.len(),
        forall|i: int| 0 <= i < reader@.made.len() ==> (#[trigger] reader@.made[i]).2 == writer@.made[i].2,
    ensures
        writer@.output == reader@.input.subrange(0, made_end(reader@.made)),
{
    lemma_events_partition_the_input(reader);
    lemma_output_is_the_events(writer);
    lemma_same_events_same_bytes(reader@.input, reader@.made, writer@.output, writer@.made);
    assert(writer@.output.subrange(0, writer@.output.len() as int) =~= writer@.output);
}

} // verus!
