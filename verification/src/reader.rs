//! Decision logic of the session reader loop.
//!
//! One loop per session repeatedly reads a chunk of up to 4096 bytes
//! from the session's cloned reader handle. The blocking reads are the
//! host's; what to do with each outcome is decided here: a chunk of
//! bytes becomes one data event carrying its lossily decoded text, a
//! clean end of stream or a failed read stops the loop, and exactly one
//! exit event closes the stream. Read failures are not surfaced any
//! further than that.

use vstd::prelude::*;

use crate::decode::{lossy_decode, lossy_utf8};

verus! {

/// The chunk size of one read from the session's reader handle.
pub const READ_CHUNK_SIZE: usize = 4096;

/// What one blocking read on a session's reader handle yielded.
pub enum ReadOutcome {
    /// One or more bytes arrived.
    Data(Vec<u8>),
    /// Clean end of stream: a read of zero bytes.
    Eof,
    /// The read failed.
    ReadError,
}

/// What the reader loop does with one read outcome.
pub enum ReaderAction {
    /// Deliver one data event carrying this decoded text, then read on.
    EmitData(String),
    /// Stop reading; exactly one exit event follows.
    Stop,
}

/// One event of a session's stream, as the transcript records it: a
/// chunk of decoded text, or the end of the session.
pub enum PtyEvent {
    Data(String),
    Exit,
}

/// A session event at the specification level.
pub enum SessionEvent {
    Data(Seq<char>),
    Exit,
}

impl View for PtyEvent {
    type V = SessionEvent;

    open spec fn view(&self) -> SessionEvent {
        match self {
            PtyEvent::Data(text) => SessionEvent::Data(text@),
            PtyEvent::Exit => SessionEvent::Exit,
        }
    }
}

/// The event stream of one reader-loop run over the given read
/// outcomes: one data event per chunk, in the order read, cut off at
/// the first end of stream or failure, then exactly one exit event —
/// whatever stopped the loop.
pub open spec fn events_of_run(reads: Seq<ReadOutcome>) -> Seq<SessionEvent>
    decreases reads.len(),
{
    if reads.len() == 0 {
        seq![SessionEvent::Exit]
    } else {
        match reads.first() {
            ReadOutcome::Data(chunk) => seq![SessionEvent::Data(lossy_utf8(chunk@))]
                + events_of_run(reads.drop_first()),
            _ => seq![SessionEvent::Exit],
        }
    }
}

/// One iteration of the reader loop: bytes become one data event with
/// their lossily decoded text and the loop goes on; end of stream and
/// read failure both stop it.
pub fn reader_step(outcome: &ReadOutcome) -> (r: ReaderAction)
    ensures
        match outcome {
            ReadOutcome::Data(chunk) => r matches ReaderAction::EmitData(text) && text@
                == lossy_utf8(chunk@),
            _ => r is Stop,
        },
{
    match outcome {
        ReadOutcome::Data(chunk) => ReaderAction::EmitData(lossy_decode(chunk.as_slice())),
        _ => ReaderAction::Stop,
    }
}

/// The full event stream that the reader loop produces over a finite
/// sequence of read outcomes, exit event included.
pub fn session_transcript(reads: &Vec<ReadOutcome>) -> (events: Vec<PtyEvent>)
    ensures
        events@.map_values(|e: PtyEvent| e@) == events_of_run(reads@),
{
    let mut events: Vec<PtyEvent> = Vec::new();
    let n = reads.len();
    let mut i: usize = 0;
    proof {
        assert(reads@.skip(0) =~= reads@);
        assert(events@.map_values(|e: PtyEvent| e@) =~= Seq::<SessionEvent>::empty());
    }
    while i < n
        invariant
            n == reads@.len(),
            i <= n,
            forall|j: int| 0 <= j < i ==> reads@[j] is Data,
            events@.len() == i,
            events@.map_values(|e: PtyEvent| e@) + events_of_run(reads@.skip(i as int))
                =~= events_of_run(reads@),
        decreases n - i,
    {
        proof {
            assert(reads@.skip(i as int).first() == reads@[i as int]);
            assert(reads@.skip(i as int).drop_first() =~= reads@.skip(i as int + 1));
        }
        match reader_step(&reads[i]) {
            ReaderAction::EmitData(text) => {
                let ghost before = events@;
                events.push(PtyEvent::Data(text));
                proof {
                    assert(events@.map_values(|e: PtyEvent| e@) =~= before.map_values(
                        |e: PtyEvent| e@,
                    ).push(SessionEvent::Data(text@)));
                }
            },
            ReaderAction::Stop => {
                let ghost before = events@;
                events.push(PtyEvent::Exit);
                proof {
                    assert(events@.map_values(|e: PtyEvent| e@) =~= before.map_values(
                        |e: PtyEvent| e@,
                    ).push(SessionEvent::Exit));
                    assert(events@.map_values(|e: PtyEvent| e@) =~= events_of_run(reads@));
                }
                return events;
            },
        }
        i += 1;
    }
    let ghost before = events@;
    events.push(PtyEvent::Exit);
    proof {
        assert(reads@.skip(n as int) =~= Seq::<ReadOutcome>::empty());
        assert(events@.map_values(|e: PtyEvent| e@) =~= before.map_values(|e: PtyEvent| e@).push(
            SessionEvent::Exit,
        ));
        assert(events@.map_values(|e: PtyEvent| e@) =~= events_of_run(reads@));
    }
    events
}

/// Law: a session's data events are emitted in the order the bytes
/// were read: the i-th event of the stream carries exactly the decoded
/// text of the i-th read's chunk.
pub proof fn lemma_events_in_read_order(reads: Seq<ReadOutcome>)
    ensures
        forall|i: int| 0 <= i < events_of_run(reads).len() - 1 ==> (reads[i] matches
            ReadOutcome::Data(chunk) && #[trigger] events_of_run(reads)[i] == SessionEvent::Data(
            lossy_utf8(chunk@),
        )),
    decreases reads.len(),
{
    if reads.len() > 0 && reads.first() is Data {
        lemma_events_in_read_order(reads.drop_first());
        lemma_events_of_run_len(reads.drop_first());
        let es = events_of_run(reads);
        let rest = events_of_run(reads.drop_first());
        assert forall|i: int| 1 <= i < es.len() - 1 implies (reads[i] matches ReadOutcome::Data(
            chunk,
        ) && #[trigger] es[i] == SessionEvent::Data(lossy_utf8(chunk@))) by {
            assert(es[i] == rest[i - 1]);
            assert(reads.drop_first()[i - 1] == reads[i]);
        }
    }
}

/// The event stream holds at most one event per read, plus the exit.
proof fn lemma_events_of_run_len(reads: Seq<ReadOutcome>)
    ensures
        1 <= events_of_run(reads).len() <= reads.len() + 1,
    decreases reads.len(),
{
    if reads.len() > 0 && reads.first() is Data {
        lemma_events_of_run_len(reads.drop_first());
    }
}

/// Law: however a session's reads unfold, its event stream ends with
/// exactly one exit event — every earlier event is a data event, so no
/// data event ever follows the exit event.
pub proof fn lemma_exit_event_once_and_last(reads: Seq<ReadOutcome>)
    ensures
        events_of_run(reads).len() >= 1,
        events_of_run(reads).last() == SessionEvent::Exit,
        forall|i: int| 0 <= i < events_of_run(reads).len() - 1 ==> events_of_run(reads)[i] is Data,
    decreases reads.len(),
{
    if reads.len() > 0 && reads.first() is Data {
        lemma_exit_event_once_and_last(reads.drop_first());
    }
}

} // verus!
