//! The output side of a session: what the reader task makes of each read from
//! the pseudoterminal. Every chunk of bytes becomes one output event, in the
//! order it was read; the first end of stream (a zero-length read or a read
//! error) becomes the one exit event, after which nothing more is emitted.

use vstd::prelude::*;
use crate::codec::{b64_encoded, encode_base64};

verus! {

/// Output of a session, as sent to the event channel: the bytes are in
/// standard base64.
pub struct TerminalOutputEvent {
    pub terminal_id: String,
    pub data: String,
}

/// The end of a session's output, sent once. The exit status is best effort.
pub struct TerminalExitEvent {
    pub terminal_id: String,
    pub exit_code: Option<i32>,
}

/// One event of the reader task.
pub enum ReaderEvent {
    Output(TerminalOutputEvent),
    Exit(TerminalExitEvent),
}

/// What one read from the pseudoterminal gave: the bytes read (none at the
/// end of the stream), or a read error.
pub enum ReadOutcome {
    Data(Vec<u8>),
    Failed,
}

/// The bytes of a read; a read error counts as the end of the stream, as a
/// zero-length read does.
pub open spec fn read_bytes(o: ReadOutcome) -> Seq<u8> {
    match o {
        ReadOutcome::Data(v) => v@,
        ReadOutcome::Failed => Seq::empty(),
    }
}

/// What the reader task emits, with the output bytes before encoding.
pub enum Emitted {
    Output(Seq<u8>),
    Exit,
}

/// The events emitted for a sequence of reads, given as their bytes (empty
/// where the stream ended): one output per chunk up to the first end, then
/// one exit, then nothing.
pub open spec fn emitted(reads: Seq<Seq<u8>>) -> Seq<Emitted>
    decreases reads.len(),
{
    if reads.len() == 0 {
        Seq::empty()
    } else if reads[0].len() == 0 {
        seq![Emitted::Exit]
    } else {
        seq![Emitted::Output(reads[0])] + emitted(reads.drop_first())
    }
}

/// Whether the stream has ended within these reads.
pub open spec fn has_ended(reads: Seq<Seq<u8>>) -> bool {
    exists|i: int| 0 <= i < reads.len() && #[trigger] reads[i].len() == 0
}

/// The bytes that the process produced within these reads: every chunk read
/// before the end of the stream, in order.
pub open spec fn produced(reads: Seq<Seq<u8>>) -> Seq<u8>
    decreases reads.len(),
{
    if reads.len() == 0 || reads[0].len() == 0 {
        Seq::empty()
    } else {
        reads[0] + produced(reads.drop_first())
    }
}

/// The output bytes among the events, concatenated in order.
pub open spec fn output_bytes(events: Seq<Emitted>) -> Seq<u8>
    decreases events.len(),
{
    if events.len() == 0 {
        Seq::empty()
    } else {
        match events[0] {
            Emitted::Output(b) => b + output_bytes(events.drop_first()),
            Emitted::Exit => output_bytes(events.drop_first()),
        }
    }
}

/// How many exit events there are among the events.
pub open spec fn exit_count(events: Seq<Emitted>) -> nat
    decreases events.len(),
{
    if events.len() == 0 {
        0
    } else {
        (if events[0] is Exit { 1nat } else { 0nat }) + exit_count(events.drop_first())
    }
}

proof fn lemma_emitted_push(reads: Seq<Seq<u8>>, next: Seq<u8>)
    ensures
        emitted(reads.push(next)) == if has_ended(reads) {
            emitted(reads)
        } else if next.len() == 0 {
            emitted(reads).push(Emitted::Exit)
        } else {
            emitted(reads).push(Emitted::Output(next))
        },
    decreases reads.len(),
{
    let pushed = reads.push(next);
    if reads.len() == 0 {
        assert(emitted(pushed.drop_first()) == Seq::<Emitted>::empty()) by {
            assert(pushed.drop_first().len() == 0);
        }
        assert(!has_ended(reads));
    } else {
        assert(pushed[0] == reads[0]);
        assert(pushed.drop_first() =~= reads.drop_first().push(next));
        if reads[0].len() == 0 {
            assert(has_ended(reads));
        } else {
            lemma_emitted_push(reads.drop_first(), next);
            lemma_ended_tail(reads);
            assert(emitted(pushed) =~= seq![Emitted::Output(reads[0])] + emitted(
                reads.drop_first().push(next),
            ));
            if has_ended(reads) {
            } else if next.len() == 0 {
                assert(emitted(pushed) =~= emitted(reads).push(Emitted::Exit));
            } else {
                assert(emitted(pushed) =~= emitted(reads).push(Emitted::Output(next)));
            }
        }
    }
}

proof fn lemma_ended_tail(reads: Seq<Seq<u8>>)
    requires
        reads.len() > 0,
        reads[0].len() != 0,
    ensures
        has_ended(reads) == has_ended(reads.drop_first()),
{
    if has_ended(reads) {
        let i = choose|i: int| 0 <= i < reads.len() && #[trigger] reads[i].len() == 0;
        assert(reads.drop_first()[i - 1].len() == 0);
    }
    if has_ended(reads.drop_first()) {
        let i = choose|i: int| 0 <= i < reads.drop_first().len() && #[trigger] reads.drop_first()[i].len()
            == 0;
        assert(reads[i + 1].len() == 0);
    }
}

proof fn lemma_exit_count_concat(a: Seq<Emitted>, b: Seq<Emitted>)
    ensures
        exit_count(a + b) == exit_count(a) + exit_count(b),
    decreases a.len(),
{
    if a.len() == 0 {
        assert(a + b =~= b);
    } else {
        assert((a + b).drop_first() =~= a.drop_first() + b);
        lemma_exit_count_concat(a.drop_first(), b);
    }
}

proof fn lemma_output_bytes_concat(a: Seq<Emitted>, b: Seq<Emitted>)
    ensures
        output_bytes(a + b) == output_bytes(a) + output_bytes(b),
    decreases a.len(),
{
    if a.len() == 0 {
        assert(a + b =~= b);
        assert(output_bytes(a) + output_bytes(b) =~= output_bytes(b));
    } else {
        assert((a + b).drop_first() =~= a.drop_first() + b);
        lemma_output_bytes_concat(a.drop_first(), b);
        match a[0] {
            Emitted::Output(x) => {
                assert(x + (output_bytes(a.drop_first()) + output_bytes(b)) =~= (x + output_bytes(
                    a.drop_first(),
                )) + output_bytes(b));
            },
            Emitted::Exit => {},
        }
    }
}

/// A session's reads give exactly one exit event once its stream has ended,
/// and none before; that exit is the last event.
pub proof fn lemma_exactly_one_exit(reads: Seq<Seq<u8>>)
    ensures
        exit_count(emitted(reads)) == if has_ended(reads) { 1nat } else { 0nat },
        has_ended(reads) ==> emitted(reads).len() > 0 && emitted(reads).last() is Exit,
    decreases reads.len(),
{
    if reads.len() == 0 {
    } else if reads[0].len() == 0 {
        assert(has_ended(reads));
        let e = emitted(reads);
        assert(e.drop_first().len() == 0);
        assert(exit_count(e.drop_first()) == 0);
    } else {
        let rest = reads.drop_first();
        lemma_ended_tail(reads);
        lemma_exactly_one_exit(rest);
        let head = seq![Emitted::Output(reads[0])];
        lemma_exit_count_concat(head, emitted(rest));
        assert(head.drop_first().len() == 0);
        assert(exit_count(head.drop_first()) == 0);
        assert(exit_count(head) == 0);
    }
}

/// The output events of a session carry, concatenated in order, exactly the
/// bytes that the process produced before its stream ended.
pub proof fn lemma_output_is_produced(reads: Seq<Seq<u8>>)
    ensures
        output_bytes(emitted(reads)) == produced(reads),
    decreases reads.len(),
{
    if reads.len() == 0 {
    } else if reads[0].len() == 0 {
        let e = emitted(reads);
        assert(e.drop_first().len() == 0);
        assert(output_bytes(e.drop_first()) == Seq::<u8>::empty());
    } else {
        let rest = reads.drop_first();
        lemma_output_is_produced(rest);
        let head = seq![Emitted::Output(reads[0])];
        lemma_output_bytes_concat(head, emitted(rest));
        assert(head.drop_first().len() == 0);
        assert(output_bytes(head.drop_first()) == Seq::<u8>::empty());
        assert(output_bytes(head) =~= reads[0]);
    }
}

/// The reader task's state for one session.
pub struct OutputStream {
    terminal_id: String,
    finished: bool,
    reads: Ghost<Seq<Seq<u8>>>,
}

impl OutputStream {
    /// The session that the events are tagged with.
    pub closed spec fn id(&self) -> Seq<char> {
        self.terminal_id@
    }

    /// The reads handed in so far, as their bytes.
    pub closed spec fn reads(&self) -> Seq<Seq<u8>> {
        self.reads@
    }

    /// Whether the stream has ended, so that nothing more will be emitted.
    pub closed spec fn is_finished(&self) -> bool {
        self.finished
    }

    /// The state agrees with the reads handed in.
    pub closed spec fn wf(&self) -> bool {
        self.finished == has_ended(self.reads@)
    }

    /// The state of a session that has read nothing yet.
    pub fn new(terminal_id: String) -> (r: Self)
        ensures
            r.wf(),
            r.id() == terminal_id@,
            r.reads() == Seq::<Seq<u8>>::empty(),
            !r.is_finished(),
    {
        OutputStream { terminal_id, finished: false, reads: Ghost(Seq::empty()) }
    }

    /// Whether the stream has ended.
    pub fn finished(&self) -> (r: bool)
        ensures
            r == self.is_finished(),
    {
        self.finished
    }

    /// Takes the outcome of one read and returns the event to emit, if any.
    /// A chunk of bytes gives an output event with those bytes in base64; the
    /// end of the stream gives the exit event, once; after it, nothing.
    /// Across calls the events are exactly `emitted(self.reads())`.
    pub fn on_read(&mut self, outcome: ReadOutcome) -> (r: Option<ReaderEvent>)
        requires
            old(self).wf(),
            read_bytes(outcome).len() < usize::MAX as int / 2,
        ensures
            final(self).wf(),
            final(self).id() == old(self).id(),
            final(self).reads() == old(self).reads().push(read_bytes(outcome)),
            final(self).is_finished() == (old(self).is_finished() || read_bytes(outcome).len() == 0),
            emitted(final(self).reads()) == emitted(old(self).reads()) + match r {
                None => Seq::<Emitted>::empty(),
                Some(ReaderEvent::Output(_)) => seq![Emitted::Output(read_bytes(outcome))],
                Some(ReaderEvent::Exit(_)) => seq![Emitted::Exit],
            },
            old(self).is_finished() ==> r is None,
            !old(self).is_finished() && read_bytes(outcome).len() == 0 ==> (r matches Some(
                ReaderEvent::Exit(_),
            )),
            !old(self).is_finished() && read_bytes(outcome).len() > 0 ==> (r matches Some(
                ReaderEvent::Output(_),
            )),
            r matches Some(ReaderEvent::Output(ev)) ==> ev.terminal_id@ == old(self).id()
                && ev.data@ == b64_encoded(read_bytes(outcome)),
            r matches Some(ReaderEvent::Exit(ev)) ==> ev.terminal_id@ == old(self).id()
                && ev.exit_code is None,
    {
        let ghost bytes = read_bytes(outcome);
        proof {
            lemma_emitted_push(self.reads@, bytes);
            if has_ended(self.reads@) {
                let i = choose|i: int| 0 <= i < self.reads@.len() && #[trigger] self.reads@[i].len() == 0;
                assert(self.reads@.push(bytes)[i].len() == 0);
            }
            if bytes.len() == 0 {
                assert(self.reads@.push(bytes)[self.reads@.len() as int].len() == 0);
            }
            if !has_ended(self.reads@) && bytes.len() != 0 {
                assert forall|i: int| 0 <= i < self.reads@.push(bytes).len() implies
                    #[trigger] self.reads@.push(bytes)[i].len() != 0 by {
                    if i < self.reads@.len() {
                        assert(self.reads@[i].len() != 0);
                    }
                }
            }
        }
        self.reads = Ghost(self.reads@.push(bytes));
        if self.finished {
            return None;
        }
        match outcome {
            ReadOutcome::Data(chunk) => {
                if chunk.len() == 0 {
                    self.finished = true;
                    Some(ReaderEvent::Exit(TerminalExitEvent {
                        terminal_id: self.terminal_id.clone(),
                        exit_code: None,
                    }))
                } else {
                    let data = encode_base64(chunk.as_slice());
                    Some(ReaderEvent::Output(TerminalOutputEvent {
                        terminal_id: self.terminal_id.clone(),
                        data,
                    }))
                }
            },
            ReadOutcome::Failed => {
                self.finished = true;
                Some(ReaderEvent::Exit(TerminalExitEvent {
                    terminal_id: self.terminal_id.clone(),
                    exit_code: None,
                }))
            },
        }
    }
}

} // verus!
