use vstd::prelude::*;

use crate::ascii::{ASCII_CR, ASCII_NEWLINE};

verus! {

/// Longest wire packet, newline included.
pub const MAX_PACKET_LEN: usize = 64;

/// A received line did not fit the packet buffer.
#[derive(Clone, Copy, Debug, PartialEq, Eq, Structural)]
pub enum LineError {
    TooLong,
}

/// Reassembles newline-terminated packets from a byte stream.
pub struct LineBuffer {
    bytes: [u8; 64],
    len: usize,
    discarding: bool,
}

/// What a line buffer holds: the bytes of the line being read, and whether it
/// is skipping the rest of an overlong line.
pub struct LineState {
    pub pending: Seq<u8>,
    pub discarding: bool,
}

/// The outcome of pushing one byte.
pub type PushResult = Result<Option<Seq<u8>>, LineError>;

/// The state after pushing `byte` and what the push reports.
pub open spec fn spec_push(s: LineState, byte: u8) -> (LineState, PushResult) {
    if byte == ASCII_CR {
        (s, Ok(None))
    } else if byte == ASCII_NEWLINE {
        (
            LineState { pending: seq![], discarding: false },
            Ok(
                if !s.discarding && s.pending.len() != 0 {
                    Some(s.pending)
                } else {
                    None
                },
            ),
        )
    } else if s.discarding {
        (s, Ok(None))
    } else if s.pending.len() + 1 >= 64 {
        (LineState { pending: seq![], discarding: true }, Err(LineError::TooLong))
    } else {
        (LineState { pending: s.pending.push(byte), discarding: s.discarding }, Ok(None))
    }
}

impl View for LineBuffer {
    type V = LineState;

    closed spec fn view(&self) -> LineState {
        LineState { pending: self.bytes@.take(self.len as int), discarding: self.discarding }
    }
}

impl LineBuffer {
    #[verifier::type_invariant]
    closed spec fn wf(self) -> bool {
        self.len < 64 && (self.discarding ==> self.len == 0)
    }

    pub fn new() -> (b: Self)
        ensures
            b@.pending == Seq::<u8>::empty(),
            !b@.discarding,
    {
        let b = LineBuffer { bytes: [0; 64], len: 0, discarding: false };
        assert(b@.pending =~= Seq::<u8>::empty());
        b
    }

    /// Drops any partial line.
    pub fn clear(&mut self)
        ensures
            final(self)@.pending == Seq::<u8>::empty(),
            !final(self)@.discarding,
    {
        self.len = 0;
        self.discarding = false;
        assert(self@.pending =~= Seq::<u8>::empty());
    }

    /// Pushes one received byte; returns the completed line when `byte` ends
    /// one. Carriage returns are ignored, and an overlong line is reported once
    /// and then skipped up to its newline.
    pub fn push(&mut self, byte: u8) -> (res: Result<Option<&[u8]>, LineError>)
        ensures
            final(self)@ == spec_push(old(self)@, byte).0,
            match (res, spec_push(old(self)@, byte).1) {
                (Ok(Some(line)), Ok(Some(expected))) => line@ == expected,
                (Ok(None), Ok(None)) => true,
                (Err(e), Err(expected)) => e == expected,
                _ => false,
            },
    {
        proof {
            use_type_invariant(&*self);
        }
        if byte == ASCII_CR {
            return Ok(None);
        }
        if byte == ASCII_NEWLINE {
            let emit = !self.discarding && self.len != 0;
            let len = self.len;
            self.len = 0;
            self.discarding = false;
            assert(self@.pending =~= Seq::<u8>::empty());
            if emit {
                return Ok(Some(self.bytes.as_slice().split_at(len).0));
            }
            return Ok(None);
        }
        if self.discarding {
            return Ok(None);
        }
        if self.len + 1 >= 64 {
            self.len = 0;
            self.discarding = true;
            assert(self@.pending =~= Seq::<u8>::empty());
            return Err(LineError::TooLong);
        }
        let ghost before = self@.pending;
        self.bytes[self.len] = byte;
        self.len = self.len + 1;
        assert(self@.pending =~= before.push(byte));
        Ok(None)
    }
}

impl LineBuffer {
    /// How `push` frames a whole line. Take a buffer that is empty and not
    /// discarding (after `new`, after `clear`, or after a newline) and push
    /// the bytes of a line `body` without a newline, one call each, then a
    /// newline: `spec_feed` is what those calls report, call after call, and
    /// the buffer ends empty and not discarding again. Let `line` be `body`
    /// without its carriage returns. Each byte of `body` reports nothing,
    /// except that when `line` has 64 bytes or more, exactly one byte reports
    /// `TooLong`: the one that is `line`'s 64th. The newline reports `line`
    /// when it has 1 to 63 bytes, and nothing otherwise.
    pub proof fn lemma_frames_line(body: Seq<u8>)
        requires
            forall|i: int| 0 <= i < body.len() ==> body[i] != ASCII_NEWLINE,
        ensures
            ({
                let fresh = LineState { pending: seq![], discarding: false };
                let line = without_cr(body);
                let (end, results) = spec_feed(fresh, body.push(ASCII_NEWLINE));
                &&& end == fresh
                &&& results.len() == body.len() + 1
                &&& forall|i: int| 0 <= i < body.len() ==> #[trigger] results[i] == spec_body_report(body, i)
                &&& line.len() < 64 ==> forall|i: int|
                    0 <= i < body.len() ==> #[trigger] results[i] == Ok::<Option<Seq<u8>>, LineError>(None)
                &&& line.len() >= 64 ==> exists|k: int|
                    0 <= k < body.len() && #[trigger] results[k] == Err::<Option<Seq<u8>>, LineError>(LineError::TooLong)
                        && forall|i: int| 0 <= i < body.len() && i != k ==> #[trigger] results[i] == Ok::<Option<Seq<u8>>, LineError>(None)
                &&& results[body.len() as int] == if 0 < line.len() < 64 {
                    Ok::<Option<Seq<u8>>, LineError>(Some(line))
                } else {
                    Ok::<Option<Seq<u8>>, LineError>(None)
                }
            }),
    {
        let fresh = LineState { pending: seq![], discarding: false };
        lemma_feed_fresh(body);
        let full = body.push(ASCII_NEWLINE);
        assert(full.drop_last() =~= body);
        let (prev_state, prev) = spec_feed(fresh, body);
        let (end, results) = spec_feed(fresh, full);
        assert(results == prev.push(spec_push(prev_state, ASCII_NEWLINE).1));
        assert forall|i: int| 0 <= i < body.len() implies #[trigger] results[i] == prev[i] by {}
        if without_cr(body).len() >= 64 {
            let k = choose|k: int|
                0 <= k < body.len() && #[trigger] prev[k] == Err::<Option<Seq<u8>>, LineError>(LineError::TooLong)
                    && forall|i: int| 0 <= i < body.len() && i != k ==> #[trigger] prev[i] == Ok::<Option<Seq<u8>>, LineError>(None);
            assert(results[k] == prev[k]);
        }
    }
}

impl Default for LineBuffer {
    fn default() -> (b: Self)
        ensures
            b@.pending == Seq::<u8>::empty(),
            !b@.discarding,
    {
        Self::new()
    }
}

/// Pushing every byte of `input` in turn, as `LineBuffer::push` does one
/// call after another: the final state and what each push reported.
pub open spec fn spec_feed(s: LineState, input: Seq<u8>) -> (LineState, Seq<PushResult>)
    decreases input.len(),
{
    if input.len() == 0 {
        (s, seq![])
    } else {
        let (mid, results) = spec_feed(s, input.drop_last());
        let (end, r) = spec_push(mid, input.last());
        (end, results.push(r))
    }
}

/// The bytes of `input` other than carriage returns.
pub open spec fn without_cr(input: Seq<u8>) -> Seq<u8> {
    input.filter(|b: u8| b != ASCII_CR)
}

/// An overlong line is dropped: once the buffer is discarding, every byte other
/// than a newline is ignored, and the newline reports nothing and leaves the
/// buffer fresh.
pub proof fn lemma_overflow_recovery(rest: Seq<u8>)
    requires
        forall|i: int| 0 <= i < rest.len() ==> rest[i] != ASCII_NEWLINE,
    ensures
        ({
            let discarding = LineState { pending: seq![], discarding: true };
            let (end, results) = spec_feed(discarding, rest.push(ASCII_NEWLINE));
            &&& end == (LineState { pending: seq![], discarding: false })
            &&& forall|i: int| 0 <= i < results.len() ==> #[trigger] results[i] == Ok::<Option<Seq<u8>>, LineError>(None)
        }),
{
    let discarding = LineState { pending: seq![], discarding: true };
    lemma_feed_discarding(rest);
    assert(rest.push(ASCII_NEWLINE).drop_last() =~= rest);
    let (end, results) = spec_feed(discarding, rest.push(ASCII_NEWLINE));
    assert forall|i: int| 0 <= i < results.len() implies #[trigger] results[i] == Ok::<Option<Seq<u8>>, LineError>(None) by {
        if i < rest.len() {
            assert(results[i] == spec_feed(discarding, rest).1[i]);
        }
    }
}

proof fn lemma_feed_discarding(rest: Seq<u8>)
    requires
        forall|i: int| 0 <= i < rest.len() ==> rest[i] != ASCII_NEWLINE,
    ensures
        spec_feed(LineState { pending: seq![], discarding: true }, rest).0 == (LineState { pending: seq![], discarding: true }),
        spec_feed(LineState { pending: seq![], discarding: true }, rest).1.len() == rest.len(),
        forall|i: int| 0 <= i < rest.len() ==> #[trigger] spec_feed(LineState { pending: seq![], discarding: true }, rest).1[i] == Ok::<Option<Seq<u8>>, LineError>(None),
    decreases rest.len(),
{
    if rest.len() > 0 {
        lemma_feed_discarding(rest.drop_last());
    }
}

/// The state of a fresh buffer after it was fed `body`, a line without a
/// newline: the bytes other than carriage returns while they fit, or skipping
/// once they do not.
pub open spec fn spec_fed_state(body: Seq<u8>) -> LineState {
    if without_cr(body).len() < 64 {
        LineState { pending: without_cr(body), discarding: false }
    } else {
        LineState { pending: seq![], discarding: true }
    }
}

/// What pushing byte `i` of `body` into a fresh buffer fed the bytes before
/// it reports: `TooLong` for the byte that would be the line's 64th other
/// than carriage returns, nothing for every other byte.
pub open spec fn spec_body_report(body: Seq<u8>, i: int) -> PushResult {
    if body[i] != ASCII_CR && without_cr(body.take(i)).len() == 63 {
        Err(LineError::TooLong)
    } else {
        Ok(None)
    }
}

proof fn lemma_feed_fresh(body: Seq<u8>)
    requires
        forall|i: int| 0 <= i < body.len() ==> body[i] != ASCII_NEWLINE,
    ensures
        spec_feed(LineState { pending: seq![], discarding: false }, body).0 == spec_fed_state(body),
        spec_feed(LineState { pending: seq![], discarding: false }, body).1.len() == body.len(),
        forall|i: int|
            0 <= i < body.len() ==> #[trigger] spec_feed(LineState { pending: seq![], discarding: false }, body).1[i]
                == spec_body_report(body, i),
        without_cr(body).len() < 64 ==> forall|i: int|
            0 <= i < body.len() ==> #[trigger] spec_feed(LineState { pending: seq![], discarding: false }, body).1[i]
                == Ok::<Option<Seq<u8>>, LineError>(None),
        without_cr(body).len() >= 64 ==> exists|k: int|
            0 <= k < body.len() && #[trigger] spec_feed(LineState { pending: seq![], discarding: false }, body).1[k]
                == Err::<Option<Seq<u8>>, LineError>(LineError::TooLong) && forall|i: int|
                0 <= i < body.len() && i != k ==> #[trigger] spec_feed(
                    LineState { pending: seq![], discarding: false },
                    body,
                ).1[i] == Ok::<Option<Seq<u8>>, LineError>(None),
    decreases body.len(),
{
    let fresh = LineState { pending: seq![], discarding: false };
    if body.len() == 0 {
        assert(without_cr(body) =~= Seq::<u8>::empty()) by {
            reveal_with_fuel(Seq::<_>::filter, 1);
        }
    } else {
        let init = body.drop_last();
        let b = body.last();
        assert(init.push(b) =~= body);
        lemma_feed_fresh(init);
        init.lemma_filter_push(b, |x: u8| x != ASCII_CR);
        let (mid, prev) = spec_feed(fresh, init);
        let (end, results) = spec_feed(fresh, body);
        assert(results == prev.push(spec_push(mid, b).1));
        assert(body.take(init.len() as int) =~= init);
        assert forall|i: int| 0 <= i < init.len() implies #[trigger] results[i] == spec_body_report(body, i) by {
            assert(body.take(i) =~= init.take(i));
            assert(results[i] == prev[i]);
        }
        assert(results[init.len() as int] == spec_body_report(body, init.len() as int));
        if without_cr(body).len() >= 64 {
            if without_cr(init).len() >= 64 {
                let k = choose|k: int|
                    0 <= k < init.len() && #[trigger] prev[k] == Err::<Option<Seq<u8>>, LineError>(LineError::TooLong)
                        && forall|i: int| 0 <= i < init.len() && i != k ==> #[trigger] prev[i] == Ok::<Option<Seq<u8>>, LineError>(None);
                assert(results[k] == prev[k]);
                assert forall|i: int| 0 <= i < body.len() && i != k implies #[trigger] results[i] == Ok::<Option<Seq<u8>>, LineError>(None) by {
                    if i < init.len() {
                        assert(results[i] == prev[i]);
                    }
                }
            } else {
                let k = init.len() as int;
                assert(results[k] == Err::<Option<Seq<u8>>, LineError>(LineError::TooLong));
                assert forall|i: int| 0 <= i < body.len() && i != k implies #[trigger] results[i] == Ok::<Option<Seq<u8>>, LineError>(None) by {
                    assert(results[i] == prev[i]);
                }
            }
        } else {
            assert forall|i: int| 0 <= i < body.len() implies #[trigger] results[i] == Ok::<Option<Seq<u8>>, LineError>(None) by {
                if i < init.len() {
                    assert(results[i] == prev[i]);
                }
            }
        }
    }
}

} // verus!
