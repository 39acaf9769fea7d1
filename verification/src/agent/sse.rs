//! Incremental server-sent-events `data:` framing over raw bytes, so UTF-8
//! sequences and line boundaries may be split across arbitrary chunks.

use vstd::prelude::*;
use vstd::string::StringExecFns;
use vstd::utf8::*;

use crate::text::{
    chars_of, decimal, lemma_encode_utf8_concat, push_chars, push_decimal, string_from_utf8,
    text_of_encoding,
};

use crate::agent::error::Error;

verus! {

pub const DEFAULT_MAX_EVENT_BYTES: usize = 1024 * 1024;

/// Abstract parser state: the partial line, the data lines of the pending
/// event, and the byte count charged to the pending event.
pub struct SseState {
    pub line: Seq<u8>,
    pub data_lines: Seq<Seq<u8>>,
    pub event_bytes: int,
}

/// Why framing failed.
pub enum SseFault {
    SizeOverflow,
    TooLarge,
    InvalidUtf8,
}

/// Outcome of consuming input: the next state and the completed events, or
/// the fault that stopped framing.
pub type SseStep = Result<(SseState, Seq<Seq<u8>>), SseFault>;

/// The line without one trailing carriage return.
pub open spec fn strip_cr(line: Seq<u8>) -> Seq<u8> {
    if line.len() > 0 && line.last() == 13u8 {
        line.drop_last()
    } else {
        line
    }
}

/// Index of the first `byte` at or after `from`, or the length when absent.
pub open spec fn index_of_from(s: Seq<u8>, byte: u8, from: int) -> int
    decreases s.len() - from,
{
    if from >= s.len() {
        s.len() as int
    } else if s[from] == byte {
        from
    } else {
        index_of_from(s, byte, from + 1)
    }
}

/// Field name of a non-comment line: everything before the first colon.
pub open spec fn field_of(line: Seq<u8>) -> Seq<u8> {
    line.subrange(0, index_of_from(line, 58u8, 0))
}

/// Field value of a line: everything after the first colon, without one
/// leading space.
pub open spec fn value_of(line: Seq<u8>) -> Seq<u8> {
    let colon = index_of_from(line, 58u8, 0);
    let raw = if colon < line.len() {
        line.subrange(colon + 1, line.len() as int)
    } else {
        Seq::empty()
    };
    if raw.len() > 0 && raw[0] == 32u8 {
        raw.drop_first()
    } else {
        raw
    }
}

/// Data lines joined with line feeds.
pub open spec fn join_lines(lines: Seq<Seq<u8>>) -> Seq<u8>
    decreases lines.len(),
{
    if lines.len() == 0 {
        Seq::empty()
    } else if lines.len() == 1 {
        lines[0]
    } else {
        join_lines(lines.drop_last()) + seq![10u8] + lines.last()
    }
}

/// Ends the pending event: nothing when it has no data, else its joined data.
pub open spec fn dispatch_spec(st: SseState) -> SseStep {
    if st.data_lines.len() == 0 {
        Ok((SseState { event_bytes: 0, ..st }, Seq::empty()))
    } else if !valid_utf8(join_lines(st.data_lines)) {
        Err(SseFault::InvalidUtf8)
    } else {
        Ok(
            (
                SseState { data_lines: Seq::empty(), event_bytes: 0, ..st },
                seq![join_lines(st.data_lines)],
            ),
        )
    }
}

/// Interprets one complete line.
pub open spec fn process_line_spec(st: SseState, line: Seq<u8>, max: int) -> SseStep {
    if line.len() == 0 {
        dispatch_spec(st)
    } else if line[0] == 58u8 {
        Ok((st, Seq::empty()))
    } else if field_of(line) == seq![100u8, 97u8, 116u8, 97u8] {
        let bytes = st.event_bytes + value_of(line).len() + 1;
        if bytes > usize::MAX {
            Err(SseFault::SizeOverflow)
        } else if bytes > max {
            Err(SseFault::TooLarge)
        } else {
            Ok(
                (
                    SseState {
                        data_lines: st.data_lines.push(value_of(line)),
                        event_bytes: bytes,
                        ..st
                    },
                    Seq::empty(),
                ),
            )
        }
    } else {
        Ok((st, Seq::empty()))
    }
}

/// Consumes one byte.
pub open spec fn step_spec(st: SseState, byte: u8, max: int) -> SseStep {
    if byte == 10u8 {
        process_line_spec(SseState { line: Seq::empty(), ..st }, strip_cr(st.line), max)
    } else if st.line.len() + 1 > max {
        Err(SseFault::TooLarge)
    } else {
        Ok((SseState { line: st.line.push(byte), ..st }, Seq::empty()))
    }
}

/// Consumes a sequence of bytes in order, collecting the completed events.
pub open spec fn feed_spec(st: SseState, bytes: Seq<u8>, max: int) -> SseStep
    decreases bytes.len(),
{
    if bytes.len() == 0 {
        Ok((st, Seq::empty()))
    } else {
        match feed_spec(st, bytes.drop_last(), max) {
            Ok((mid, events)) => match step_spec(mid, bytes.last(), max) {
                Ok((next, more)) => Ok((next, events + more)),
                Err(fault) => Err(fault),
            },
            Err(fault) => Err(fault),
        }
    }
}

/// Ends the stream: the unterminated line is processed, then the pending
/// event is dispatched.
pub open spec fn finish_spec(st: SseState, max: int) -> SseStep {
    let after_line = if st.line.len() > 0 {
        process_line_spec(SseState { line: Seq::empty(), ..st }, strip_cr(st.line), max)
    } else {
        Ok((st, Seq::empty()))
    };
    match after_line {
        Ok((mid, events)) => match dispatch_spec(mid) {
            Ok((last, more)) => Ok((last, events + more)),
            Err(fault) => Err(fault),
        },
        Err(fault) => Err(fault),
    }
}

/// The events produced by framing, decoded as text.
pub open spec fn decoded(events: Seq<Seq<u8>>) -> Seq<Seq<char>> {
    events.map_values(|bytes: Seq<u8>| decode_utf8(bytes))
}

/// Incremental SSE `data:` field parser.
pub struct SseParser {
    line_buffer: Vec<u8>,
    data_lines: Vec<Vec<u8>>,
    event_bytes: usize,
    max_event_bytes: usize,
}

impl View for SseParser {
    type V = SseState;

    closed spec fn view(&self) -> SseState {
        SseState {
            line: self.line_buffer@,
            data_lines: self.data_lines@.map_values(|line: Vec<u8>| line@),
            event_bytes: self.event_bytes as int,
        }
    }
}

/// Error message for an oversized event, naming the limit in decimal.
pub open spec fn limit_message_text(limit: usize) -> Seq<char> {
    "event exceeded "@ + decimal(limit as nat) + " byte limit"@
}

/// The message of the error a framing fault is reported with.
pub open spec fn fault_message(fault: SseFault, max: usize) -> Seq<char> {
    match fault {
        SseFault::SizeOverflow => "event size overflow"@,
        SseFault::TooLarge => limit_message_text(max),
        SseFault::InvalidUtf8 => "event data is not valid UTF-8"@,
    }
}

/// The error message for an oversized event.
fn limit_message(limit: usize) -> (message: String)
    ensures
        message@ == limit_message_text(limit),
{
    let head = "event exceeded ";
    let tail = " byte limit";
    let mut out: Vec<u8> = Vec::new();
    let head_chars = chars_of(head);
    push_chars(&mut out, head_chars.as_slice());
    push_decimal(&mut out, limit);
    let tail_chars = chars_of(tail);
    push_chars(&mut out, tail_chars.as_slice());
    proof {
        lemma_encode_utf8_concat(head@, decimal(limit as nat));
        lemma_encode_utf8_concat(head@ + decimal(limit as nat), tail@);
        assert(out@ =~= encode_utf8(limit_message_text(limit)));
    }
    text_of_encoding(out, Ghost(limit_message_text(limit)))
}

impl SseParser {
    /// The largest event, in bytes, that this parser accepts.
    pub closed spec fn max_event_bytes(&self) -> int {
        self.max_event_bytes as int
    }

    /// Event and line sizes never exceed the limit.
    pub closed spec fn well_formed(&self) -> bool {
        &&& self.event_bytes <= self.max_event_bytes
        &&& self.line_buffer@.len() <= self.max_event_bytes
    }

    pub fn new(max_event_bytes: usize) -> (parser: Self)
        ensures
            parser@.line == Seq::<u8>::empty(),
            parser@.data_lines == Seq::<Seq<u8>>::empty(),
            parser@.event_bytes == 0,
            parser.max_event_bytes() == max_event_bytes,
            parser.well_formed(),
    {
        let parser = SseParser {
            line_buffer: Vec::new(),
            data_lines: Vec::new(),
            event_bytes: 0,
            max_event_bytes,
        };
        proof {
            assert(parser@.data_lines =~= Seq::<Seq<u8>>::empty());
        }
        parser
    }

    fn ensure_size(&self, size: usize) -> (r: Result<(), Error>)
        ensures
            r is Ok <==> size <= self.max_event_bytes,
            r matches Err(Error::Sse(m)) ==> m@ == limit_message_text(self.max_event_bytes),
            r is Err ==> r matches Err(Error::Sse(_)),
    {
        if size > self.max_event_bytes {
            Err(Error::Sse(limit_message(self.max_event_bytes)))
        } else {
            Ok(())
        }
    }
}


/// Feeding `a` and then `b` from the state `a` leaves gives the same state
/// and the same events, in order, as feeding `a + b` at once: framing does
/// not depend on where the transport splits the byte stream.
pub open spec fn feed_then(st: SseState, a: Seq<u8>, b: Seq<u8>, max: int) -> SseStep {
    match feed_spec(st, a, max) {
        Ok((mid, first)) => match feed_spec(mid, b, max) {
            Ok((end, second)) => Ok((end, first + second)),
            Err(fault) => Err(fault),
        },
        Err(fault) => Err(fault),
    }
}

/// Framing is independent of chunk boundaries: feeding `a` then `b` is
/// feeding `a + b`.
pub proof fn law_feed_chunking(st: SseState, a: Seq<u8>, b: Seq<u8>, max: int)
    ensures
        feed_spec(st, a + b, max) == feed_then(st, a, b, max),
    decreases b.len(),
{
    if b.len() == 0 {
        assert(a + b =~= a);
        match feed_spec(st, a, max) {
            Ok((mid, first)) => {
                assert(first + Seq::<Seq<u8>>::empty() =~= first);
            },
            Err(_) => {},
        }
    } else {
        let b0 = b.drop_last();
        assert((a + b).drop_last() =~= a + b0);
        assert((a + b).last() == b.last());
        law_feed_chunking(st, a, b0, max);
        match feed_spec(st, a, max) {
            Ok((mid, first)) => {
                match feed_spec(mid, b0, max) {
                    Ok((m2, second)) => {
                        match step_spec(m2, b.last(), max) {
                            Ok((end, third)) => {
                                assert(first + second + third =~= first + (second + third));
                            },
                            Err(_) => {},
                        }
                    },
                    Err(_) => {},
                }
            },
            Err(_) => {},
        }
    }
}

/// The texts of a vector of strings.
pub open spec fn texts(events: Seq<String>) -> Seq<Seq<char>> {
    events.map_values(|event: String| event@)
}

/// Index of the first colon in `line`, or its length.
fn find_colon(line: &Vec<u8>) -> (index: usize)
    ensures
        index == index_of_from(line@, 58u8, 0),
        index <= line@.len(),
{
    let mut i: usize = 0;
    while i < line.len()
        invariant
            i <= line@.len(),
            index_of_from(line@, 58u8, i as int) == index_of_from(line@, 58u8, 0),
        decreases line@.len() - i,
    {
        if line[i] == 58u8 {
            return i;
        }
        i = i + 1;
    }
    i
}

/// The bytes `line[start..]`.
fn copy_tail(line: &Vec<u8>, start: usize) -> (tail: Vec<u8>)
    requires
        start <= line@.len(),
    ensures
        tail@ == line@.subrange(start as int, line@.len() as int),
{
    let mut tail: Vec<u8> = Vec::new();
    let mut i = start;
    while i < line.len()
        invariant
            start <= i <= line@.len(),
            tail@ == line@.subrange(start as int, i as int),
        decreases line@.len() - i,
    {
        tail.push(line[i]);
        proof {
            assert(tail@ =~= line@.subrange(start as int, i + 1));
        }
        i = i + 1;
    }
    tail
}

/// Once framing fails on a prefix, it fails on the whole input.
proof fn lemma_feed_error_persists(st: SseState, bytes: Seq<u8>, i: int, max: int)
    requires
        0 <= i <= bytes.len(),
        feed_spec(st, bytes.take(i), max) is Err,
    ensures
        feed_spec(st, bytes, max) == feed_spec(st, bytes.take(i), max),
    decreases bytes.len() - i,
{
    if i == bytes.len() {
        assert(bytes.take(i) =~= bytes);
    } else {
        assert(bytes.take(i + 1).drop_last() =~= bytes.take(i));
        assert(feed_spec(st, bytes.take(i + 1), max) == feed_spec(st, bytes.take(i), max));
        lemma_feed_error_persists(st, bytes, i + 1, max);
    }
}

proof fn lemma_join_push(lines: Seq<Seq<u8>>, i: int)
    requires
        0 < i < lines.len(),
    ensures
        join_lines(lines.take(i + 1)) == join_lines(lines.take(i)) + seq![10u8] + lines[i],
{
    assert(lines.take(i + 1).drop_last() =~= lines.take(i));
}

impl SseParser {
    fn dispatch(&mut self, events: &mut Vec<String>) -> (r: Result<(), Error>)
        requires
            old(self).well_formed(),
        ensures
            final(self).max_event_bytes() == old(self).max_event_bytes(),
            match dispatch_spec(old(self)@) {
                Ok((st, more)) => r is Ok && final(self)@ == st && final(self).well_formed()
                    && texts(final(events)@) == texts(old(events)@) + decoded(more),
                Err(fault) => r matches Err(Error::Sse(m)) && m@ == fault_message(
                    fault,
                    old(self).max_event_bytes() as usize,
                ),
            },
    {
        if self.data_lines.len() == 0 {
            self.event_bytes = 0;
            return Ok(());
        }
        let ghost lines = self@.data_lines;
        let mut data: Vec<u8> = Vec::new();
        let n = self.data_lines.len();
        let mut i: usize = 0;
        while i < n
            invariant
                n == self.data_lines@.len(),
                lines == self@.data_lines,
                0 < n,
                i <= n,
                i > 0 ==> data@ == join_lines(lines.take(i as int)),
                i == 0 ==> data@ == Seq::<u8>::empty(),
            decreases n - i,
        {
            if i > 0 {
                data.push(10u8);
            }
            let line = &self.data_lines[i];
            let mut j: usize = 0;
            let ghost prefix = data@;
            while j < line.len()
                invariant
                    j <= line@.len(),
                    data@ == prefix + line@.take(j as int),
                decreases line@.len() - j,
            {
                data.push(line[j]);
                proof {
                    assert(data@ =~= prefix + line@.take(j + 1));
                }
                j = j + 1;
            }
            proof {
                assert(line@.take(line@.len() as int) =~= line@);
                assert(lines[i as int] == line@);
                if i == 0 {
                    assert(lines.take(1) =~= seq![lines[0]]);
                    assert(data@ =~= lines[0]);
                } else {
                    lemma_join_push(lines, i as int);
                }
            }
            i = i + 1;
        }
        proof {
            assert(lines.take(n as int) =~= lines);
        }
        self.data_lines = Vec::new();
        self.event_bytes = 0;
        match string_from_utf8(data) {
            Some(text) => {
                let ghost before = old(events)@;
                events.push(text);
                proof {
                    assert(self@.data_lines =~= Seq::<Seq<u8>>::empty());
                    assert(texts(events@) =~= texts(before) + decoded(seq![join_lines(lines)]));
                }
                Ok(())
            },
            None => Err(Error::Sse(String::from_str("event data is not valid UTF-8"))),
        }
    }

    fn process_line(&mut self, line: Vec<u8>, events: &mut Vec<String>) -> (r: Result<(), Error>)
        requires
            old(self).well_formed(),
        ensures
            final(self).max_event_bytes() == old(self).max_event_bytes(),
            match process_line_spec(old(self)@, line@, old(self).max_event_bytes()) {
                Ok((st, more)) => r is Ok && final(self)@ == st && final(self).well_formed()
                    && texts(final(events)@) == texts(old(events)@) + decoded(more),
                Err(fault) => r matches Err(Error::Sse(m)) && m@ == fault_message(
                    fault,
                    old(self).max_event_bytes() as usize,
                ),
            },
    {
        if line.len() == 0 {
            return self.dispatch(events);
        }
        if line[0] == 58u8 {
            proof {
                assert(texts(events@) =~= texts(old(events)@) + decoded(Seq::empty()));
            }
            return Ok(());
        }
        let colon = find_colon(&line);
        let is_data = colon == 4 && line[0] == 100u8 && line[1] == 97u8 && line[2] == 116u8
            && line[3] == 97u8;
        let ghost data_name = seq![100u8, 97u8, 116u8, 97u8];
        proof {
            if is_data {
                assert(field_of(line@) =~= data_name);
            } else if colon == 4 {
                assert(field_of(line@).len() == 4);
                if field_of(line@) == data_name {
                    assert(field_of(line@)[0] == line@[0]);
                    assert(field_of(line@)[1] == line@[1]);
                    assert(field_of(line@)[2] == line@[2]);
                    assert(field_of(line@)[3] == line@[3]);
                }
            } else {
                assert(field_of(line@).len() != data_name.len());
            }
        }
        if !is_data {
            proof {
                assert(texts(events@) =~= texts(old(events)@) + decoded(Seq::empty()));
            }
            return Ok(());
        }
        let raw_start = if colon < line.len() {
            colon + 1
        } else {
            line.len()
        };
        let start = if raw_start < line.len() && line[raw_start] == 32u8 {
            raw_start + 1
        } else {
            raw_start
        };
        let value = copy_tail(&line, start);
        proof {
            let raw = if colon < line@.len() {
                line@.subrange(colon + 1, line@.len() as int)
            } else {
                Seq::empty()
            };
            assert(raw =~= line@.subrange(raw_start as int, line@.len() as int));
            if raw.len() > 0 && raw[0] == 32u8 {
                assert(raw.drop_first() =~= value@);
            } else {
                assert(raw =~= value@);
            }
            assert(value@ == value_of(line@));
        }
        let additional = value.len() + 1;
        match self.event_bytes.checked_add(additional) {
            None => Err(Error::Sse(String::from_str("event size overflow"))),
            Some(bytes) => {
                if bytes > self.max_event_bytes {
                    self.event_bytes = bytes;
                    return Err(Error::Sse(limit_message(self.max_event_bytes)));
                }
                self.event_bytes = bytes;
                let ghost before = self.data_lines@;
                self.data_lines.push(value);
                proof {
                    assert(self@.data_lines =~= old(self)@.data_lines.push(value_of(line@)));
                    assert(texts(events@) =~= texts(old(events)@) + decoded(Seq::empty()));
                }
                Ok(())
            },
        }
    }

    /// Consumes a chunk of bytes and returns the events it completes.
    pub fn feed(&mut self, chunk: &[u8]) -> (r: Result<Vec<String>, Error>)
        requires
            old(self).well_formed(),
        ensures
            final(self).max_event_bytes() == old(self).max_event_bytes(),
            match feed_spec(old(self)@, chunk@, old(self).max_event_bytes()) {
                Ok((st, events)) => r matches Ok(out) && final(self)@ == st
                    && final(self).well_formed() && texts(out@) == decoded(events),
                Err(fault) => r matches Err(Error::Sse(m)) && m@ == fault_message(
                    fault,
                    old(self).max_event_bytes() as usize,
                ),
            },
    {
        let mut events: Vec<String> = Vec::new();
        let ghost max = self.max_event_bytes();
        let mut i: usize = 0;
        proof {
            assert(chunk@.take(0) =~= Seq::<u8>::empty());
            assert(texts(events@) =~= decoded(Seq::empty()));
        }
        while i < chunk.len()
            invariant
                i <= chunk@.len(),
                self.well_formed(),
                self.max_event_bytes() == max,
                max == old(self).max_event_bytes(),
                feed_spec(old(self)@, chunk@.take(i as int), max) matches Ok((st, evs)) && st
                    == self@ && texts(events@) == decoded(evs),
            decreases chunk@.len() - i,
        {
            let byte = chunk[i];
            let ghost prior = feed_spec(old(self)@, chunk@.take(i as int), max);
            let ghost prior_events = prior->Ok_0.1;
            proof {
                assert(chunk@.take(i + 1).drop_last() =~= chunk@.take(i as int));
                assert(chunk@.take(i + 1).last() == byte);
            }
            if byte == 10u8 {
                let mut line: Vec<u8> = Vec::new();
                std::mem::swap(&mut line, &mut self.line_buffer);
                if line.len() > 0 && line[line.len() - 1] == 13u8 {
                    line.pop();
                }
                proof {
                    assert(line@ == strip_cr(prior->Ok_0.0.line));
                }
                let result = self.process_line(line, &mut events);
                match result {
                    Ok(()) => {},
                    Err(e) => {
                        proof {
                            lemma_feed_error_persists(old(self)@, chunk@, i + 1, max);
                        }
                        return Err(e);
                    },
                }
                proof {
                    assert(decoded(prior_events) + decoded(
                        step_spec(prior->Ok_0.0, byte, max)->Ok_0.1,
                    ) =~= decoded(prior_events + step_spec(prior->Ok_0.0, byte, max)->Ok_0.1));
                }
            } else {
                self.line_buffer.push(byte);
                match self.ensure_size(self.line_buffer.len()) {
                    Ok(()) => {},
                    Err(e) => {
                        proof {
                            lemma_feed_error_persists(old(self)@, chunk@, i + 1, max);
                        }
                        return Err(e);
                    },
                }
                proof {
                    assert(prior_events + Seq::<Seq<u8>>::empty() =~= prior_events);
                }
            }
            i = i + 1;
        }
        proof {
            assert(chunk@.take(chunk@.len() as int) =~= chunk@);
        }
        Ok(events)
    }

    /// Ends the stream: processes any unterminated line, then dispatches the
    /// pending event.
    pub fn finish(&mut self) -> (r: Result<Vec<String>, Error>)
        requires
            old(self).well_formed(),
        ensures
            final(self).max_event_bytes() == old(self).max_event_bytes(),
            match finish_spec(old(self)@, old(self).max_event_bytes()) {
                Ok((st, events)) => r matches Ok(out) && final(self)@ == st
                    && final(self).well_formed() && texts(out@) == decoded(events),
                Err(fault) => r matches Err(Error::Sse(m)) && m@ == fault_message(
                    fault,
                    old(self).max_event_bytes() as usize,
                ),
            },
    {
        let mut events: Vec<String> = Vec::new();
        let ghost max = self.max_event_bytes();
        proof {
            assert(texts(events@) =~= decoded(Seq::empty()));
        }
        if self.line_buffer.len() > 0 {
            let mut line: Vec<u8> = Vec::new();
            std::mem::swap(&mut line, &mut self.line_buffer);
            if line.len() > 0 && line[line.len() - 1] == 13u8 {
                line.pop();
            }
            match self.process_line(line, &mut events) {
                Ok(()) => {},
                Err(e) => return Err(e),
            }
        }
        let ghost mid_events = texts(events@);
        match self.dispatch(&mut events) {
            Ok(()) => {},
            Err(e) => return Err(e),
        }
        proof {
            let after_line = if old(self)@.line.len() > 0 {
                process_line_spec(
                    SseState { line: Seq::empty(), ..old(self)@ },
                    strip_cr(old(self)@.line),
                    max,
                )
            } else {
                Ok((old(self)@, Seq::empty()))
            };
            let first = after_line->Ok_0.1;
            let second = dispatch_spec(after_line->Ok_0.0)->Ok_0.1;
            assert(decoded(first) + decoded(second) =~= decoded(first + second));
        }
        Ok(events)
    }
}

impl Default for SseParser {
    fn default() -> (parser: Self)
        ensures
            parser@.line == Seq::<u8>::empty(),
            parser@.data_lines == Seq::<Seq<u8>>::empty(),
            parser@.event_bytes == 0,
            parser.max_event_bytes() == DEFAULT_MAX_EVENT_BYTES,
            parser.well_formed(),
    {
        Self::new(DEFAULT_MAX_EVENT_BYTES)
    }
}

} // verus!
