//! The record-counting state machine over delimited-text bytes.
//!
//! The grammar is the usual one for comma-separated records: a line feed ends
//! a record, a field that begins with a double quote is quoted, and inside a
//! quoted field a line feed or comma is ordinary content while a doubled
//! quote stands for a literal quote. A byte other than a quote, comma or
//! line feed right after a closing quote continues the field as unquoted
//! content. Input that ends inside a quoted field is malformed.

use vstd::prelude::*;

verus! {

/// ASCII line feed, the record terminator.
pub const LF: u8 = 10;

/// ASCII double quote, the field quoting character.
pub const QUOTE: u8 = 34;

/// ASCII comma, the field separator.
pub const COMMA: u8 = 44;

/// Position of the parser within a stream of delimited-text bytes.
#[derive(Clone, Copy, Debug)]
pub enum ParseState {
    /// Before the first byte of a record.
    StartRecord,
    /// Before the first byte of a field that is not the first of its record.
    StartField,
    /// Inside an unquoted field.
    Unquoted,
    /// Inside a quoted field.
    Quoted,
    /// Inside a quoted field, right after a double quote.
    QuotedQuote,
}

/// Parsing failed: the input does not conform to the delimited-text grammar.
#[derive(Clone, Copy, PartialEq, Eq, Debug)]
pub enum CsvError {
    /// The input ended inside a quoted field.
    UnterminatedQuote,
}

impl CsvError {
    /// The diagnostic text for this parse failure.
    pub fn message(&self) -> (s: &'static str)
        ensures
            s@ == "unterminated quoted field"@,
    {
        "unterminated quoted field"
    }
}

/// The state reached from `st` after consuming the single byte `b`.
pub open spec fn step(st: ParseState, b: u8) -> ParseState {
    match st {
        ParseState::StartRecord | ParseState::StartField => {
            if b == QUOTE {
                ParseState::Quoted
            } else if b == COMMA {
                ParseState::StartField
            } else if b == LF {
                ParseState::StartRecord
            } else {
                ParseState::Unquoted
            }
        },
        ParseState::Unquoted => {
            if b == COMMA {
                ParseState::StartField
            } else if b == LF {
                ParseState::StartRecord
            } else {
                ParseState::Unquoted
            }
        },
        ParseState::Quoted => {
            if b == QUOTE {
                ParseState::QuotedQuote
            } else {
                ParseState::Quoted
            }
        },
        ParseState::QuotedQuote => {
            if b == QUOTE {
                ParseState::Quoted
            } else if b == COMMA {
                ParseState::StartField
            } else if b == LF {
                ParseState::StartRecord
            } else {
                ParseState::Unquoted
            }
        },
    }
}

/// Whether consuming `b` in state `st` ends a record: a line feed ends the
/// current record unless it stands inside a quoted field.
pub open spec fn ends_record(st: ParseState, b: u8) -> bool {
    b == LF && st != ParseState::Quoted
}

/// The state reached from `st` after consuming all of `s`.
pub open spec fn run_state(st: ParseState, s: Seq<u8>) -> ParseState
    decreases s.len(),
{
    if s.len() == 0 {
        st
    } else {
        step(run_state(st, s.drop_last()), s.last())
    }
}

/// How many records end while consuming all of `s` from state `st`.
pub open spec fn run_count(st: ParseState, s: Seq<u8>) -> nat
    decreases s.len(),
{
    if s.len() == 0 {
        0
    } else {
        run_count(st, s.drop_last()) + if ends_record(run_state(st, s.drop_last()), s.last()) {
            1nat
        } else {
            0nat
        }
    }
}

/// How many records the end of input adds in state `st`: none at a record
/// boundary, one for a record still in progress.
pub open spec fn pending(st: ParseState) -> nat {
    if st == ParseState::StartRecord {
        0
    } else {
        1
    }
}

/// A complete input is well formed when it does not end inside a quoted
/// field.
pub open spec fn well_formed(s: Seq<u8>) -> bool {
    run_state(ParseState::StartRecord, s) != ParseState::Quoted
}

/// The number of records of the complete input `s`: the records ended by a
/// line feed, plus a final record left unterminated at the end of input.
pub open spec fn record_count(s: Seq<u8>) -> nat {
    run_count(ParseState::StartRecord, s) + pending(run_state(ParseState::StartRecord, s))
}

/// Consuming one more byte steps the state once and counts at most one more
/// record.
pub proof fn lemma_run_push(st: ParseState, s: Seq<u8>, b: u8)
    ensures
        run_state(st, s.push(b)) == step(run_state(st, s), b),
        run_count(st, s.push(b)) == run_count(st, s) + if ends_record(run_state(st, s), b) {
            1nat
        } else {
            0nat
        },
{
    assert(s.push(b).drop_last() =~= s);
    assert(s.push(b).last() == b);
}

/// Running over a concatenation is running over the parts in order.
pub proof fn lemma_run_concat(st: ParseState, a: Seq<u8>, c: Seq<u8>)
    ensures
        run_state(st, a + c) == run_state(run_state(st, a), c),
        run_count(st, a + c) == run_count(st, a) + run_count(run_state(st, a), c),
    decreases c.len(),
{
    if c.len() == 0 {
        assert(a + c =~= a);
    } else {
        lemma_run_concat(st, a, c.drop_last());
        assert((a + c).drop_last() =~= a + c.drop_last());
        assert((a + c).last() == c.last());
    }
}

/// No more records end than bytes are consumed.
pub proof fn lemma_count_le_len(st: ParseState, s: Seq<u8>)
    ensures
        run_count(st, s) <= s.len(),
    decreases s.len(),
{
    if s.len() > 0 {
        lemma_count_le_len(st, s.drop_last());
    }
}

/// Counting the record still in progress as well, the total stays within the
/// number of bytes consumed plus what was already in progress at the start.
pub proof fn lemma_total_le_len(st: ParseState, s: Seq<u8>)
    ensures
        run_count(st, s) + pending(run_state(st, s)) <= s.len() + pending(st),
    decreases s.len(),
{
    if s.len() > 0 {
        lemma_total_le_len(st, s.drop_last());
    }
}

/// A streaming record counter: feed the input bytes in any pieces, then read
/// the count off with [`RecordCounter::finish`].
pub struct RecordCounter {
    state: ParseState,
    count: u64,
    bytes: Ghost<Seq<u8>>,
}

impl RecordCounter {
    /// The bytes fed to this counter so far.
    pub closed spec fn consumed(self) -> Seq<u8> {
        self.bytes@
    }

    /// The counter faithfully mirrors a run of the state machine over
    /// everything consumed so far.
    pub closed spec fn inv(self) -> bool {
        &&& self.state == run_state(ParseState::StartRecord, self.bytes@)
        &&& self.count == run_count(ParseState::StartRecord, self.bytes@)
        &&& self.bytes@.len() <= u64::MAX
    }

    /// A fresh counter that has consumed nothing.
    pub fn new() -> (r: RecordCounter)
        ensures
            r.inv(),
            r.consumed() == Seq::<u8>::empty(),
    {
        RecordCounter { state: ParseState::StartRecord, count: 0, bytes: Ghost(Seq::empty()) }
    }

    /// Feeds one byte.
    pub fn push(&mut self, b: u8)
        requires
            old(self).inv(),
            old(self).consumed().len() + 1 <= u64::MAX,
        ensures
            final(self).inv(),
            final(self).consumed() == old(self).consumed().push(b),
    {
        proof {
            lemma_count_le_len(ParseState::StartRecord, self.bytes@);
            lemma_run_push(ParseState::StartRecord, self.bytes@, b);
        }
        let (next, ended) = advance(self.state, b);
        self.state = next;
        if ended {
            self.count = self.count + 1;
        }
        self.bytes = Ghost(self.bytes@.push(b));
    }

    /// Feeds a chunk of bytes, in order.
    pub fn push_chunk(&mut self, chunk: &[u8])
        requires
            old(self).inv(),
            old(self).consumed().len() + chunk@.len() <= u64::MAX,
        ensures
            final(self).inv(),
            final(self).consumed() == old(self).consumed() + chunk@,
    {
        let ghost orig: Seq<u8> = self.bytes@;
        proof {
            assert(orig + chunk@.subrange(0, 0) =~= orig);
        }
        let n: usize = chunk.len();
        let mut i: usize = 0;
        while i < n
            invariant
                self.inv(),
                i <= n,
                n == chunk@.len(),
                self.bytes@ == orig + chunk@.subrange(0, i as int),
                orig.len() + chunk@.len() <= u64::MAX,
            decreases n - i,
        {
            let b = chunk[i];
            self.push(b);
            proof {
                assert(self.bytes@ =~= orig + chunk@.subrange(0, (i + 1) as int));
            }
            i = i + 1;
        }
        proof {
            assert(orig + chunk@.subrange(0, n as int) =~= orig + chunk@);
        }
    }

    /// Ends the input and reports the record count, or the parse failure if
    /// the input ended inside a quoted field.
    pub fn finish(&self) -> (r: Result<u64, CsvError>)
        requires
            self.inv(),
        ensures
            match r {
                Ok(n) => well_formed(self.consumed()) && n == record_count(self.consumed()),
                Err(e) => !well_formed(self.consumed()) && e == CsvError::UnterminatedQuote,
            },
    {
        proof {
            lemma_total_le_len(ParseState::StartRecord, self.bytes@);
        }
        match self.state {
            ParseState::Quoted => Err(CsvError::UnterminatedQuote),
            ParseState::StartRecord => Ok(self.count),
            _ => Ok(self.count + 1),
        }
    }
}

/// One step of the machine in executable form: the next state, and whether
/// the byte ended a record.
fn advance(st: ParseState, b: u8) -> (r: (ParseState, bool))
    ensures
        r.0 == step(st, b),
        r.1 == ends_record(st, b),
{
    match st {
        ParseState::StartRecord | ParseState::StartField => {
            if b == QUOTE {
                (ParseState::Quoted, false)
            } else if b == COMMA {
                (ParseState::StartField, false)
            } else if b == LF {
                (ParseState::StartRecord, true)
            } else {
                (ParseState::Unquoted, false)
            }
        },
        ParseState::Unquoted => {
            if b == COMMA {
                (ParseState::StartField, false)
            } else if b == LF {
                (ParseState::StartRecord, true)
            } else {
                (ParseState::Unquoted, false)
            }
        },
        ParseState::Quoted => {
            if b == QUOTE {
                (ParseState::QuotedQuote, false)
            } else {
                (ParseState::Quoted, false)
            }
        },
        ParseState::QuotedQuote => {
            if b == QUOTE {
                (ParseState::Quoted, false)
            } else if b == COMMA {
                (ParseState::StartField, false)
            } else if b == LF {
                (ParseState::StartRecord, true)
            } else {
                (ParseState::Unquoted, false)
            }
        },
    }
}

/// Counts the records of a complete in-memory input.
pub fn count_bytes(data: &[u8]) -> (r: Result<u64, CsvError>)
    ensures
        match r {
            Ok(n) => well_formed(data@) && n == record_count(data@),
            Err(e) => !well_formed(data@) && e == CsvError::UnterminatedQuote,
        },
{
    // Binding the length lets the prover see that the input is no longer
    // than a slice can be, so the whole of it may be fed at once.
    let _n: usize = data.len();
    let mut rc = RecordCounter::new();
    rc.push_chunk(data);
    proof {
        assert(Seq::<u8>::empty() + data@ =~= data@);
    }
    rc.finish()
}

/// Law: the count is a pure function of the input bytes, so two parses of
/// the same unmodified input yield the same outcome.
pub proof fn lemma_count_deterministic(s: Seq<u8>, t: Seq<u8>)
    requires
        s == t,
    ensures
        well_formed(s) == well_formed(t),
        record_count(s) == record_count(t),
{
}

/// Law: an unterminated quoted field poisons the whole input, no matter how
/// many complete records precede it: after any prefix that ends exactly at a
/// record boundary, a remainder that ends inside a quoted field leaves the
/// whole input malformed.
pub proof fn lemma_unterminated_after_records(p: Seq<u8>, q: Seq<u8>)
    requires
        run_state(ParseState::StartRecord, p) == ParseState::StartRecord,
        run_state(ParseState::StartRecord, q) == ParseState::Quoted,
    ensures
        !well_formed(p + q),
{
    lemma_run_concat(ParseState::StartRecord, p, q);
}

} // verus!
