//! Decoding of a stream that holds JSON documents one after another.
//!
//! The stream is cut into units before anything is parsed. A unit is an array
//! or object up to the bracket that closes it, a string up to its closing
//! quote, or a run of other bytes up to the next white space, bracket that
//! opens or quote. Brackets and quotes inside strings, and quotes behind a
//! backslash, do not count. Each unit is then parsed on its own, so a unit that
//! is no document costs one error and the units behind it are still read.

use vstd::prelude::*;
use vstd::string::StringExecFns;
use crate::backend::{json_from_slice, outcome_view, parsed_json};
use crate::error::{ParseError, ParseErrorKind, ParseFailure, Position};
use crate::value::{JsonModel, JsonValue};

verus! {

pub const QUOTE: u8 = 0x22;

pub const BACKSLASH: u8 = 0x5C;

pub const NEWLINE: u8 = 0x0A;

/// The sentence of the error for a stream that ends inside a unit.
pub const EOF_MESSAGE: &'static str = "unexpected end of input";

/// White space between the tokens of JSON: space, tab, line feed, carriage
/// return.
pub open spec fn is_space(b: u8) -> bool {
    b == 0x20 || b == 0x09 || b == 0x0A || b == 0x0D
}

/// A bracket that opens an array or an object.
pub open spec fn is_opener(b: u8) -> bool {
    b == 0x5B || b == 0x7B
}

/// A bracket that closes an array or an object.
pub open spec fn is_closer(b: u8) -> bool {
    b == 0x5D || b == 0x7D
}

/// A byte that neither separates units nor begins an array, an object or a
/// string.
pub open spec fn is_bare(b: u8) -> bool {
    !is_space(b) && !is_opener(b) && b != QUOTE
}

/// The shapes of a unit: from a bracket that opens to one that closes, from
/// quote to quote, or nothing but bare bytes.
pub open spec fn is_unit(unit: Seq<u8>) -> bool {
    ||| unit.len() >= 2 && is_opener(unit[0]) && is_closer(unit.last())
    ||| unit.len() >= 2 && unit[0] == QUOTE && unit.last() == QUOTE
    ||| unit.len() >= 1 && forall|i: int| 0 <= i < unit.len() ==> is_bare(#[trigger] unit[i])
}

/// Where a scanner stands in the stream.
#[derive(Clone, Copy, Debug, PartialEq, Eq, Structural)]
pub enum Scan {
    /// Between two units.
    Between,
    /// In a run of bytes that began with neither a bracket nor a quote.
    Bare,
    /// In a string that is a unit of its own; `escaped` after a backslash.
    Quoted { escaped: bool },
    /// In an array or object with `depth` brackets open; `quoted` inside a
    /// string of it, and then `escaped` after a backslash.
    Nested { depth: usize, quoted: bool, escaped: bool },
}

/// The state of a scanner: where it stands, and the bytes of the unit that it
/// has begun.
pub struct ScannerModel {
    pub scan: Scan,
    pub pending: Seq<u8>,
}

/// The state before the first byte and after every whole unit.
pub open spec fn idle() -> ScannerModel {
    ScannerModel { scan: Scan::Between, pending: Seq::empty() }
}

/// Where a scanner stands after the first byte `b` of a unit.
pub open spec fn begin(b: u8) -> Scan {
    if is_opener(b) {
        Scan::Nested { depth: 1, quoted: false, escaped: false }
    } else if b == QUOTE {
        Scan::Quoted { escaped: false }
    } else {
        Scan::Bare
    }
}

impl ScannerModel {
    /// The pending bytes fit the place: none between units; in a bare run
    /// bare bytes alone; in a string a quote first; in an array or object a
    /// bracket first, and no more brackets open than bytes read.
    pub open spec fn wf(self) -> bool {
        match self.scan {
            Scan::Between => self.pending.len() == 0,
            Scan::Bare => self.pending.len() >= 1 && forall|i: int|
                0 <= i < self.pending.len() ==> is_bare(#[trigger] self.pending[i]),
            Scan::Quoted { escaped } => self.pending.len() >= 1 && self.pending[0] == QUOTE,
            Scan::Nested { depth, quoted, escaped } => 1 <= depth <= self.pending.len()
                && is_opener(self.pending[0]),
        }
    }
}

/// One move of the scanner: the state after the byte `b`, and the unit that
/// `b` ended, if it ended one.
pub open spec fn step(state: ScannerModel, b: u8) -> (ScannerModel, Option<Seq<u8>>) {
    let grown = state.pending.push(b);
    match state.scan {
        Scan::Between => if is_space(b) {
            (state, None)
        } else {
            (ScannerModel { scan: begin(b), pending: seq![b] }, None)
        },
        Scan::Bare => if is_space(b) {
            (idle(), Some(state.pending))
        } else if is_opener(b) || b == QUOTE {
            (ScannerModel { scan: begin(b), pending: seq![b] }, Some(state.pending))
        } else {
            (ScannerModel { scan: Scan::Bare, pending: grown }, None)
        },
        Scan::Quoted { escaped } => if escaped {
            (ScannerModel { scan: Scan::Quoted { escaped: false }, pending: grown }, None)
        } else if b == BACKSLASH {
            (ScannerModel { scan: Scan::Quoted { escaped: true }, pending: grown }, None)
        } else if b == QUOTE {
            (idle(), Some(grown))
        } else {
            (ScannerModel { scan: Scan::Quoted { escaped: false }, pending: grown }, None)
        },
        Scan::Nested { depth, quoted, escaped } => if quoted {
            let scan = if escaped {
                Scan::Nested { depth, quoted: true, escaped: false }
            } else if b == BACKSLASH {
                Scan::Nested { depth, quoted: true, escaped: true }
            } else if b == QUOTE {
                Scan::Nested { depth, quoted: false, escaped: false }
            } else {
                Scan::Nested { depth, quoted: true, escaped: false }
            };
            (ScannerModel { scan, pending: grown }, None)
        } else if b == QUOTE {
            (
                ScannerModel {
                    scan: Scan::Nested { depth, quoted: true, escaped: false },
                    pending: grown,
                },
                None,
            )
        } else if is_opener(b) {
            (
                ScannerModel {
                    scan: Scan::Nested {
                        depth: (depth + 1) as usize,
                        quoted: false,
                        escaped: false,
                    },
                    pending: grown,
                },
                None,
            )
        } else if is_closer(b) {
            if depth <= 1 {
                (idle(), Some(grown))
            } else {
                (
                    ScannerModel {
                        scan: Scan::Nested {
                            depth: (depth - 1) as usize,
                            quoted: false,
                            escaped: false,
                        },
                        pending: grown,
                    },
                    None,
                )
            }
        } else {
            (
                ScannerModel {
                    scan: Scan::Nested { depth, quoted: false, escaped: false },
                    pending: grown,
                },
                None,
            )
        },
    }
}

/// The scanner's moves over `bytes` from `state`: the state behind the last
/// byte, and the units that ended on the way, in their order.
pub open spec fn run(state: ScannerModel, bytes: Seq<u8>) -> (ScannerModel, Seq<Seq<u8>>)
    decreases bytes.len(),
{
    if bytes.len() == 0 {
        (state, Seq::empty())
    } else {
        let before = run(state, bytes.drop_last());
        let moved = step(before.0, bytes.last());
        match moved.1 {
            Some(unit) => (moved.0, before.1.push(unit)),
            None => (moved.0, before.1),
        }
    }
}

/// The number of line feeds in `bytes`.
pub open spec fn line_feeds(bytes: Seq<u8>) -> nat
    decreases bytes.len(),
{
    if bytes.len() == 0 {
        0
    } else if bytes.last() == NEWLINE {
        line_feeds(bytes.drop_last()) + 1
    } else {
        line_feeds(bytes.drop_last())
    }
}

/// The number of bytes of `bytes` behind its last line feed.
pub open spec fn last_line_width(bytes: Seq<u8>) -> nat
    decreases bytes.len(),
{
    if bytes.len() == 0 {
        0
    } else if bytes.last() == NEWLINE {
        0
    } else {
        last_line_width(bytes.drop_last()) + 1
    }
}

/// The error for a stream that ends inside the unit `pending`: it names the
/// place of the end, counted from the unit's first byte.
pub open spec fn cut_short(pending: Seq<u8>) -> ParseFailure {
    ParseFailure {
        kind: ParseErrorKind::UnexpectedEof,
        position: Position {
            line: (line_feeds(pending) + 1) as usize,
            column: last_line_width(pending) as usize,
        },
        message: EOF_MESSAGE@,
    }
}

/// What the end of the stream adds to the outcomes: nothing between units,
/// the parse of a bare run, which the end completes, and an error inside a
/// string, an array or an object.
pub open spec fn last_outcome(state: ScannerModel) -> Option<Result<JsonModel, ParseFailure>> {
    match state.scan {
        Scan::Between => None,
        Scan::Bare => Some(parsed_json(state.pending)),
        _ => Some(Err(cut_short(state.pending))),
    }
}

/// The parse of each unit.
pub open spec fn parsed_units(units: Seq<Seq<u8>>) -> Seq<Result<JsonModel, ParseFailure>> {
    units.map_values(|unit: Seq<u8>| parsed_json(unit))
}

/// The models of a run of outcomes.
pub open spec fn outcomes_view(outcomes: Seq<Result<JsonValue, ParseError>>) -> Seq<
    Result<JsonModel, ParseFailure>,
> {
    outcomes.map_values(|outcome: Result<JsonValue, ParseError>| outcome_view(outcome))
}

/// The outcomes of a whole stream: the parse of each unit in the order of the
/// units, and then what the end of the stream adds.
pub open spec fn decode_all(input: Seq<u8>) -> Seq<Result<JsonModel, ParseFailure>> {
    let scanned = run(idle(), input);
    match last_outcome(scanned.0) {
        Some(outcome) => parsed_units(scanned.1).push(outcome),
        None => parsed_units(scanned.1),
    }
}

/// The model of a unit that may be missing.
pub open spec fn unit_view(unit: Option<Vec<u8>>) -> Option<Seq<u8>> {
    match unit {
        Some(bytes) => Some(bytes@),
        None => None,
    }
}

/// The model of an outcome that may be missing.
pub open spec fn last_view(outcome: Option<Result<JsonValue, ParseError>>) -> Option<
    Result<JsonModel, ParseFailure>,
> {
    match outcome {
        Some(o) => Some(outcome_view(o)),
        None => None,
    }
}

fn space(b: u8) -> (r: bool)
    ensures
        r == is_space(b),
{
    b == 0x20 || b == 0x09 || b == 0x0A || b == 0x0D
}

fn opener(b: u8) -> (r: bool)
    ensures
        r == is_opener(b),
{
    b == 0x5B || b == 0x7B
}

fn closer(b: u8) -> (r: bool)
    ensures
        r == is_closer(b),
{
    b == 0x5D || b == 0x7D
}

fn begin_at(b: u8) -> (r: Scan)
    ensures
        r == begin(b),
{
    if opener(b) {
        Scan::Nested { depth: 1, quoted: false, escaped: false }
    } else if b == QUOTE {
        Scan::Quoted { escaped: false }
    } else {
        Scan::Bare
    }
}

/// What the end of the stream leaves in a scanner.
#[derive(Debug, PartialEq, Eq)]
pub enum Rest {
    /// The stream ended between units.
    Nothing,
    /// The stream ended in a bare run, which is a whole unit.
    Whole(Vec<u8>),
    /// The stream ended inside a string, an array or an object.
    Partial(Vec<u8>),
}

/// Cuts a stream into units as its bytes arrive, in any portions.
pub struct Scanner {
    scan: Scan,
    pending: Vec<u8>,
}

impl View for Scanner {
    type V = ScannerModel;

    closed spec fn view(&self) -> ScannerModel {
        ScannerModel { scan: self.scan, pending: self.pending@ }
    }
}

impl Scanner {
    /// The invariant of a scanner: that of its state.
    pub open spec fn wf(&self) -> bool {
        self@.wf()
    }

    /// A scanner before the first byte.
    pub fn new() -> (r: Scanner)
        ensures
            r.wf(),
            r@ == idle(),
    {
        Scanner { scan: Scan::Between, pending: Vec::new() }
    }

    /// Where the scanner stands.
    pub fn scan(&self) -> (r: Scan)
        ensures
            r == self@.scan,
    {
        self.scan
    }

    fn take_pending(&mut self) -> (unit: Vec<u8>)
        ensures
            unit@ == old(self).pending@,
            final(self).pending@ == Seq::<u8>::empty(),
            final(self).scan == old(self).scan,
    {
        let mut unit: Vec<u8> = Vec::new();
        std::mem::swap(&mut self.pending, &mut unit);
        unit
    }

    /// Takes the next byte of the stream, and returns the unit that it ended,
    /// if it ended one.
    pub fn push(&mut self, b: u8) -> (unit: Option<Vec<u8>>)
        requires
            old(self).wf(),
        ensures
            final(self).wf(),
            final(self)@ == step(old(self)@, b).0,
            unit_view(unit) == step(old(self)@, b).1,
    {
        let unit = match self.scan {
            Scan::Between => {
                if space(b) {
                    None
                } else {
                    self.pending.push(b);
                    self.scan = begin_at(b);
                    None
                }
            },
            Scan::Bare => {
                if space(b) {
                    let unit = self.take_pending();
                    self.scan = Scan::Between;
                    Some(unit)
                } else if opener(b) || b == QUOTE {
                    let unit = self.take_pending();
                    self.pending.push(b);
                    self.scan = begin_at(b);
                    Some(unit)
                } else {
                    self.pending.push(b);
                    None
                }
            },
            Scan::Quoted { escaped } => {
                self.pending.push(b);
                if escaped {
                    self.scan = Scan::Quoted { escaped: false };
                    None
                } else if b == BACKSLASH {
                    self.scan = Scan::Quoted { escaped: true };
                    None
                } else if b == QUOTE {
                    self.scan = Scan::Between;
                    Some(self.take_pending())
                } else {
                    None
                }
            },
            Scan::Nested { depth, quoted, escaped } => {
                self.pending.push(b);
                let held: usize = self.pending.len();
                if quoted {
                    if escaped {
                        self.scan = Scan::Nested { depth, quoted: true, escaped: false };
                    } else if b == BACKSLASH {
                        self.scan = Scan::Nested { depth, quoted: true, escaped: true };
                    } else if b == QUOTE {
                        self.scan = Scan::Nested { depth, quoted: false, escaped: false };
                    } else {
                        self.scan = Scan::Nested { depth, quoted: true, escaped: false };
                    }
                    None
                } else if b == QUOTE {
                    self.scan = Scan::Nested { depth, quoted: true, escaped: false };
                    None
                } else if opener(b) {
                    assert(depth < held);
                    self.scan = Scan::Nested { depth: depth + 1, quoted: false, escaped: false };
                    None
                } else if closer(b) {
                    if depth <= 1 {
                        self.scan = Scan::Between;
                        Some(self.take_pending())
                    } else {
                        self.scan = Scan::Nested { depth: depth - 1, quoted: false, escaped: false };
                        None
                    }
                } else {
                    self.scan = Scan::Nested { depth, quoted: false, escaped: false };
                    None
                }
            },
        };
        assert(self@.pending =~= step(old(self)@, b).0.pending);
        unit
    }

    /// Ends the stream: hands out what is pending and says whether it is a
    /// whole unit, and leaves the scanner as new.
    pub fn finish(&mut self) -> (rest: Rest)
        requires
            old(self).wf(),
        ensures
            final(self).wf(),
            final(self)@ == idle(),
            match rest {
                Rest::Nothing => old(self)@.scan is Between,
                Rest::Whole(unit) => old(self)@.scan is Bare && unit@ == old(self)@.pending,
                Rest::Partial(unit) => !(old(self)@.scan is Between) && !(old(self)@.scan is Bare)
                    && unit@ == old(self)@.pending,
            },
    {
        let scan = self.scan;
        let unit = self.take_pending();
        self.scan = Scan::Between;
        match scan {
            Scan::Between => Rest::Nothing,
            Scan::Bare => Rest::Whole(unit),
            _ => Rest::Partial(unit),
        }
    }
}

/// The place of the end of `unit`, counted as a parser counts: lines from one,
/// and in the last line the bytes behind its line feed.
fn end_position(unit: &Vec<u8>) -> (r: Position)
    requires
        unit.len() >= 1,
        !is_space(unit[0]),
    ensures
        r.line == line_feeds(unit@) + 1,
        r.column == last_line_width(unit@),
{
    let mut line: usize = 1;
    let mut column: usize = 0;
    let mut i: usize = 0;
    while i < unit.len()
        invariant
            i <= unit.len(),
            unit.len() >= 1,
            !is_space(unit[0]),
            line == line_feeds(unit@.take(i as int)) + 1,
            column == last_line_width(unit@.take(i as int)),
            i == 0 ==> line == 1,
            i >= 1 ==> line <= i,
            column <= i,
        decreases unit.len() - i,
    {
        assert(unit@.take(i + 1).drop_last() =~= unit@.take(i as int));
        assert(unit@.take(i + 1).last() == unit[i as int]);
        if unit[i] == NEWLINE {
            line += 1;
            column = 0;
        } else {
            column += 1;
        }
        i += 1;
    }
    assert(unit@.take(unit.len() as int) =~= unit@);
    Position { line, column }
}

/// The error for a stream that ends inside `unit`.
fn end_of_input(unit: &Vec<u8>) -> (r: ParseError)
    requires
        unit.len() >= 1,
        !is_space(unit[0]),
    ensures
        r@ == cut_short(unit@),
{
    ParseError {
        kind: ParseErrorKind::UnexpectedEof,
        position: end_position(unit),
        message: String::from_str(EOF_MESSAGE),
    }
}

/// Decodes a stream of JSON documents as its bytes arrive, in any portions.
pub struct StreamDecoder {
    scanner: Scanner,
}

impl View for StreamDecoder {
    type V = ScannerModel;

    closed spec fn view(&self) -> ScannerModel {
        self.scanner@
    }
}

impl StreamDecoder {
    /// The invariant of a decoder: that of its state.
    pub open spec fn wf(&self) -> bool {
        self@.wf()
    }

    /// A decoder before the first byte.
    pub fn new() -> (r: StreamDecoder)
        ensures
            r.wf(),
            r@ == idle(),
    {
        StreamDecoder { scanner: Scanner::new() }
    }

    /// Takes the next bytes of the stream, and returns the outcome of every
    /// unit that ended in them, in the order of the units.
    pub fn feed(&mut self, chunk: &[u8]) -> (outcomes: Vec<Result<JsonValue, ParseError>>)
        requires
            old(self).wf(),
        ensures
            final(self).wf(),
            final(self)@ == run(old(self)@, chunk@).0,
            outcomes_view(outcomes@) == parsed_units(run(old(self)@, chunk@).1),
    {
        let mut outcomes: Vec<Result<JsonValue, ParseError>> = Vec::new();
        let mut i: usize = 0;
        assert(outcomes_view(outcomes@) =~= parsed_units(run(old(self)@, chunk@.take(0)).1));
        while i < chunk.len()
            invariant
                i <= chunk.len(),
                self.wf(),
                self@ == run(old(self)@, chunk@.take(i as int)).0,
                outcomes_view(outcomes@) == parsed_units(
                    run(old(self)@, chunk@.take(i as int)).1,
                ),
            decreases chunk.len() - i,
        {
            let ghost units = run(old(self)@, chunk@.take(i as int)).1;
            let ghost before = outcomes@;
            assert(chunk@.take(i + 1).drop_last() =~= chunk@.take(i as int));
            assert(chunk@.take(i + 1).last() == chunk[i as int]);
            match self.scanner.push(chunk[i]) {
                Some(unit) => {
                    let outcome = json_from_slice(unit.as_slice());
                    outcomes.push(outcome);
                    assert(outcomes_view(outcomes@) =~= outcomes_view(before).push(
                        outcome_view(outcome),
                    ));
                    assert(parsed_units(units.push(unit@)) =~= parsed_units(units).push(
                        parsed_json(unit@),
                    ));
                },
                None => {},
            }
            i += 1;
        }
        assert(chunk@.take(chunk.len() as int) =~= chunk@);
        outcomes
    }

    /// Ends the stream, and returns the outcome of what was pending, if
    /// anything was. The decoder is then as new.
    pub fn finish(&mut self) -> (outcome: Option<Result<JsonValue, ParseError>>)
        requires
            old(self).wf(),
        ensures
            final(self).wf(),
            final(self)@ == idle(),
            last_view(outcome) == last_outcome(old(self)@),
    {
        match self.scanner.finish() {
            Rest::Nothing => None,
            Rest::Whole(unit) => Some(json_from_slice(unit.as_slice())),
            Rest::Partial(unit) => Some(Err(end_of_input(&unit))),
        }
    }
}

/// Decodes a whole stream: the outcome of every unit in the order of the
/// units. An error stands where its unit stood and ends nothing.
pub fn handle_large_json(input: &[u8]) -> (outcomes: Vec<Result<JsonValue, ParseError>>)
    ensures
        outcomes_view(outcomes@) == decode_all(input@),
{
    let mut decoder = StreamDecoder::new();
    let mut outcomes = decoder.feed(input);
    let ghost before = outcomes@;
    match decoder.finish() {
        Some(outcome) => {
            outcomes.push(outcome);
            assert(outcomes_view(outcomes@) =~= outcomes_view(before).push(outcome_view(outcome)));
        },
        None => {},
    }
    outcomes
}

/// A move keeps a state well-formed, as long as the pending unit can grow.
pub proof fn lemma_step_keeps_wf(state: ScannerModel, b: u8)
    requires
        state.wf(),
        state.pending.len() < usize::MAX,
    ensures
        step(state, b).0.wf(),
        step(state, b).0.pending.len() <= state.pending.len() + 1,
        step(state, b).1 matches Some(unit) ==> is_unit(unit),
{
}

/// Scanning keeps a state well-formed, and every unit that it cuts out has
/// the shape of a unit.
pub proof fn lemma_run_keeps_wf(state: ScannerModel, bytes: Seq<u8>)
    requires
        state.wf(),
        state.pending.len() + bytes.len() <= usize::MAX,
    ensures
        run(state, bytes).0.wf(),
        run(state, bytes).0.pending.len() <= state.pending.len() + bytes.len(),
        forall|i: int|
            0 <= i < run(state, bytes).1.len() ==> is_unit(#[trigger] run(state, bytes).1[i]),
    decreases bytes.len(),
{
    if bytes.len() > 0 {
        lemma_run_keeps_wf(state, bytes.drop_last());
        lemma_step_keeps_wf(run(state, bytes.drop_last()).0, bytes.last());
    }
}

/// The portions in which a stream arrives do not matter: scanning `a` and then
/// `b` ends in the state, and gives the units, of scanning `a + b`.
pub proof fn lemma_run_in_portions(state: ScannerModel, a: Seq<u8>, b: Seq<u8>)
    ensures
        run(state, a + b).0 == run(run(state, a).0, b).0,
        run(state, a + b).1 == run(state, a).1 + run(run(state, a).0, b).1,
    decreases b.len(),
{
    let middle = run(state, a);
    if b.len() == 0 {
        assert(a + b =~= a);
        assert(middle.1 + run(middle.0, b).1 =~= middle.1);
    } else {
        assert((a + b).drop_last() =~= a + b.drop_last());
        assert((a + b).last() == b.last());
        lemma_run_in_portions(state, a, b.drop_last());
        let before = run(middle.0, b.drop_last());
        let moved = step(before.0, b.last());
        match moved.1 {
            Some(unit) => {
                assert((middle.1 + before.1).push(unit) =~= middle.1 + before.1.push(unit));
            },
            None => {},
        }
    }
}

/// White space between units is skipped.
pub proof fn lemma_space_is_skipped(gap: Seq<u8>)
    requires
        forall|i: int| 0 <= i < gap.len() ==> is_space(#[trigger] gap[i]),
    ensures
        run(idle(), gap) == (idle(), Seq::<Seq<u8>>::empty()),
    decreases gap.len(),
{
    if gap.len() > 0 {
        lemma_space_is_skipped(gap.drop_last());
    }
}

/// True if `unit`, scanned from between units, is cut out whole by its own
/// last byte.
pub open spec fn ends_itself(unit: Seq<u8>) -> bool {
    run(idle(), unit) == (idle(), seq![unit])
}

/// The units one after another, with nothing between them.
pub open spec fn joined(units: Seq<Seq<u8>>) -> Seq<u8>
    decreases units.len(),
{
    if units.len() == 0 {
        Seq::empty()
    } else {
        joined(units.drop_last()) + units.last()
    }
}

/// Units that end themselves are cut apart as they were joined: as many, in
/// the same order, and each whole.
pub proof fn lemma_joined_units_are_cut_apart(units: Seq<Seq<u8>>)
    requires
        forall|i: int| 0 <= i < units.len() ==> ends_itself(#[trigger] units[i]),
    ensures
        run(idle(), joined(units)) == (idle(), units),
    decreases units.len(),
{
    if units.len() == 0 {
        assert(run(idle(), joined(units)).1 =~= units);
    } else {
        let front = units.drop_last();
        assert forall|i: int| 0 <= i < front.len() implies ends_itself(#[trigger] front[i]) by {
            assert(front[i] == units[i]);
        }
        lemma_joined_units_are_cut_apart(front);
        lemma_run_in_portions(idle(), joined(front), units.last());
        assert(ends_itself(units[units.len() - 1]));
        assert(front + seq![units.last()] =~= units);
    }
}

/// A stream of units that end themselves gives one outcome for each unit, in
/// the order of the units, and each is the parse of its own unit: a unit that
/// is no document costs its own error and nothing else.
pub proof fn lemma_one_outcome_for_each_unit(units: Seq<Seq<u8>>)
    requires
        forall|i: int| 0 <= i < units.len() ==> ends_itself(#[trigger] units[i]),
    ensures
        decode_all(joined(units)) == parsed_units(units),
        decode_all(joined(units)).len() == units.len(),
        forall|i: int|
            0 <= i < units.len() ==> decode_all(joined(units))[i] == parsed_json(
                #[trigger] units[i],
            ),
{
    lemma_joined_units_are_cut_apart(units);
}

/// True if `short` is `long` without some of its white space: every other
/// byte is kept, and the bytes that are kept keep their order.
pub open spec fn thins(long: Seq<u8>, short: Seq<u8>) -> bool
    decreases long.len(),
{
    if long.len() == 0 {
        short.len() == 0
    } else {
        ||| short.len() > 0 && short.last() == long.last() && thins(
            long.drop_last(),
            short.drop_last(),
        )
        ||| is_space(long.last()) && thins(long.drop_last(), short)
    }
}

/// Nothing is thinner than itself.
pub proof fn lemma_thins_itself(bytes: Seq<u8>)
    ensures
        thins(bytes, bytes),
    decreases bytes.len(),
{
    if bytes.len() > 0 {
        lemma_thins_itself(bytes.drop_last());
    }
}

/// Scanning loses nothing but white space between units: the units that were
/// cut out, joined, and behind them the pending bytes, are the bytes that came
/// in, less some white space.
pub proof fn lemma_run_loses_only_space(state: ScannerModel, bytes: Seq<u8>)
    requires
        state.scan is Between ==> state.pending.len() == 0,
    ensures
        run(state, bytes).0.scan is Between ==> run(state, bytes).0.pending.len() == 0,
        thins(state.pending + bytes, joined(run(state, bytes).1) + run(state, bytes).0.pending),
    decreases bytes.len(),
{
    if bytes.len() == 0 {
        assert(state.pending + bytes =~= state.pending);
        assert(joined(run(state, bytes).1) + state.pending =~= state.pending);
        lemma_thins_itself(state.pending);
    } else {
        let front = bytes.drop_last();
        let b = bytes.last();
        lemma_run_loses_only_space(state, front);
        let before = run(state, front);
        let moved = step(before.0, b);
        let after = run(state, bytes);
        let long = state.pending + bytes;
        let short_before = joined(before.1) + before.0.pending;
        let short = joined(after.1) + after.0.pending;
        assert(long.drop_last() =~= state.pending + front);
        assert(long.last() == b);
        match moved.1 {
            Some(unit) => {
                assert(after.1.drop_last() =~= before.1);
                assert(joined(after.1) == joined(before.1) + unit);
            },
            None => {},
        }
        if short.len() == short_before.len() {
            assert(short =~= short_before);
        } else {
            assert(short =~= short_before.push(b));
            assert(short.drop_last() =~= short_before);
        }
    }
}

} // verus!
