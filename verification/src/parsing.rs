//! Parse source text into a statement list, checking bracket pairing.

use vstd::prelude::*;

use crate::errors::{CompilationError, Location, Reason};

verus! {

/// A representation of the source code that is easier to deal with than text:
/// the ordered list of its statements.
#[derive(Debug)]
pub struct AbstractSyntaxTree {
    statements: Vec<Statement>,
}

/// One statement of the language.
#[derive(Debug, Copy, Clone, PartialEq, Eq, Structural)]
pub enum Statement {
    IncrementVal,
    DecrementVal,
    IncrementAddr,
    DecrementAddr,
    PutChar,
    GetChar,
    StartConditional(ConditionalID),
    EndConditional(ConditionalID),
}

/// An identifier assigned to a pair of `[` `]` brackets, to associate the two.
#[derive(Debug, Clone, Hash, Copy, PartialEq, Eq, Structural)]
pub struct ConditionalID(pub u32);

/// The parser's abstract state after some prefix of the input: the statements
/// produced so far, the identifiers of the brackets still open (innermost
/// last), the next fresh identifier, and the current 1-based line number.
pub struct ParseState {
    pub stmts: Seq<Statement>,
    pub stack: Seq<u32>,
    pub next_id: int,
    pub line: int,
}

/// The byte value of `+`.
pub const CHAR_INC_VAL: u8 = 43;

/// The byte value of `-`.
pub const CHAR_DEC_VAL: u8 = 45;

/// The byte value of `>`.
pub const CHAR_INC_ADDR: u8 = 62;

/// The byte value of `<`.
pub const CHAR_DEC_ADDR: u8 = 60;

/// The byte value of `.`.
pub const CHAR_PUT: u8 = 46;

/// The byte value of `,`.
pub const CHAR_GET: u8 = 44;

/// The byte value of `[`.
pub const CHAR_OPEN: u8 = 91;

/// The byte value of `]`.
pub const CHAR_CLOSE: u8 = 93;

/// The byte value of a newline.
pub const CHAR_NEWLINE: u8 = 10;

/// The parser's state before any input.
pub open spec fn parse_init() -> ParseState {
    ParseState { stmts: Seq::empty(), stack: Seq::empty(), next_id: 0, line: 1 }
}

/// How one byte of input advances the parser: the eight instruction characters
/// append a statement, a newline advances the line counter, any other byte is
/// skipped, and an unmatched `]` fails at the current line.
pub open spec fn parse_step(st: ParseState, b: u8) -> Result<ParseState, (Reason, int)> {
    if b == CHAR_INC_VAL {
        Ok(ParseState { stmts: st.stmts.push(Statement::IncrementVal), ..st })
    } else if b == CHAR_DEC_VAL {
        Ok(ParseState { stmts: st.stmts.push(Statement::DecrementVal), ..st })
    } else if b == CHAR_INC_ADDR {
        Ok(ParseState { stmts: st.stmts.push(Statement::IncrementAddr), ..st })
    } else if b == CHAR_DEC_ADDR {
        Ok(ParseState { stmts: st.stmts.push(Statement::DecrementAddr), ..st })
    } else if b == CHAR_PUT {
        Ok(ParseState { stmts: st.stmts.push(Statement::PutChar), ..st })
    } else if b == CHAR_GET {
        Ok(ParseState { stmts: st.stmts.push(Statement::GetChar), ..st })
    } else if b == CHAR_OPEN {
        Ok(ParseState {
            stmts: st.stmts.push(Statement::StartConditional(ConditionalID(st.next_id as u32))),
            stack: st.stack.push(st.next_id as u32),
            next_id: st.next_id + 1,
            ..st
        })
    } else if b == CHAR_CLOSE {
        if st.stack.len() == 0 {
            Err((Reason::TooManyCloseBrackets, st.line))
        } else {
            Ok(ParseState {
                stmts: st.stmts.push(Statement::EndConditional(ConditionalID(st.stack.last()))),
                stack: st.stack.drop_last(),
                ..st
            })
        }
    } else if b == CHAR_NEWLINE {
        Ok(ParseState { line: st.line + 1, ..st })
    } else {
        Ok(st)
    }
}

/// The parser's state after the bytes of `src` from position `i` on, starting
/// from state `st`.
pub open spec fn parse_from(st: ParseState, src: Seq<u8>, i: int) -> Result<ParseState, (Reason, int)>
    decreases src.len() - i,
{
    if i < 0 || i >= src.len() {
        Ok(st)
    } else {
        match parse_step(st, src[i]) {
            Ok(st2) => parse_from(st2, src, i + 1),
            Err(e) => Err(e),
        }
    }
}

/// What parsing the whole of `src` yields: the final parser state, or the
/// reason and line of the first failure.
pub open spec fn spec_parse(src: Seq<u8>) -> Result<ParseState, (Reason, int)> {
    parse_from(parse_init(), src, 0)
}

/// The identifiers of the brackets still open after the first `i` statements
/// (innermost last), or `None` if some close did not match its open.
pub open spec fn sim_stack(stmts: Seq<Statement>, i: int) -> Option<Seq<u32>>
    decreases i,
{
    if i <= 0 {
        Some(Seq::empty())
    } else {
        match sim_stack(stmts, i - 1) {
            None => None,
            Some(st) => match stmts[i - 1] {
                Statement::StartConditional(c) => Some(st.push(c.0)),
                Statement::EndConditional(c) => {
                    if st.len() > 0 && st.last() == c.0 {
                        Some(st.drop_last())
                    } else {
                        None
                    }
                },
                _ => Some(st),
            },
        }
    }
}

/// How many `StartConditional` statements appear among the first `i`.
pub open spec fn start_count(stmts: Seq<Statement>, i: int) -> int
    decreases i,
{
    if i <= 0 {
        0
    } else {
        start_count(stmts, i - 1) + if stmts[i - 1] matches Statement::StartConditional(_) {
            1int
        } else {
            0int
        }
    }
}

/// Each `StartConditional` carries the number of `StartConditional`s before
/// it: identifiers are minted by a counter that increases at every open.
pub open spec fn starts_sequentially_numbered(stmts: Seq<Statement>) -> bool {
    forall|i: int|
        0 <= i < stmts.len() ==> match #[trigger] stmts[i] {
            Statement::StartConditional(c) => c.0 == start_count(stmts, i),
            _ => true,
        }
}

/// A statement list is well-formed when its brackets nest properly, each close
/// naming the identifier of the innermost open, and opens are numbered in
/// order of appearance.
pub open spec fn ast_well_formed(stmts: Seq<Statement>) -> bool {
    &&& sim_stack(stmts, stmts.len() as int) == Some(Seq::<u32>::empty())
    &&& starts_sequentially_numbered(stmts)
}

/// How many of the first `i` statements equal `s`.
pub open spec fn occurrence_count(stmts: Seq<Statement>, i: int, s: Statement) -> int
    decreases i,
{
    if i <= 0 {
        0
    } else {
        occurrence_count(stmts, i - 1, s) + if stmts[i - 1] == s {
            1int
        } else {
            0int
        }
    }
}

/// How many entries of an open-bracket stack carry the identifier `k`.
pub open spec fn stack_count(stack: Seq<u32>, k: u32) -> nat
    decreases stack.len(),
{
    if stack.len() == 0 {
        0
    } else {
        stack_count(stack.drop_last(), k) + if stack.last() == k {
            1nat
        } else {
            0nat
        }
    }
}

/// With opens numbered in order, identifier `k` opens exactly once when fewer
/// than `k` opens precede the end of the prefix, and never otherwise.
proof fn lemma_start_occurrences(stmts: Seq<Statement>, i: int, k: u32)
    requires
        starts_sequentially_numbered(stmts),
        0 <= i <= stmts.len(),
    ensures
        occurrence_count(stmts, i, Statement::StartConditional(ConditionalID(k))) == if (k as int)
            < start_count(stmts, i) {
            1int
        } else {
            0int
        },
        start_count(stmts, i) >= 0,
    decreases i,
{
    if i > 0 {
        lemma_start_occurrences(stmts, i - 1, k);
    }
}

/// Every close is matched by an earlier open of the same identifier: the
/// closes seen so far plus the opens still on the stack are the opens seen so
/// far, identifier by identifier.
proof fn lemma_conditional_balance(stmts: Seq<Statement>, i: int, k: u32)
    requires
        starts_sequentially_numbered(stmts),
        0 <= i <= stmts.len(),
        sim_stack(stmts, i) is Some,
    ensures
        occurrence_count(stmts, i, Statement::EndConditional(ConditionalID(k))) + stack_count(
            sim_stack(stmts, i).unwrap(),
            k,
        ) == occurrence_count(stmts, i, Statement::StartConditional(ConditionalID(k))),
    decreases i,
{
    if i > 0 {
        lemma_conditional_balance(stmts, i - 1, k);
        let st = sim_stack(stmts, i - 1).unwrap();
        match stmts[i - 1] {
            Statement::StartConditional(c) => {
                assert(st.push(c.0).drop_last() =~= st);
            },
            Statement::EndConditional(c) => {
            },
            _ => {},
        }
    }
}

/// In a well-formed statement list, every identifier that appears at all
/// appears in exactly one `StartConditional` and exactly one `EndConditional`.
pub proof fn lemma_ast_conditionals_matched(stmts: Seq<Statement>, k: u32)
    requires
        ast_well_formed(stmts),
    ensures
        occurrence_count(stmts, stmts.len() as int, Statement::StartConditional(ConditionalID(k)))
            == occurrence_count(
            stmts,
            stmts.len() as int,
            Statement::EndConditional(ConditionalID(k)),
        ),
        occurrence_count(stmts, stmts.len() as int, Statement::StartConditional(ConditionalID(k)))
            <= 1,
        occurrence_count(stmts, stmts.len() as int, Statement::StartConditional(ConditionalID(k)))
            > 0 || occurrence_count(
            stmts,
            stmts.len() as int,
            Statement::EndConditional(ConditionalID(k)),
        ) > 0 ==> occurrence_count(
            stmts,
            stmts.len() as int,
            Statement::StartConditional(ConditionalID(k)),
        ) == 1 && occurrence_count(
            stmts,
            stmts.len() as int,
            Statement::EndConditional(ConditionalID(k)),
        ) == 1,
{
    let n = stmts.len() as int;
    lemma_start_occurrences(stmts, n, k);
    lemma_conditional_balance(stmts, n, k);
}

impl View for AbstractSyntaxTree {
    type V = Seq<Statement>;

    closed spec fn view(&self) -> Seq<Statement> {
        self.statements@
    }
}

impl AbstractSyntaxTree {
    /// The statements, in source order.
    pub fn statements(&self) -> (r: &Vec<Statement>)
        ensures
            r@ == self@,
    {
        &self.statements
    }
}

/// Appending a statement does not change what the simulation says about any
/// earlier prefix.
proof fn lemma_sim_stack_push(stmts: Seq<Statement>, x: Statement, i: int)
    requires
        i <= stmts.len(),
    ensures
        sim_stack(stmts.push(x), i) == sim_stack(stmts, i),
    decreases i,
{
    if i > 0 {
        lemma_sim_stack_push(stmts, x, i - 1);
    }
}

/// Appending a statement does not change the start count of any earlier prefix.
proof fn lemma_start_count_push(stmts: Seq<Statement>, x: Statement, i: int)
    requires
        i <= stmts.len(),
    ensures
        start_count(stmts.push(x), i) == start_count(stmts, i),
    decreases i,
{
    if i > 0 {
        lemma_start_count_push(stmts, x, i - 1);
    }
}

/// Appending one statement keeps the numbering property, provided a fresh
/// `StartConditional` carries the current start count.
proof fn lemma_numbered_push(stmts: Seq<Statement>, x: Statement)
    requires
        starts_sequentially_numbered(stmts),
        x matches Statement::StartConditional(c) ==> c.0 == start_count(
            stmts,
            stmts.len() as int,
        ),
    ensures
        starts_sequentially_numbered(stmts.push(x)),
{
    let stmts2 = stmts.push(x);
    assert forall|i: int|
        0 <= i < stmts2.len() implies match #[trigger] stmts2[i] {
        Statement::StartConditional(c) => c.0 == start_count(stmts2, i),
        _ => true,
    } by {
        lemma_start_count_push(stmts, x, i);
        if i < stmts.len() {
            assert(stmts2[i] == stmts[i]);
        }
    }
}

// Private parser helpers.

struct ConditionalStack {
    stack: Vec<ConditionalID>,
    next_id: u32,
}

impl ConditionalStack {
    spec fn ids(&self) -> Seq<u32> {
        self.stack@.map_values(|c: ConditionalID| c.0)
    }

    fn new() -> (r: Self)
        ensures
            r.ids() == Seq::<u32>::empty(),
            r.next_id == 0,
    {
        let r = Self { stack: Vec::new(), next_id: 0 };
        assert(r.ids() =~= Seq::<u32>::empty());
        r
    }

    fn has_unmatched_brackets(&self) -> (r: bool)
        ensures
            r <==> self.ids().len() > 0,
    {
        self.stack.len() > 0
    }

    fn next(&mut self) -> (r: ConditionalID)
        requires
            old(self).next_id < u32::MAX,
        ensures
            r == ConditionalID(old(self).next_id),
            final(self).next_id == old(self).next_id + 1,
            final(self).ids() == old(self).ids().push(old(self).next_id),
    {
        let current_branch = ConditionalID(self.next_id);
        self.next_id = self.next_id + 1;
        self.stack.push(current_branch);
        assert(self.ids() =~= old(self).ids().push(old(self).next_id));
        current_branch
    }

    fn pop(&mut self) -> (r: Option<ConditionalID>)
        ensures
            final(self).next_id == old(self).next_id,
            old(self).ids().len() == 0 ==> r is None && final(self).ids() == old(self).ids(),
            old(self).ids().len() > 0 ==> r == Some(ConditionalID(old(self).ids().last()))
                && final(self).ids() == old(self).ids().drop_last(),
    {
        let r = self.stack.pop();
        proof {
            if old(self).stack@.len() > 0 {
                assert(self.ids() =~= old(self).ids().drop_last());
            } else {
                assert(self.ids() =~= old(self).ids());
            }
        }
        r
    }
}

struct LocationTracker {
    line_number: u32,
    filename: String,
}

impl LocationTracker {
    fn new(filename: &str) -> (r: Self)
        ensures
            r.line_number == 1,
            r.filename@ == filename@,
    {
        let filename = filename.to_string();
        let line_number: u32 = 1;

        LocationTracker { filename, line_number }
    }

    fn increment_line_number(&mut self)
        requires
            old(self).line_number < u32::MAX,
        ensures
            final(self).line_number == old(self).line_number + 1,
            final(self).filename == old(self).filename,
    {
        self.line_number = self.line_number + 1;
    }

    fn into_error(self, reason: Reason) -> (r: CompilationError)
        ensures
            r@.reason == reason,
            r@.location matches Some(l) && l.filename == self.filename@ && l.line_no
                == self.line_number,
    {
        CompilationError::new(reason, Location::new(self.filename, self.line_number))
    }
}

/// Parses source text (really, just a bunch of bytes) into a list of
/// statements. Succeeds exactly when every `]` has a matching `[` and no `[`
/// is left open; the statements, the failure reason and the reported line are
/// all pinned down by [spec_parse].
pub fn parse(filename: &str, source_text: &[u8]) -> (r: Result<
    AbstractSyntaxTree,
    CompilationError,
>)
    requires
        source_text@.len() < u32::MAX,
    ensures
        match r {
            Ok(ast) => {
                &&& spec_parse(source_text@) matches Ok(st) && st.stack.len() == 0 && ast@
                    == st.stmts
                &&& ast_well_formed(ast@)
                &&& ast@.len() <= source_text@.len()
            },
            Err(e) => match spec_parse(source_text@) {
                Ok(st) => {
                    &&& st.stack.len() > 0
                    &&& e@.reason == Reason::TooFewCloseBrackets
                    &&& e@.location matches Some(l) && l.filename == filename@ && l.line_no
                        == st.line
                },
                Err((reason, line)) => {
                    &&& e@.reason == reason
                    &&& e@.location matches Some(l) && l.filename == filename@ && l.line_no == line
                },
            },
        },
{
    let mut statements: Vec<Statement> = Vec::new();
    let mut labels = ConditionalStack::new();
    let mut location = LocationTracker::new(filename);

    let ghost src = source_text@;
    let n = source_text.len();
    let mut i: usize = 0;

    while i < n
        invariant
            src == source_text@,
            n == src.len(),
            src.len() < u32::MAX,
            0 <= i <= n,
            location.filename@ == filename@,
            spec_parse(src) == parse_from(
                ParseState {
                    stmts: statements@,
                    stack: labels.ids(),
                    next_id: labels.next_id as int,
                    line: location.line_number as int,
                },
                src,
                i as int,
            ),
            labels.next_id <= i,
            statements@.len() <= i,
            location.line_number <= 1 + i,
            sim_stack(statements@, statements@.len() as int) == Some(labels.ids()),
            start_count(statements@, statements@.len() as int) == labels.next_id as int,
            starts_sequentially_numbered(statements@),
        decreases n - i,
    {
        let ghost pre = ParseState {
            stmts: statements@,
            stack: labels.ids(),
            next_id: labels.next_id as int,
            line: location.line_number as int,
        };
        let byte = *vstd::slice::slice_index_get(source_text, i);
        match byte {
            CHAR_INC_VAL => {
                statements.push(Statement::IncrementVal);
                proof {
                    lemma_sim_stack_push(pre.stmts, Statement::IncrementVal, pre.stmts.len() as int);
                    lemma_start_count_push(pre.stmts, Statement::IncrementVal, pre.stmts.len() as int);
                    lemma_numbered_push(pre.stmts, Statement::IncrementVal);
                }
            },
            CHAR_DEC_VAL => {
                statements.push(Statement::DecrementVal);
                proof {
                    lemma_sim_stack_push(pre.stmts, Statement::DecrementVal, pre.stmts.len() as int);
                    lemma_start_count_push(pre.stmts, Statement::DecrementVal, pre.stmts.len() as int);
                    lemma_numbered_push(pre.stmts, Statement::DecrementVal);
                }
            },
            CHAR_INC_ADDR => {
                statements.push(Statement::IncrementAddr);
                proof {
                    lemma_sim_stack_push(pre.stmts, Statement::IncrementAddr, pre.stmts.len() as int);
                    lemma_start_count_push(pre.stmts, Statement::IncrementAddr, pre.stmts.len() as int);
                    lemma_numbered_push(pre.stmts, Statement::IncrementAddr);
                }
            },
            CHAR_DEC_ADDR => {
                statements.push(Statement::DecrementAddr);
                proof {
                    lemma_sim_stack_push(pre.stmts, Statement::DecrementAddr, pre.stmts.len() as int);
                    lemma_start_count_push(pre.stmts, Statement::DecrementAddr, pre.stmts.len() as int);
                    lemma_numbered_push(pre.stmts, Statement::DecrementAddr);
                }
            },
            CHAR_PUT => {
                statements.push(Statement::PutChar);
                proof {
                    lemma_sim_stack_push(pre.stmts, Statement::PutChar, pre.stmts.len() as int);
                    lemma_start_count_push(pre.stmts, Statement::PutChar, pre.stmts.len() as int);
                    lemma_numbered_push(pre.stmts, Statement::PutChar);
                }
            },
            CHAR_GET => {
                statements.push(Statement::GetChar);
                proof {
                    lemma_sim_stack_push(pre.stmts, Statement::GetChar, pre.stmts.len() as int);
                    lemma_start_count_push(pre.stmts, Statement::GetChar, pre.stmts.len() as int);
                    lemma_numbered_push(pre.stmts, Statement::GetChar);
                }
            },
            CHAR_OPEN => {
                let cid = labels.next();
                let stmt = Statement::StartConditional(cid);
                statements.push(stmt);
                proof {
                    lemma_sim_stack_push(pre.stmts, stmt, pre.stmts.len() as int);
                    lemma_start_count_push(pre.stmts, stmt, pre.stmts.len() as int);
                    lemma_numbered_push(pre.stmts, stmt);
                }
            },
            CHAR_CLOSE => {
                match labels.pop() {
                    Some(branch) => {
                        let stmt = Statement::EndConditional(branch);
                        statements.push(stmt);
                        proof {
                            lemma_sim_stack_push(pre.stmts, stmt, pre.stmts.len() as int);
                            lemma_start_count_push(pre.stmts, stmt, pre.stmts.len() as int);
                            lemma_numbered_push(pre.stmts, stmt);
                        }
                    },
                    None => {
                        return Err(location.into_error(Reason::TooManyCloseBrackets));
                    },
                }
            },
            CHAR_NEWLINE => {
                location.increment_line_number();
            },
            _ => {},
        }
        i = i + 1;
    }

    if labels.has_unmatched_brackets() {
        return Err(location.into_error(Reason::TooFewCloseBrackets));
    }

    proof {
        assert(labels.ids() =~= Seq::<u32>::empty());
    }
    Ok(AbstractSyntaxTree { statements })
}

} // verus!
