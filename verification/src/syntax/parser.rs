//! Parse errors as the user sees them, and what a parsed module loads.

use lalrpop_util::ParseError;
use vstd::prelude::*;
use vstd::string::*;

verus! {

/// A token, as far as an error message needs it.
#[derive(Debug, PartialEq, Eq)]
pub enum Token {
    /// A word that the language keeps for later use, and accepts nowhere.
    Reserved(String),
    /// Any other token, as it is shown to the user.
    Other(String),
}

/// Why the parser gave up. Locations are byte offsets from the start of
/// the file.
#[derive(Debug)]
pub enum ParseFailure<E> {
    InvalidToken { location: usize },
    UnrecognizedEOF { location: usize, expected: Vec<String> },
    UnrecognizedToken { start: usize, token: Token, end: usize, expected: Vec<String> },
    ExtraToken { start: usize, token: Token, end: usize },
    /// An error that the lexer or an action of the grammar raised.
    User { error: E },
}

#[verifier::external_type_specification]
#[verifier::external_body]
#[verifier::reject_recursive_types(L)]
#[verifier::reject_recursive_types(T)]
#[verifier::reject_recursive_types(E)]
pub struct ExParseError<L, T, E>(ParseError<L, T, E>);

/// The failure that the parser's error `err` stands for.
///
/// Tells the variants of `lalrpop_util::ParseError` apart and moves the
/// fields of each into the variant of the same name. The argument is opaque
/// here, so nothing is stated of the result.
#[verifier::external_body]
fn parse_failure<E>(err: ParseError<usize, Token, E>) -> ParseFailure<E> {
    match err {
        ParseError::InvalidToken { location } => ParseFailure::InvalidToken { location },
        ParseError::UnrecognizedEOF { location, expected } => ParseFailure::UnrecognizedEOF { location, expected },
        ParseError::UnrecognizedToken { token: (start, token, end), expected } => {
            ParseFailure::UnrecognizedToken { start, token, end, expected }
        },
        ParseError::ExtraToken { token: (start, token, end) } => ParseFailure::ExtraToken { start, token, end },
        ParseError::User { error } => ParseFailure::User { error },
    }
}

/// A range of bytes of the text that was parsed: from `low` up to, and
/// not including, `high`.
#[derive(Clone, Copy, Debug, PartialEq, Eq, Structural)]
pub struct FileSpan {
    pub low: u32,
    pub high: u32,
}

/// An error message and the place in the text that it is about.
#[derive(Debug, PartialEq, Eq)]
pub struct Diagnostic {
    pub message: String,
    pub span: FileSpan,
}

impl FileSpan {
    /// The span does not end before it starts.
    pub open spec fn wf(self) -> bool {
        self.low <= self.high
    }

    /// Whether offsets `begin` and `end` from the start of the span name a
    /// span inside it.
    pub open spec fn holds(self, begin: int, end: int) -> bool {
        0 <= begin <= end && self.low + end <= self.high
    }

    /// What `subspan` returns.
    pub open spec fn spec_subspan(self, begin: int, end: int) -> FileSpan {
        FileSpan { low: (self.low + begin) as u32, high: (self.low + end) as u32 }
    }

    /// The length of the span in bytes.
    pub fn len(&self) -> (n: u64)
        requires
            self.wf(),
        ensures
            n == self.high - self.low,
    {
        (self.high - self.low) as u64
    }

    /// The span from offset `begin` to offset `end` of this span.
    pub fn subspan(&self, begin: u64, end: u64) -> (span: FileSpan)
        requires
            self.holds(begin as int, end as int),
        ensures
            span == self.spec_subspan(begin as int, end as int),
            span.wf(),
    {
        FileSpan { low: self.low + begin as u32, high: self.low + end as u32 }
    }
}

/// The separator that stands before the item at `i` of `len` alternatives.
pub open spec fn separator(i: int, len: int) -> Seq<char> {
    if i == 0 {
        "one of"@
    } else if i < len - 1 {
        ","@
    } else {
        " or"@
    }
}

/// The first `n` of the alternatives `expected`, as a phrase.
pub open spec fn one_of_upto(expected: Seq<String>, n: int) -> Seq<char>
    decreases n,
{
    if n <= 0 {
        Seq::empty()
    } else {
        one_of_upto(expected, n - 1) + separator(n - 1, expected.len() as int) + " "@ + expected[n - 1]@
    }
}

/// The alternatives `expected` as a phrase: `one of a, b or c`.
pub open spec fn one_of_spec(expected: Seq<String>) -> Seq<char> {
    one_of_upto(expected, expected.len() as int)
}

/// The alternatives `expected` as a phrase: `one of a, b or c`.
pub fn one_of(expected: &Vec<String>) -> (phrase: String)
    ensures
        phrase@ == one_of_spec(expected@),
{
    let mut result = String::new();
    let mut i: usize = 0;
    while i < expected.len()
        invariant
            i <= expected@.len(),
            result@ == one_of_upto(expected@, i as int),
        decreases expected@.len() - i,
    {
        let sep = if i == 0 {
            "one of"
        } else if i < expected.len() - 1 {
            ","
        } else {
            " or"
        };
        result.append(sep);
        result.append(" ");
        result.append(expected[i].as_str());
        i += 1;
    }
    result
}

/// The message for a failure that is not the user's own.
pub open spec fn message_spec<E>(err: ParseFailure<E>) -> Seq<char> {
    match err {
        ParseFailure::InvalidToken { .. } => "Parse error: invalid token"@,
        ParseFailure::UnrecognizedToken { token: Token::Reserved(s), .. } => "Parse error: cannot use reserved keyword `"@
            + s@ + "`"@,
        ParseFailure::ExtraToken { token: Token::Reserved(s), .. } => "Parse error: cannot use reserved keyword `"@
            + s@ + "`"@,
        ParseFailure::UnrecognizedToken { token: Token::Other(t), expected, .. } => "Parse error: unexpected "@ + t@
            + " here, expected "@ + one_of_spec(expected@),
        ParseFailure::ExtraToken { token: Token::Other(t), .. } => "Parse error: extraneous token "@ + t@,
        ParseFailure::UnrecognizedEOF { .. } => "Parse error: unexpected end of file"@,
        ParseFailure::User { .. } => Seq::empty(),
    }
}

/// The offsets, from the start of the file, of the text that a failure is
/// about: the bad token, or the end of the file.
pub open spec fn offsets_spec<E>(err: ParseFailure<E>, span: FileSpan) -> (int, int) {
    match err {
        ParseFailure::InvalidToken { location } => (location as int, location as int),
        ParseFailure::UnrecognizedToken { start, end, .. } => (start as int, end as int),
        ParseFailure::ExtraToken { start, end, .. } => (start as int, end as int),
        ParseFailure::UnrecognizedEOF { .. } => (span.high - span.low, span.high - span.low),
        ParseFailure::User { .. } => (0, 0),
    }
}

/// Whether the place that the failure names lies in the file.
pub open spec fn located<E>(err: ParseFailure<E>, span: FileSpan) -> bool {
    span.wf() && (err is User || span.holds(offsets_spec(err, span).0, offsets_spec(err, span).1))
}

/// Whether offsets `begin` and `end` name a span inside `span`.
fn fits(span: FileSpan, begin: usize, end: usize) -> (ok: bool)
    requires
        span.wf(),
    ensures
        ok == span.holds(begin as int, end as int),
{
    begin <= end && end as u128 <= (span.high - span.low) as u128
}

/// Whether the place that the failure names lies in the file.
pub fn is_located<E>(err: &ParseFailure<E>, span: FileSpan) -> (ok: bool)
    ensures
        ok == located(*err, span),
{
    if span.low > span.high {
        return false;
    }
    match err {
        ParseFailure::InvalidToken { location } => fits(span, *location, *location),
        ParseFailure::UnrecognizedToken { start, end, .. } => fits(span, *start, *end),
        ParseFailure::ExtraToken { start, end, .. } => fits(span, *start, *end),
        ParseFailure::UnrecognizedEOF { .. } => true,
        ParseFailure::User { .. } => true,
    }
}

/// Turns what the parser reported into what the user is told: the user's
/// own error as it is, and any other as a message with the place in the
/// file `span` that it is about.
pub fn parse_error_add_span<E>(err: ParseFailure<E>, span: FileSpan) -> (outcome: Result<Diagnostic, E>)
    requires
        located(err, span),
    ensures
        match outcome {
            Ok(diagnostic) => {
                &&& !(err is User)
                &&& diagnostic.message@ == message_spec(err)
                &&& diagnostic.span == span.spec_subspan(offsets_spec(err, span).0, offsets_spec(err, span).1)
            },
            Err(error) => err == (ParseFailure::User { error }),
        },
{
    match err {
        ParseFailure::User { error } => Err(error),
        ParseFailure::InvalidToken { location } => Ok(
            Diagnostic {
                message: String::from_str("Parse error: invalid token"),
                span: span.subspan(location as u64, location as u64),
            },
        ),
        ParseFailure::UnrecognizedToken { start, token, end, expected } => {
            let message = match token {
                Token::Reserved(s) => reserved_message(&s),
                Token::Other(t) => {
                    let mut message = String::from_str("Parse error: unexpected ");
                    message.append(t.as_str());
                    message.append(" here, expected ");
                    message.append(one_of(&expected).as_str());
                    message
                },
            };
            Ok(Diagnostic { message, span: span.subspan(start as u64, end as u64) })
        },
        ParseFailure::ExtraToken { start, token, end } => {
            let message = match token {
                Token::Reserved(s) => reserved_message(&s),
                Token::Other(t) => {
                    let mut message = String::from_str("Parse error: extraneous token ");
                    message.append(t.as_str());
                    message
                },
            };
            Ok(Diagnostic { message, span: span.subspan(start as u64, end as u64) })
        },
        ParseFailure::UnrecognizedEOF { location: _, expected: _ } => {
            let x = span.len();
            Ok(Diagnostic { message: String::from_str("Parse error: unexpected end of file"), span: span.subspan(x, x) })
        },
    }
}

/// `diagnostic` is what the user is told of `failure`, which is not the
/// user's own and names a place in the file `span`.
pub open spec fn reports<E>(failure: ParseFailure<E>, span: FileSpan, diagnostic: Diagnostic) -> bool {
    &&& located(failure, span)
    &&& !(failure is User)
    &&& diagnostic.message@ == message_spec(failure)
    &&& diagnostic.span == span.spec_subspan(offsets_spec(failure, span).0, offsets_spec(failure, span).1)
}

/// What the user is told of the parser's error `err`, raised on the file
/// `span`: `parse_error_add_span` of the failure that `err` stands for, or
/// `None` where that names a place outside the file.
pub fn report_parse_error<E>(err: ParseError<usize, Token, E>, span: FileSpan) -> (outcome: Option<
    Result<Diagnostic, E>,
>)
    ensures
        exists|failure: ParseFailure<E>| reported(failure, span, outcome),
        !span.wf() ==> outcome is None,
{
    let failure = parse_failure(err);
    let outcome = report_failure(failure, span);
    proof {
        assert(reported(failure, span, outcome));
    }
    outcome
}

/// `outcome` is what the user is told of `failure`, raised on the file
/// `span`: nothing where the failure names a place outside the file; else
/// the user's own error as it is, or the message for the failure with the
/// place that it is about.
pub open spec fn reported<E>(failure: ParseFailure<E>, span: FileSpan, outcome: Option<Result<Diagnostic, E>>) -> bool {
    if located(failure, span) {
        match outcome {
            Some(Ok(diagnostic)) => reports(failure, span, diagnostic),
            Some(Err(error)) => failure == (ParseFailure::User { error }),
            None => false,
        }
    } else {
        outcome is None
    }
}

/// What the user is told of `failure`, raised on the file `span`:
/// `parse_error_add_span` of it, or `None` where it names a place outside
/// the file.
pub fn report_failure<E>(failure: ParseFailure<E>, span: FileSpan) -> (outcome: Option<Result<Diagnostic, E>>)
    ensures
        reported(failure, span, outcome),
        outcome is Some <==> located(failure, span),
{
    if is_located(&failure, span) {
        Some(parse_error_add_span(failure, span))
    } else {
        None
    }
}

fn reserved_message(word: &String) -> (message: String)
    ensures
        message@ == "Parse error: cannot use reserved keyword `"@ + word@ + "`"@,
{
    let mut message = String::from_str("Parse error: cannot use reserved keyword `");
    message.append(word.as_str());
    message.append("`");
    message
}

/// A statement, as far as the loads of a module are concerned.
#[derive(Debug, PartialEq, Eq)]
pub enum Stmt {
    /// `load(module, ...)`.
    Load(String),
    /// Statements one after another.
    Statements(Vec<Stmt>),
    /// Any other statement.
    Other,
}

/// A module that was parsed.
#[derive(Debug, PartialEq, Eq)]
pub struct AstModule {
    pub statement: Stmt,
}

/// The modules that `stmt` loads, in the order of the load statements.
pub open spec fn loads_of(stmt: Stmt) -> Seq<Seq<char>>
    decreases stmt, 0nat,
{
    match stmt {
        Stmt::Load(module) => seq![module@],
        Stmt::Statements(stmts) => loads_upto(stmts, stmts.len() as nat),
        Stmt::Other => Seq::empty(),
    }
}

/// The modules that the first `n` of `stmts` load.
pub open spec fn loads_upto(stmts: Vec<Stmt>, n: nat) -> Seq<Seq<char>>
    decreases stmts, n,
{
    if n == 0 || n > stmts.len() {
        Seq::empty()
    } else {
        loads_upto(stmts, (n - 1) as nat) + loads_of(stmts[n - 1])
    }
}

/// The strings `loads`, each by its characters.
pub open spec fn names<'a>(loads: Seq<&'a str>) -> Seq<Seq<char>> {
    Seq::new(loads.len(), |i: int| loads[i]@)
}

fn collect<'a>(ast: &'a Stmt, vec: &mut Vec<&'a str>)
    ensures
        names(final(vec)@) == names(old(vec)@) + loads_of(*ast),
    decreases ast,
{
    match ast {
        Stmt::Load(module) => {
            vec.push(module.as_str());
            assert(names(vec@) =~= names(old(vec)@) + loads_of(*ast));
        },
        Stmt::Statements(stmts) => {
            let mut i: usize = 0;
            while i < stmts.len()
                invariant
                    i <= stmts@.len(),
                    *ast == Stmt::Statements(*stmts),
                    names(vec@) == names(old(vec)@) + loads_upto(*stmts, i as nat),
                decreases stmts@.len() - i,
            {
                proof {
                    vstd::std_specs::vec::axiom_vec_index_decreases(*stmts, i as int);
                    assert(ast->Statements_0 == *stmts);
                    assert(decreases_to!(*ast => ast->Statements_0));
                }
                collect(&stmts[i], vec);
                assert(names(vec@) =~= names(old(vec)@) + loads_upto(*stmts, (i + 1) as nat));
                i += 1;
            }
        },
        Stmt::Other => {
            assert(names(vec@) =~= names(old(vec)@) + loads_of(*ast));
        },
    }
}

impl AstModule {
    /// The modules that this module loads, in the order of its load
    /// statements.
    pub fn collect_loads(&self) -> (loads: Vec<&str>)
        ensures
            names(loads@) == loads_of(self.statement),
    {
        let mut loads = Vec::new();
        collect(&self.statement, &mut loads);
        assert(names(loads@) =~= loads_of(self.statement));
        loads
    }
}

} // verus!
