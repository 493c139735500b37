//! Policy expressions, written in CEL and run by `cel_interpreter`.
//!
//! What an expression yields is the interpreter's business: [`cel_may_yield`]
//! names it. It depends on the expression's text, on the variables and on the
//! predicates of the context, and on nothing that the library decides. What
//! plain expressions mean is stated by [`crate::plain::holds`].
use crate::plain::{gives, holds, written, Facts, Term};
use crate::text;
use crate::text::{chars_of, same_text};
use cel_interpreter::{Context, Program, Value};
use std::sync::Arc;
use vstd::hash_set::StringHashSet;
use vstd::prelude::*;
use vstd::slice::slice_subrange;

verus! {

/// `cel_interpreter::Program`, a compiled expression.
#[verifier::external_type_specification]
#[verifier::external_body]
pub struct ExProgram(Program);

/// `cel_interpreter::Context`, the variables and functions that an
/// evaluation may refer to.
#[verifier::external_type_specification]
#[verifier::external_body]
pub struct ExContext<'a>(Context<'a>);

/// What an evaluation came to, as far as a rule is concerned.
#[derive(Debug, Clone, Copy, PartialEq, Eq, Structural)]
pub enum CelOutcome {
    /// A truth value.
    Bool(bool),
    /// A value of another type.
    Other,
    /// No value: an undeclared name, operands that do not fit, and the like.
    Error,
}

/// The value of a context's variable.
pub enum CelValue {
    Text(Seq<char>),
    Int(int),
}

/// The variables of a context, by name.
pub type Variables = Map<Seq<char>, CelValue>;

/// The predicates on one text that were added to a context's built-in
/// functions: for each name, the texts that it holds of.
pub type Predicates = Map<Seq<char>, Set<Seq<char>>>;

/// What `Program::compile` makes of a text: a program, or the message of an
/// error, or `None` where it panics.
pub uninterp spec fn compiled(expr: Seq<char>) -> Option<Result<Program, Seq<char>>>;

/// The variables that a context holds.
pub uninterp spec fn context_variables(ctx: Context<'static>) -> Map<Seq<char>, CelValue>;

/// The predicates that were added to a root context; `None` for a child
/// context, to which none can be added.
pub uninterp spec fn context_predicates(ctx: Context<'static>) -> Option<
    Map<Seq<char>, Set<Seq<char>>>,
>;

/// Whether evaluating the program compiled from `expr` may end in `outcome`,
/// in a root context with the built-in functions, these variables and these
/// predicates. The outcome `None` is an evaluation that panics. An expression
/// that walks a map may have several outcomes, one for each order in which
/// the map is walked.
pub uninterp spec fn cel_may_yield(
    expr: Seq<char>,
    variables: Map<Seq<char>, CelValue>,
    predicates: Map<Seq<char>, Set<Seq<char>>>,
    outcome: Option<CelOutcome>,
) -> bool;

/// A program or an error message, the message as a sequence of characters.
pub open spec fn compilation(r: Result<Program, String>) -> Result<Program, Seq<char>> {
    match r {
        Ok(program) => Ok(program),
        Err(message) => Err(message@),
    }
}

/// Whether a program is the one compiled from this text.
pub open spec fn compiles_to(expr: Seq<char>, program: Program) -> bool {
    compiled(expr) == Some(Ok::<Program, Seq<char>>(program))
}

/// Whether a text does not compile, for which the message is given.
pub open spec fn fails_with(expr: Seq<char>, message: Seq<char>) -> bool {
    compiled(expr) == Some(Err::<Program, Seq<char>>(message))
}

/// Whether compiling this text does not panic.
pub open spec fn compile_returns(expr: Seq<char>) -> bool {
    documented(expr) || compiled(expr) is Some
}

/// Whether evaluating this expression does not panic, with these variables
/// and predicates.
pub open spec fn evaluation_returns(
    expr: Seq<char>,
    variables: Variables,
    predicates: Predicates,
) -> bool {
    documented(expr) || !cel_may_yield(expr, variables, predicates, None)
}

// ---------------------------------------------------------------------------
// The documented part of the language
// ---------------------------------------------------------------------------

/// ASCII digits.
pub open spec fn is_digit(c: char) -> bool {
    '0' <= c <= '9'
}

/// What names and numbers are made of.
pub open spec fn word_char(c: char) -> bool {
    ('a' <= c <= 'z') || ('A' <= c <= 'Z') || is_digit(c) || c == '_'
}

/// White space, brackets and operators.
pub open spec fn plain_char(c: char) -> bool {
    ||| c == ' ' || c == '\t' || c == '\n' || c == '\r'
    ||| c == '(' || c == ')' || c == ',' || c == '.'
    ||| c == '!' || c == '=' || c == '<' || c == '>' || c == '&' || c == '|'
}

/// The variables, the functions, the string methods and the truth values.
pub open spec fn known_word(w: Seq<char>) -> bool {
    ||| w == "hostname"@ || w == "uid"@ || w == "gid"@ || w == "pid"@
    ||| w == "blocked_by"@
    ||| w == "endsWith"@ || w == "startsWith"@ || w == "contains"@ || w == "matches"@
    ||| w == "true"@ || w == "false"@
}

/// A number of at most eighteen decimal digits.
pub open spec fn small_number(w: Seq<char>) -> bool {
    w.len() <= 18 && forall|i: int| 0 <= i < w.len() ==> is_digit(#[trigger] w[i])
}

/// What a string literal may hold between its quotes `q`: no escapes and no
/// line ends.
pub open spec fn quoted_char(c: char, q: char) -> bool {
    c != q && c != '\\' && c != '\n' && c != '\r'
}

/// Whether a text keeps to the documented part of the language: the known
/// words, numbers, a minus sign before a number, plain string literals,
/// comparisons, logical operators and calls.
pub open spec fn documented(s: Seq<char>) -> bool
    decreases s.len(),
{
    if s.len() == 0 {
        true
    } else if plain_char(s[0]) {
        documented(s.skip(1))
    } else if s[0] == '-' {
        s.len() > 1 && is_digit(s[1]) && documented(s.skip(1))
    } else if word_char(s[0]) {
        let n = text::run_len(s, |c: char| word_char(c)) as int;
        let w = s.take(n);
        &&& 0 < n <= s.len()
        &&& if is_digit(s[0]) {
            small_number(w)
        } else {
            known_word(w)
        }
        &&& documented(s.skip(n))
    } else if s[0] == '"' || s[0] == '\'' {
        let q = s[0];
        let n = text::run_len(s.skip(1), |c: char| quoted_char(c, q)) as int;
        &&& 0 <= n && n + 1 < s.len()
        &&& s[n + 1] == q
        &&& !(n == 0 && s.len() > 2 && s[2] == q)
        &&& documented(s.skip(n + 2))
    } else {
        false
    }
}

// ---------------------------------------------------------------------------
// Outcomes
// ---------------------------------------------------------------------------

/// Whether an outcome agrees with what a plain expression means: in a context
/// that gives the facts, it is the truth value that the expression has of
/// them.
pub open spec fn agrees(
    expr: Seq<char>,
    variables: Variables,
    predicates: Predicates,
    outcome: CelOutcome,
) -> bool {
    forall|t: Term, facts: Facts| #[trigger]
        written(expr, t) && #[trigger] gives(variables, predicates, facts) ==> outcome
            == CelOutcome::Bool(holds(t, facts))
}

/// Whether an expression can have no other outcome, nor panic.
pub open spec fn only_outcome(
    expr: Seq<char>,
    variables: Variables,
    predicates: Predicates,
    outcome: CelOutcome,
) -> bool {
    forall|other: Option<CelOutcome>| #[trigger]
        cel_may_yield(expr, variables, predicates, other) ==> other == Some(outcome)
}

/// Whether evaluating an expression may have this outcome.
pub open spec fn may_yield(
    expr: Seq<char>,
    variables: Variables,
    predicates: Predicates,
    outcome: CelOutcome,
) -> bool {
    &&& cel_may_yield(expr, variables, predicates, Some(outcome))
    &&& agrees(expr, variables, predicates, outcome)
    &&& documented(expr) ==> only_outcome(expr, variables, predicates, outcome)
}

fn is_word(w: &[char], word: &str) -> (r: bool)
    ensures
        r == (w@ == word@),
{
    same_text(w, &chars_of(word))
}

fn is_known_word(w: &[char]) -> (r: bool)
    ensures
        r == known_word(w@),
{
    is_word(w, "hostname") || is_word(w, "uid") || is_word(w, "gid") || is_word(w, "pid")
        || is_word(w, "blocked_by") || is_word(w, "endsWith") || is_word(w, "startsWith")
        || is_word(w, "contains") || is_word(w, "matches") || is_word(w, "true")
        || is_word(w, "false")
}

fn is_small_number(w: &[char]) -> (r: bool)
    ensures
        r == small_number(w@),
{
    if w.len() > 18 {
        return false;
    }
    for i in 0..w.len()
        invariant
            forall|j: int| 0 <= j < i ==> is_digit(#[trigger] w@[j]),
    {
        if !(w[i] >= '0' && w[i] <= '9') {
            return false;
        }
    }
    true
}

fn is_plain_char(c: char) -> (r: bool)
    ensures
        r == plain_char(c),
{
    c == ' ' || c == '\t' || c == '\n' || c == '\r' || c == '(' || c == ')' || c == ',' || c == '.'
        || c == '!' || c == '=' || c == '<' || c == '>' || c == '&' || c == '|'
}

fn is_word_char(c: char) -> (r: bool)
    ensures
        r == word_char(c),
{
    (c >= 'a' && c <= 'z') || (c >= 'A' && c <= 'Z') || (c >= '0' && c <= '9') || c == '_'
}

/// Whether an expression keeps to the documented part of the language.
pub fn is_documented(expr: &str) -> (r: bool)
    ensures
        r == documented(expr@),
{
    let chars = chars_of(expr);
    let ghost s = expr@;
    let mut at: usize = 0;
    assert(s.skip(0) =~= s);
    while at < chars.len()
        invariant
            chars@ == s,
            s == expr@,
            at <= s.len(),
            documented(s.skip(at as int)) == documented(s),
        decreases s.len() - at,
    {
        let ghost rest = s.skip(at as int);
        let c: char = chars[at];
        assert(rest[0] == c);
        assert(rest.skip(1) =~= s.skip(at + 1));
        if is_plain_char(c) {
            at += 1;
        } else if c == '-' {
            if !(at + 1 < chars.len() && chars[at + 1] >= '0' && chars[at + 1] <= '9') {
                return false;
            }
            at += 1;
        } else if is_word_char(c) {
            let ghost keep = |c: char| word_char(c);
            let mut end: usize = at;
            while end < chars.len() && is_word_char(chars[end])
                invariant
                    chars@ == s,
                    at <= end <= s.len(),
                    rest == s.skip(at as int),
                    keep == (|c: char| word_char(c)),
                    forall|i: int| 0 <= i < end - at ==> keep(#[trigger] rest[i]),
                decreases s.len() - end,
            {
                assert(rest[end - at] == s[end as int]);
                end += 1;
            }
            proof {
                if end < s.len() {
                    assert(rest[end - at] == s[end as int]);
                }
                text::lemma_run_len(rest, keep, end - at);
            }
            let w = slice_subrange(&chars, at, end);
            assert(w@ =~= rest.take(end - at));
            assert(rest.skip(end - at) =~= s.skip(end as int));
            if c >= '0' && c <= '9' {
                if !is_small_number(w) {
                    return false;
                }
            } else if !is_known_word(w) {
                return false;
            }
            at = end;
        } else if c == '"' || c == '\'' {
            let ghost tail = rest.skip(1);
            let ghost keep = |d: char| quoted_char(d, c);
            let mut end: usize = at + 1;
            while end < chars.len() && chars[end] != c && chars[end] != '\\' && chars[end] != '\n'
                && chars[end] != '\r'
                invariant
                    chars@ == s,
                    at + 1 <= end <= s.len(),
                    tail == s.skip(at + 1),
                    keep == (|d: char| quoted_char(d, c)),
                    forall|i: int| 0 <= i < end - at - 1 ==> keep(#[trigger] tail[i]),
                decreases s.len() - end,
            {
                assert(tail[end - at - 1] == s[end as int]);
                end += 1;
            }
            proof {
                if end < s.len() {
                    assert(tail[end - at - 1] == s[end as int]);
                }
                text::lemma_run_len(tail, keep, end - at - 1);
            }
            if !(end < chars.len() && chars[end] == c) {
                return false;
            }
            if end == at + 1 && end + 1 < chars.len() && chars[end + 1] == c {
                return false;
            }
            assert(rest.skip(end - at + 1) =~= s.skip(end + 1));
            at = end + 1;
        } else {
            return false;
        }
    }
    assert(s.skip(at as int) =~= Seq::empty());
    true
}

// ---------------------------------------------------------------------------
// The interpreter
// ---------------------------------------------------------------------------

/// `Program::compile`: the program, or the error as it is displayed, depends
/// on the text alone, and plain expressions compile; of which others do
/// nothing is stated. It panics on number literals that are out of range and
/// on bad escapes in literals. The documented part of the language has
/// neither.
#[verifier::external_body]
pub(crate) fn compile(expr: &str) -> (r: Result<Program, String>)
    requires
        compile_returns(expr@),
    ensures
        compiled(expr@) == Some(compilation(r)),
        forall|t: Term| #[trigger] written(expr@, t) ==> r is Ok,
{
    Program::compile(expr).map_err(|e| e.to_string())
}

/// `Context::default`: a root context with the built-in functions and nothing
/// else.
#[verifier::external_body]
pub(crate) fn new_context() -> (ctx: Context<'static>)
    ensures
        context_variables(ctx) == Variables::empty(),
        context_predicates(ctx) == Some(Predicates::empty()),
{
    Context::default()
}

/// `Context::add_variable` with a string: the variable has that value from
/// then on, and nothing else changes. A string always converts.
#[verifier::external_body]
pub(crate) fn add_text(ctx: &mut Context<'static>, name: &str, value: String)
    ensures
        context_variables(*final(ctx)) == context_variables(*old(ctx)).insert(
            name@,
            CelValue::Text(value@),
        ),
        context_predicates(*final(ctx)) == context_predicates(*old(ctx)),
{
    ctx.add_variable(name, value).unwrap();
}

/// `Context::add_variable` with an integer: the variable has that value from
/// then on, and nothing else changes. An integer always converts.
#[verifier::external_body]
pub(crate) fn add_int(ctx: &mut Context<'static>, name: &str, value: i64)
    ensures
        context_variables(*final(ctx)) == context_variables(*old(ctx)).insert(
            name@,
            CelValue::Int(value as int),
        ),
        context_predicates(*final(ctx)) == context_predicates(*old(ctx)),
{
    ctx.add_variable(name, value).unwrap();
}

/// A set of texts that a context can ask about.
pub struct TextSet {
    pub texts: StringHashSet,
}

impl TextSet {
    /// Whether a text is in the set.
    pub fn holds(&self, t: &str) -> (r: bool)
        ensures
            r == self.texts@.contains(t@),
    {
        self.texts.contains(t)
    }
}

/// `Context::add_function` with a predicate on one string: in a root context
/// a call of that name with a string yields whether the string is in the set
/// (with anything else it is an error), and nothing else changes.
#[verifier::external_body]
pub(crate) fn add_predicate(ctx: &mut Context<'static>, name: &str, set: Arc<TextSet>)
    requires
        context_predicates(*old(ctx)) is Some,
    ensures
        context_variables(*final(ctx)) == context_variables(*old(ctx)),
        context_predicates(*final(ctx)) == Some(
            context_predicates(*old(ctx))->0.insert(name@, set.texts@),
        ),
{
    ctx.add_function(name, move |t: Arc<String>| set.holds(t.as_str()));
}

/// `Program::execute`: the outcome is one that the expression, the variables
/// and the predicates allow. A plain expression yields its truth value: `&&`,
/// `||` and `!` of truth values are and, or and not, comparisons compare, the
/// string methods look at the start, at the end and throughout, and
/// `blocked_by` asks the predicate of that name. What other expressions mean
/// is not stated. In the documented part of the language, which has no maps
/// to walk, there is only one outcome. It panics on integers that overflow, on
/// macros with too few arguments, on byte strings that are searched for
/// nothing and on some time functions. The documented part of the language has
/// no arithmetic, no indexing, no byte strings, no macros and no time
/// functions.
#[verifier::external_body]
pub(crate) fn execute(program: &Program, ctx: &Context<'static>) -> (r: CelOutcome)
    requires
        context_predicates(*ctx) is Some,
        exists|expr: Seq<char>| #[trigger]
            compiles_to(expr, *program) && evaluation_returns(
                expr,
                context_variables(*ctx),
                context_predicates(*ctx)->0,
            ),
    ensures
        forall|expr: Seq<char>| #[trigger]
            compiles_to(expr, *program) ==> cel_may_yield(
                expr,
                context_variables(*ctx),
                context_predicates(*ctx)->0,
                Some(r),
            ),
        forall|expr: Seq<char>| #[trigger]
            compiles_to(expr, *program) ==> agrees(
                expr,
                context_variables(*ctx),
                context_predicates(*ctx)->0,
                r,
            ),
        forall|expr: Seq<char>| #[trigger]
            compiles_to(expr, *program) && documented(expr) ==> only_outcome(
                expr,
                context_variables(*ctx),
                context_predicates(*ctx)->0,
                r,
            ),
{
    match program.execute(ctx) {
        Ok(Value::Bool(b)) => CelOutcome::Bool(b),
        Ok(_) => CelOutcome::Other,
        Err(_) => CelOutcome::Error,
    }
}

// ---------------------------------------------------------------------------
// Laws
// ---------------------------------------------------------------------------

/// White space, brackets, commas, dots and operators may stand anywhere in the
/// documented language, and a minus sign before a digit. No other character
/// may, but for those of words, numbers and quotes.
pub proof fn law_documented_signs(c: char, rest: Seq<char>)
    ensures
        documented(seq![]),
        c == ' ' || c == '\t' || c == '\n' || c == '\r' || c == '(' || c == ')' || c == ',' || c
            == '.' || c == '!' || c == '=' || c == '<' || c == '>' || c == '&' || c == '|'
            ==> documented(seq![c] + rest) == documented(rest),
        c == '-' ==> (documented(seq![c] + rest) <==> rest.len() > 0 && '0' <= rest[0] <= '9'
            && documented(rest)),
        c == '+' || c == '*' || c == '/' || c == '%' || c == '[' || c == ']' || c == '{' || c == '}'
            || c == '?' || c == ':' || c == '\\' || c == ';' || c == '@' || c == '#' || c == '$'
            || c == '^' || c == '~' || c == '`' || c > '~' || c < '\t' || ('\r' < c < ' ')
            ==> !documented(seq![c] + rest),
{
    let s = seq![c] + rest;
    assert(s[0] == c);
    assert(s.skip(1) =~= rest);
    if rest.len() > 0 {
        assert(s[1] == rest[0]);
    }
}

/// A word of the documented language is one of eleven, and a number has at most
/// eighteen digits.
pub proof fn law_documented_words(word: Seq<char>, rest: Seq<char>)
    requires
        word.len() > 0,
        forall|i: int|
            0 <= i < word.len() ==> {
                ||| 'a' <= #[trigger] word[i] <= 'z'
                ||| 'A' <= word[i] <= 'Z'
                ||| '0' <= word[i] <= '9'
                ||| word[i] == '_'
            },
        rest.len() > 0 ==> !('a' <= rest[0] <= 'z') && !('A' <= rest[0] <= 'Z') && !('0' <= rest[0]
            <= '9') && rest[0] != '_',
    ensures
        '0' <= word[0] <= '9' ==> (documented(word + rest) <==> word.len() <= 18 && (forall|
            i: int,
        |
            0 <= i < word.len() ==> '0' <= #[trigger] word[i] <= '9') && documented(rest)),
        !('0' <= word[0] <= '9') ==> (documented(word + rest) <==> (word == "hostname"@ || word
            == "uid"@ || word == "gid"@ || word == "pid"@ || word == "blocked_by"@ || word
            == "endsWith"@ || word == "startsWith"@ || word == "contains"@ || word == "matches"@
            || word == "true"@ || word == "false"@) && documented(rest)),
{
    let s = word + rest;
    let n = word.len() as int;
    let keep = |c: char| word_char(c);
    assert forall|i: int| 0 <= i < n implies keep(#[trigger] s[i]) by {
        assert(s[i] == word[i]);
    }
    text::lemma_run_len(s, keep, n);
    assert(s[0] == word[0]);
    assert(s.take(n) =~= word);
    assert(s.skip(n) =~= rest);
}

/// A text in quotes of the documented language holds no such quote, no
/// backslash and no line end, and is closed; two pairs of quotes do not follow
/// each other without anything in the first.
pub proof fn law_documented_quotes(q: char, inner: Seq<char>, rest: Seq<char>)
    requires
        q == '"' || q == '\'',
        forall|i: int|
            0 <= i < inner.len() ==> #[trigger] inner[i] != q && inner[i] != '\\' && inner[i]
                != '\n' && inner[i] != '\r',
    ensures
        documented(seq![q] + inner + seq![q] + rest) <==> !(inner.len() == 0 && rest.len() > 0
            && rest[0] == q) && documented(rest),
        rest.len() == 0 || rest[0] == '\\' || rest[0] == '\n' || rest[0] == '\r' ==> !documented(
            seq![q] + inner + rest,
        ),
{
    let n = inner.len() as int;
    let keep = |c: char| quoted_char(c, q);
    let closed = seq![q] + inner + seq![q] + rest;
    let tail = closed.skip(1);
    assert forall|i: int| 0 <= i < n implies keep(#[trigger] tail[i]) by {
        assert(tail[i] == inner[i]);
    }
    assert(tail[n] == q);
    text::lemma_run_len(tail, keep, n);
    assert(closed[0] == q && closed[n + 1] == q);
    assert(closed.skip(n + 2) =~= rest);
    if n == 0 && rest.len() > 0 {
        assert(closed[2] == rest[0]);
    }
    let open = seq![q] + inner + rest;
    let after = open.skip(1);
    assert forall|i: int| 0 <= i < n implies keep(#[trigger] after[i]) by {
        assert(after[i] == inner[i]);
    }
    assert(open[0] == q);
    if rest.len() == 0 {
        text::lemma_run_len(after, keep, n);
    } else if rest[0] == '\\' || rest[0] == '\n' || rest[0] == '\r' {
        assert(after[n] == rest[0]);
        text::lemma_run_len(after, keep, n);
        assert(open[n + 1] == rest[0]);
    }
}

} // verus!
