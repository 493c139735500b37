//! Plain expressions, of which most rules are made: truth values, comparisons,
//! `blocked_by`, the string methods that look for a text, `&&`, `||`, `!` and
//! brackets. How they are written, and what they mean.
use crate::cel::{
    documented, is_digit, known_word, plain_char, quoted_char, small_number, word_char, CelValue,
    Predicates, Variables,
};
use crate::text;
use vstd::prelude::*;

verus! {

/// The numbers of a caller.
pub enum Id {
    Uid,
    Gid,
    Pid,
}

/// The comparisons of two numbers.
pub enum Relation {
    Equal,
    NotEqual,
    Less,
    LessOrEqual,
    Greater,
    GreaterOrEqual,
}

/// The string methods that look for a text.
pub enum Method {
    StartsWith,
    EndsWith,
    Contains,
}

/// A plain expression, as it is built up.
pub enum Term {
    /// `true` or `false`
    Truth(bool),
    /// `blocked_by("s")`
    BlockedBy(Seq<char>),
    /// `hostname.startsWith("s")` and the like
    Call(Method, Seq<char>),
    /// `hostname == "s"`
    HostnameIs(Seq<char>),
    /// `hostname != "s"`
    HostnameIsNot(Seq<char>),
    /// `uid == n` and the like
    Compare(Id, Relation, int),
    /// `(t)`
    Brackets(Box<Term>),
    /// `!t`
    Not(Box<Term>),
    /// `l && r`
    And(Box<Term>, Box<Term>),
    /// `l || r`
    Or(Box<Term>, Box<Term>),
}

/// What may stand between quotes in a plain expression: letters, digits,
/// hyphens, underscores and dots.
pub open spec fn plain_text(s: Seq<char>) -> bool {
    forall|i: int| 0 <= i < s.len() ==> word_char(#[trigger] s[i]) || s[i] == '-' || s[i] == '.'
}

/// How closely an expression binds: `||` least, then `&&`, comparisons, `!`,
/// and what stands by itself.
pub open spec fn rank(t: Term) -> int {
    match t {
        Term::Or(_, _) => 0,
        Term::And(_, _) => 1,
        Term::HostnameIs(_) | Term::HostnameIsNot(_) | Term::Compare(_, _, _) => 2,
        Term::Not(_) => 3,
        _ => 4,
    }
}

/// Whether a term is built as an expression is read: what binds less closely
/// stands in brackets, and a row of `&&` or of `||` is read from the left.
pub open spec fn well_formed(t: Term) -> bool
    decreases t,
{
    match t {
        Term::Truth(_) => true,
        Term::BlockedBy(s) => plain_text(s),
        Term::Call(_, s) => plain_text(s),
        Term::HostnameIs(s) => plain_text(s),
        Term::HostnameIsNot(s) => plain_text(s),
        Term::Compare(_, _, n) => text::decimal_int(n).len() <= 18,
        Term::Brackets(t) => well_formed(*t),
        Term::Not(t) => rank(*t) >= 4 && well_formed(*t),
        Term::And(l, r) => rank(*l) >= 1 && rank(*r) >= 2 && well_formed(*l) && well_formed(*r),
        Term::Or(l, r) => rank(*r) >= 1 && well_formed(*l) && well_formed(*r),
    }
}

/// The variable of a number.
pub open spec fn id_name(id: Id) -> Seq<char> {
    match id {
        Id::Uid => "uid"@,
        Id::Gid => "gid"@,
        Id::Pid => "pid"@,
    }
}

/// The sign of a comparison.
pub open spec fn relation_sign(relation: Relation) -> Seq<char> {
    match relation {
        Relation::Equal => "=="@,
        Relation::NotEqual => "!="@,
        Relation::Less => "<"@,
        Relation::LessOrEqual => "<="@,
        Relation::Greater => ">"@,
        Relation::GreaterOrEqual => ">="@,
    }
}

/// The name of a method.
pub open spec fn method_name(method: Method) -> Seq<char> {
    match method {
        Method::StartsWith => "startsWith"@,
        Method::EndsWith => "endsWith"@,
        Method::Contains => "contains"@,
    }
}

/// A text in double quotes.
pub open spec fn quoted(s: Seq<char>) -> Seq<char> {
    "\""@ + s + "\""@
}

/// The words and signs that a term is written with.
pub open spec fn tokens(t: Term) -> Seq<Seq<char>>
    decreases t,
{
    match t {
        Term::Truth(b) => if b {
            seq!["true"@]
        } else {
            seq!["false"@]
        },
        Term::BlockedBy(s) => seq!["blocked_by"@, "("@, quoted(s), ")"@],
        Term::Call(method, s) => seq![
            "hostname"@,
            "."@,
            method_name(method),
            "("@,
            quoted(s),
            ")"@,
        ],
        Term::HostnameIs(s) => seq!["hostname"@, "=="@, quoted(s)],
        Term::HostnameIsNot(s) => seq!["hostname"@, "!="@, quoted(s)],
        Term::Compare(id, relation, n) => seq![
            id_name(id),
            relation_sign(relation),
            text::decimal_int(n),
        ],
        Term::Brackets(t) => seq!["("@] + tokens(*t) + seq![")"@],
        Term::Not(t) => seq!["!"@] + tokens(*t),
        Term::And(l, r) => tokens(*l) + seq!["&&"@] + tokens(*r),
        Term::Or(l, r) => tokens(*l) + seq!["||"@] + tokens(*r),
    }
}

/// White space between words and signs.
pub open spec fn blank(c: char) -> bool {
    c == ' ' || c == '\t' || c == '\n' || c == '\r'
}

/// Whether a text is made of these words and signs in this order, with any
/// white space before, between and after them.
pub open spec fn spells(s: Seq<char>, tokens: Seq<Seq<char>>) -> bool
    decreases s.len() + tokens.len(),
{
    if s.len() > 0 && blank(s[0]) {
        spells(s.skip(1), tokens)
    } else if tokens.len() == 0 {
        s.len() == 0
    } else {
        tokens[0].is_prefix_of(s) && spells(s.skip(tokens[0].len() as int), tokens.skip(1))
    }
}

/// Whether a text is a way to write a term.
pub open spec fn written(expr: Seq<char>, t: Term) -> bool {
    well_formed(t) && spells(expr, tokens(t))
}

/// What a plain expression can ask about: the name, the numbers of the caller
/// and the texts that `blocked_by` holds of.
pub struct Facts {
    pub host: Seq<char>,
    pub uid: int,
    pub gid: int,
    pub pid: int,
    pub blocked: Set<Seq<char>>,
}

/// Whether a context's variables and predicates give these facts, and no
/// predicate takes a string method's place.
pub open spec fn gives(variables: Variables, predicates: Predicates, facts: Facts) -> bool {
    &&& variables.contains_pair("hostname"@, CelValue::Text(facts.host))
    &&& variables.contains_pair("uid"@, CelValue::Int(facts.uid))
    &&& variables.contains_pair("gid"@, CelValue::Int(facts.gid))
    &&& variables.contains_pair("pid"@, CelValue::Int(facts.pid))
    &&& predicates.contains_pair("blocked_by"@, facts.blocked)
    &&& !predicates.dom().contains("startsWith"@)
    &&& !predicates.dom().contains("endsWith"@)
    &&& !predicates.dom().contains("contains"@)
}

/// The number of a caller that a variable stands for.
pub open spec fn id_value(id: Id, facts: Facts) -> int {
    match id {
        Id::Uid => facts.uid,
        Id::Gid => facts.gid,
        Id::Pid => facts.pid,
    }
}

/// Whether two numbers compare so.
pub open spec fn related(relation: Relation, a: int, b: int) -> bool {
    match relation {
        Relation::Equal => a == b,
        Relation::NotEqual => a != b,
        Relation::Less => a < b,
        Relation::LessOrEqual => a <= b,
        Relation::Greater => a > b,
        Relation::GreaterOrEqual => a >= b,
    }
}

/// Whether a text occurs in another.
pub open spec fn occurs_in(s: Seq<char>, whole: Seq<char>) -> bool {
    exists|at: int|
        0 <= at <= whole.len() - s.len() && #[trigger] whole.subrange(at, at + s.len()) == s
}

/// Whether a method finds a text in the host.
pub open spec fn finds(method: Method, host: Seq<char>, s: Seq<char>) -> bool {
    match method {
        Method::StartsWith => s.is_prefix_of(host),
        Method::EndsWith => s.is_suffix_of(host),
        Method::Contains => occurs_in(s, host),
    }
}

/// Whether a plain expression is true of the facts.
pub open spec fn holds(t: Term, facts: Facts) -> bool
    decreases t,
{
    match t {
        Term::Truth(b) => b,
        Term::BlockedBy(s) => facts.blocked.contains(s),
        Term::Call(method, s) => finds(method, facts.host, s),
        Term::HostnameIs(s) => facts.host == s,
        Term::HostnameIsNot(s) => facts.host != s,
        Term::Compare(id, relation, n) => related(relation, id_value(id, facts), n),
        Term::Brackets(t) => holds(*t, facts),
        Term::Not(t) => !holds(*t, facts),
        Term::And(l, r) => holds(*l, facts) && holds(*r, facts),
        Term::Or(l, r) => holds(*l, facts) || holds(*r, facts),
    }
}

// ---------------------------------------------------------------------------
// Laws
// ---------------------------------------------------------------------------

/// A text after another spells what the two spell, one after the other.
proof fn lemma_spells_join(a: Seq<char>, b: Seq<char>, of_a: Seq<Seq<char>>, of_b: Seq<Seq<char>>)
    requires
        spells(a, of_a),
        spells(b, of_b),
        none_empty(of_a),
    ensures
        spells(a + b, of_a + of_b),
    decreases a.len() + of_a.len(),
{
    if a.len() > 0 && blank(a[0]) {
        lemma_spells_join(a.skip(1), b, of_a, of_b);
        assert((a + b).skip(1) =~= a.skip(1) + b);
        assert((a + b)[0] == a[0]);
    } else if of_a.len() == 0 {
        assert(a + b =~= b);
        assert(of_a + of_b =~= of_b);
    } else {
        let n = of_a[0].len() as int;
        assert(none_empty(of_a.skip(1)));
        lemma_spells_join(a.skip(n), b, of_a.skip(1), of_b);
        assert((a + b).skip(n) =~= a.skip(n) + b);
        assert((of_a + of_b).skip(1) =~= of_a.skip(1) + of_b);
        assert((of_a + of_b)[0] == of_a[0]);
        assert((a + b)[0] == a[0]);
        assert(of_a[0].is_prefix_of(a + b)) by {
            assert((a + b).take(n) =~= a.take(n));
        }
    }
}

/// A word or sign spells itself.
proof fn lemma_spells_one(token: Seq<char>)
    requires
        token.len() > 0,
        !blank(token[0]),
    ensures
        spells(token, seq![token]),
{
    let rest = token.skip(token.len() as int);
    assert(seq![token].skip(1) =~= Seq::empty());
    assert(spells(rest, Seq::empty()));
    assert(token.is_prefix_of(token));
}

/// Whether none of these words and signs is empty.
spec fn none_empty(tokens: Seq<Seq<char>>) -> bool {
    forall|i: int| 0 <= i < tokens.len() ==> (#[trigger] tokens[i]).len() > 0
}

/// No word or sign of a term is empty.
proof fn lemma_tokens_not_empty(t: Term)
    ensures
        none_empty(tokens(t)),
    decreases t,
{
    lemma_signs();
    match t {
        Term::Compare(_, _, n) => {
            lemma_decimal_start(n);
        },
        Term::Brackets(inner) => {
            lemma_tokens_not_empty(*inner);
        },
        Term::Not(inner) => {
            lemma_tokens_not_empty(*inner);
        },
        Term::And(l, r) => {
            lemma_tokens_not_empty(*l);
            lemma_tokens_not_empty(*r);
        },
        Term::Or(l, r) => {
            lemma_tokens_not_empty(*l);
            lemma_tokens_not_empty(*r);
        },
        _ => {},
    }
}

/// The words and signs, none of which is empty or starts with white space.
proof fn lemma_signs()
    ensures
        "true"@.len() == 4 && "true"@[0] == 't',
        "false"@.len() == 5 && "false"@[0] == 'f',
        "blocked_by"@.len() == 10 && "blocked_by"@[0] == 'b',
        "hostname"@.len() == 8 && "hostname"@[0] == 'h',
        "startsWith"@.len() == 10 && "startsWith"@[0] == 's',
        "endsWith"@.len() == 8 && "endsWith"@[0] == 'e',
        "contains"@.len() == 8 && "contains"@[0] == 'c',
        "uid"@.len() == 3 && "uid"@[0] == 'u',
        "gid"@.len() == 3 && "gid"@[0] == 'g',
        "pid"@.len() == 3 && "pid"@[0] == 'p',
        "("@.len() == 1 && "("@[0] == '(',
        ")"@.len() == 1 && ")"@[0] == ')',
        "."@.len() == 1 && "."@[0] == '.',
        "\""@.len() == 1 && "\""@[0] == '"',
        "!"@.len() == 1 && "!"@[0] == '!',
        "=="@.len() == 2 && "=="@[0] == '=',
        "!="@.len() == 2 && "!="@[0] == '!',
        "<"@.len() == 1 && "<"@[0] == '<',
        "<="@.len() == 2 && "<="@[0] == '<',
        ">"@.len() == 1 && ">"@[0] == '>',
        ">="@.len() == 2 && ">="@[0] == '>',
        "&&"@.len() == 2 && "&&"@[0] == '&',
        "||"@.len() == 2 && "||"@[0] == '|',
{
    reveal_strlit("true");
    reveal_strlit("false");
    reveal_strlit("blocked_by");
    reveal_strlit("hostname");
    reveal_strlit("startsWith");
    reveal_strlit("endsWith");
    reveal_strlit("contains");
    reveal_strlit("uid");
    reveal_strlit("gid");
    reveal_strlit("pid");
    reveal_strlit("(");
    reveal_strlit(")");
    reveal_strlit(".");
    reveal_strlit("\"");
    reveal_strlit("!");
    reveal_strlit("==");
    reveal_strlit("!=");
    reveal_strlit("<");
    reveal_strlit("<=");
    reveal_strlit(">");
    reveal_strlit(">=");
    reveal_strlit("&&");
    reveal_strlit("||");
}

/// A numeral starts with a digit or a minus sign.
proof fn lemma_decimal_start(n: int)
    ensures
        text::decimal_int(n).len() > 0,
        !blank(text::decimal_int(n)[0]),
{
    text::lemma_decimal_digits(if n < 0 {
        (-n) as nat
    } else {
        n as nat
    });
}

/// Compound expressions are written with their parts, with `&&`, `||`, `!` and
/// brackets between and around them, if each part binds closely enough.
pub proof fn law_compound_expressions_are_written(a: Seq<char>, b: Seq<char>, l: Term, r: Term)
    requires
        written(a, l),
        written(b, r),
    ensures
        rank(l) >= 1 && rank(r) >= 2 ==> written(
            a + "&&"@ + b,
            Term::And(Box::new(l), Box::new(r)),
        ),
        rank(r) >= 1 ==> written(a + "||"@ + b, Term::Or(Box::new(l), Box::new(r))),
        rank(l) >= 4 ==> written("!"@ + a, Term::Not(Box::new(l))),
        written("("@ + a + ")"@, Term::Brackets(Box::new(l))),
{
    lemma_signs();
    lemma_tokens_not_empty(l);
    lemma_tokens_not_empty(r);
    lemma_spells_one("&&"@);
    lemma_spells_join(a, "&&"@, tokens(l), seq!["&&"@]);
    lemma_spells_join(a + "&&"@, b, tokens(l) + seq!["&&"@], tokens(r));
    lemma_spells_one("||"@);
    lemma_spells_join(a, "||"@, tokens(l), seq!["||"@]);
    lemma_spells_join(a + "||"@, b, tokens(l) + seq!["||"@], tokens(r));
    lemma_spells_one("!"@);
    lemma_spells_join("!"@, a, seq!["!"@], tokens(l));
    lemma_spells_one("("@);
    lemma_spells_join("("@, a, seq!["("@], tokens(l));
    lemma_spells_one(")"@);
    lemma_spells_join("("@ + a, ")"@, seq!["("@] + tokens(l), seq![")"@]);
}

/// White space around an expression does not matter.
pub proof fn law_white_space_around_does_not_matter(
    before: Seq<char>,
    expr: Seq<char>,
    after: Seq<char>,
    t: Term,
)
    requires
        written(expr, t),
        forall|i: int| 0 <= i < before.len() ==> blank(#[trigger] before[i]),
        forall|i: int| 0 <= i < after.len() ==> blank(#[trigger] after[i]),
    ensures
        written(before + expr + after, t),
{
    let none = Seq::<Seq<char>>::empty();
    lemma_tokens_not_empty(t);
    lemma_blanks_spell_nothing(before);
    lemma_blanks_spell_nothing(after);
    lemma_spells_join(before, expr, none, tokens(t));
    assert(none + tokens(t) =~= tokens(t));
    lemma_spells_join(before + expr, after, tokens(t), none);
    assert(tokens(t) + none =~= tokens(t));
}

proof fn lemma_blanks_spell_nothing(s: Seq<char>)
    requires
        forall|i: int| 0 <= i < s.len() ==> blank(#[trigger] s[i]),
    ensures
        spells(s, Seq::empty()),
    decreases s.len(),
{
    if s.len() > 0 {
        assert(blank(s[0]));
        assert forall|i: int| 0 <= i < s.skip(1).len() implies blank(#[trigger] s.skip(1)[i]) by {
            assert(blank(s[i + 1]));
        }
        lemma_blanks_spell_nothing(s.skip(1));
    }
}

/// The simple expressions, written without white space.
pub proof fn law_simple_expressions_are_written(s: Seq<char>, method: Method)
    requires
        plain_text(s),
    ensures
        written("blocked_by"@ + "("@ + quoted(s) + ")"@, Term::BlockedBy(s)),
        written(
            "hostname"@ + "."@ + method_name(method) + "("@ + quoted(s) + ")"@,
            Term::Call(method, s),
        ),
        written("hostname"@ + "=="@ + quoted(s), Term::HostnameIs(s)),
        written("hostname"@ + "!="@ + quoted(s), Term::HostnameIsNot(s)),
{
    lemma_signs();
    let name = method_name(method);
    lemma_spells_one("blocked_by"@);
    lemma_spells_one("hostname"@);
    lemma_spells_one("."@);
    lemma_spells_one(name);
    lemma_spells_one("("@);
    lemma_spells_one(")"@);
    lemma_spells_one("=="@);
    lemma_spells_one("!="@);
    assert(quoted(s)[0] == '"');
    lemma_spells_one(quoted(s));
    lemma_spells_four("blocked_by"@, "("@, quoted(s), ")"@);
    lemma_spells_join("hostname"@, "."@, seq!["hostname"@], seq!["."@]);
    lemma_spells_four(name, "("@, quoted(s), ")"@);
    lemma_spells_join(
        "hostname"@ + "."@,
        name + "("@ + quoted(s) + ")"@,
        seq!["hostname"@] + seq!["."@],
        seq![name, "("@, quoted(s), ")"@],
    );
    assert("hostname"@ + "."@ + (name + "("@ + quoted(s) + ")"@) =~= "hostname"@ + "."@ + name
        + "("@ + quoted(s) + ")"@);
    assert(seq!["hostname"@] + seq!["."@] + seq![name, "("@, quoted(s), ")"@] =~= tokens(
        Term::Call(method, s),
    ));
    lemma_spells_join("hostname"@, "=="@, seq!["hostname"@], seq!["=="@]);
    lemma_spells_join(
        "hostname"@ + "=="@,
        quoted(s),
        seq!["hostname"@] + seq!["=="@],
        seq![quoted(s)],
    );
    assert(seq!["hostname"@] + seq!["=="@] + seq![quoted(s)] =~= tokens(Term::HostnameIs(s)));
    lemma_spells_join("hostname"@, "!="@, seq!["hostname"@], seq!["!="@]);
    lemma_spells_join(
        "hostname"@ + "!="@,
        quoted(s),
        seq!["hostname"@] + seq!["!="@],
        seq![quoted(s)],
    );
    assert(seq!["hostname"@] + seq!["!="@] + seq![quoted(s)] =~= tokens(Term::HostnameIsNot(s)));
}

/// Four words or signs, one after the other.
proof fn lemma_spells_four(a: Seq<char>, b: Seq<char>, c: Seq<char>, d: Seq<char>)
    requires
        a.len() > 0 && !blank(a[0]),
        b.len() > 0 && !blank(b[0]),
        c.len() > 0 && !blank(c[0]),
        d.len() > 0 && !blank(d[0]),
    ensures
        spells(a + b + c + d, seq![a, b, c, d]),
{
    lemma_spells_one(a);
    lemma_spells_one(b);
    lemma_spells_one(c);
    lemma_spells_one(d);
    lemma_spells_join(a, b, seq![a], seq![b]);
    lemma_spells_join(a + b, c, seq![a] + seq![b], seq![c]);
    lemma_spells_join(a + b + c, d, seq![a] + seq![b] + seq![c], seq![d]);
    assert(seq![a] + seq![b] + seq![c] + seq![d] =~= seq![a, b, c, d]);
}

/// A comparison of a number, written without white space.
pub proof fn law_comparisons_are_written(id: Id, relation: Relation, n: int)
    requires
        text::decimal_int(n).len() <= 18,
    ensures
        written(
            id_name(id) + relation_sign(relation) + text::decimal_int(n),
            Term::Compare(id, relation, n),
        ),
{
    lemma_signs();
    lemma_decimal_start(n);
    let (a, b, c) = (id_name(id), relation_sign(relation), text::decimal_int(n));
    lemma_spells_one(a);
    lemma_spells_one(b);
    lemma_spells_one(c);
    lemma_spells_join(a, b, seq![a], seq![b]);
    lemma_spells_join(a + b, c, seq![a] + seq![b], seq![c]);
    assert(seq![a] + seq![b] + seq![c] =~= tokens(Term::Compare(id, relation, n)));
}

/// A sign: brackets and operators.
spec fn is_sign(token: Seq<char>) -> bool {
    token.len() > 0 && forall|i: int| 0 <= i < token.len() ==> plain_char(#[trigger] token[i])
}

/// A known word.
spec fn is_name(token: Seq<char>) -> bool {
    &&& token.len() > 0 && !is_digit(token[0])
    &&& forall|i: int| 0 <= i < token.len() ==> word_char(#[trigger] token[i])
    &&& known_word(token)
}

/// A number that is not negative.
spec fn is_number(token: Seq<char>) -> bool {
    token.len() > 0 && small_number(token)
}

/// A word, a number or a text in quotes.
spec fn is_operand(token: Seq<char>) -> bool {
    ||| is_name(token)
    ||| is_number(token)
    ||| token.len() > 1 && token[0] == '-' && is_number(token.skip(1))
    ||| exists|s: Seq<char>| plain_text(s) && token == #[trigger] quoted(s)
}

/// Signs and operands, with a sign between each two operands.
spec fn is_regular(tokens: Seq<Seq<char>>) -> bool {
    &&& forall|i: int|
        0 <= i < tokens.len() ==> is_sign(#[trigger] tokens[i]) || is_operand(tokens[i])
    &&& forall|i: int, j: int|
        0 <= i < tokens.len() && j == i + 1 && j < tokens.len() ==> is_sign(#[trigger] tokens[i])
            || is_sign(#[trigger] tokens[j])
}

proof fn lemma_regular_around_sign(a: Seq<Seq<char>>, sign: Seq<char>, b: Seq<Seq<char>>)
    requires
        is_regular(a),
        is_sign(sign),
        is_regular(b),
    ensures
        is_regular(a + seq![sign] + b),
{
    let all = a + seq![sign] + b;
    let n = a.len() as int;
    assert(all[n] == sign);
    assert forall|i: int| 0 <= i < all.len() implies is_sign(#[trigger] all[i]) || is_operand(
        all[i],
    ) by {
        if i < n {
            assert(all[i] == a[i]);
        } else if i > n {
            assert(all[i] == b[i - n - 1]);
        }
    }
    assert forall|i: int, j: int|
        0 <= i < all.len() && j == i + 1 && j < all.len() implies is_sign(#[trigger] all[i])
        || is_sign(#[trigger] all[j]) by {
        if j < n {
            assert(all[i] == a[i] && all[j] == a[j]);
        } else if i > n {
            assert(all[i] == b[i - n - 1] && all[j] == b[j - n - 1]);
        }
    }
}

proof fn lemma_names_and_signs()
    ensures
        is_name("true"@) && is_name("false"@) && is_name("blocked_by"@) && is_name("hostname"@),
        is_name("startsWith"@) && is_name("endsWith"@) && is_name("contains"@),
        is_name("uid"@) && is_name("gid"@) && is_name("pid"@),
        is_sign("("@) && is_sign(")"@) && is_sign("."@) && is_sign("!"@),
        is_sign("=="@) && is_sign("!="@) && is_sign("<"@) && is_sign("<="@) && is_sign(">"@),
        is_sign(">="@) && is_sign("&&"@) && is_sign("||"@),
{
    reveal_strlit("true");
    reveal_strlit("false");
    reveal_strlit("blocked_by");
    reveal_strlit("hostname");
    reveal_strlit("startsWith");
    reveal_strlit("endsWith");
    reveal_strlit("contains");
    reveal_strlit("uid");
    reveal_strlit("gid");
    reveal_strlit("pid");
    reveal_strlit("(");
    reveal_strlit(")");
    reveal_strlit(".");
    reveal_strlit("!");
    reveal_strlit("==");
    reveal_strlit("!=");
    reveal_strlit("<");
    reveal_strlit("<=");
    reveal_strlit(">");
    reveal_strlit(">=");
    reveal_strlit("&&");
    reveal_strlit("||");
}

proof fn lemma_tokens_regular(t: Term)
    requires
        well_formed(t),
    ensures
        is_regular(tokens(t)),
    decreases t,
{
    lemma_names_and_signs();
    let none = Seq::<Seq<char>>::empty();
    match t {
        Term::Truth(_) => {},
        Term::BlockedBy(s) => {
            assert(is_operand(quoted(s)));
        },
        Term::Call(method, s) => {
            assert(is_operand(quoted(s)));
            assert(is_name(method_name(method)));
        },
        Term::HostnameIs(s) => {
            assert(is_operand(quoted(s)));
        },
        Term::HostnameIsNot(s) => {
            assert(is_operand(quoted(s)));
        },
        Term::Compare(id, relation, n) => {
            assert(is_name(id_name(id)));
            assert(is_sign(relation_sign(relation)));
            text::lemma_decimal_digits(if n < 0 {
                (-n) as nat
            } else {
                n as nat
            });
            if n < 0 {
                assert(text::decimal_int(n).skip(1) =~= text::decimal((-n) as nat));
            }
            assert(is_operand(text::decimal_int(n)));
        },
        Term::Brackets(inner) => {
            lemma_tokens_regular(*inner);
            lemma_regular_around_sign(none, "("@, tokens(*inner));
            lemma_regular_around_sign(none + seq!["("@] + tokens(*inner), ")"@, none);
            assert(none + seq!["("@] + tokens(*inner) + seq![")"@] + none =~= tokens(t));
        },
        Term::Not(inner) => {
            lemma_tokens_regular(*inner);
            lemma_regular_around_sign(none, "!"@, tokens(*inner));
            assert(none + seq!["!"@] + tokens(*inner) =~= tokens(t));
        },
        Term::And(l, r) => {
            lemma_tokens_regular(*l);
            lemma_tokens_regular(*r);
            lemma_regular_around_sign(tokens(*l), "&&"@, tokens(*r));
        },
        Term::Or(l, r) => {
            lemma_tokens_regular(*l);
            lemma_tokens_regular(*r);
            lemma_regular_around_sign(tokens(*l), "||"@, tokens(*r));
        },
    }
}

/// A sign before a documented text leaves it documented.
proof fn lemma_sign_documented(sign: Seq<char>, rest: Seq<char>)
    requires
        forall|i: int| 0 <= i < sign.len() ==> plain_char(#[trigger] sign[i]),
        documented(rest),
    ensures
        documented(sign + rest),
    decreases sign.len(),
{
    if sign.len() == 0 {
        assert(sign + rest =~= rest);
    } else {
        assert(plain_char(sign[0]));
        assert forall|i: int| 0 <= i < sign.skip(1).len() implies plain_char(
            #[trigger] sign.skip(1)[i],
        ) by {
            assert(plain_char(sign[i + 1]));
        }
        lemma_sign_documented(sign.skip(1), rest);
        assert((sign + rest)[0] == sign[0]);
        assert((sign + rest).skip(1) =~= sign.skip(1) + rest);
    }
}

/// A word or a number before a documented text leaves it documented, if
/// neither goes on there.
proof fn lemma_word_documented(word: Seq<char>, rest: Seq<char>)
    requires
        is_name(word) || is_number(word),
        rest.len() > 0 ==> !word_char(rest[0]),
        documented(rest),
    ensures
        documented(word + rest),
{
    let s = word + rest;
    let n = word.len() as int;
    let keep = |c: char| word_char(c);
    assert forall|i: int| 0 <= i < n implies keep(#[trigger] s[i]) by {
        assert(s[i] == word[i]);
    }
    text::lemma_run_len(s, keep, n);
    assert(s[0] == word[0]);
    assert(s.take(n) =~= word);
    assert(s.skip(n) =~= rest);
    assert(is_number(word) ==> is_digit(word[0]));
}

/// A text in quotes before a documented text leaves it documented, if no
/// other quotes follow.
proof fn lemma_quoted_documented(t: Seq<char>, rest: Seq<char>)
    requires
        plain_text(t),
        rest.len() > 0 ==> rest[0] != '"',
        documented(rest),
    ensures
        documented(quoted(t) + rest),
{
    reveal_strlit("\"");
    let s = quoted(t) + rest;
    let q = '"';
    let n = t.len() as int;
    let keep = |c: char| quoted_char(c, q);
    let tail = s.skip(1);
    assert(s[0] == q);
    assert forall|i: int| 0 <= i < n implies keep(#[trigger] tail[i]) by {
        assert(tail[i] == t[i]);
    }
    assert(tail[n] == q);
    text::lemma_run_len(tail, keep, n);
    assert(s[n + 1] == q);
    assert(s.skip(n + 2) =~= rest);
    if n == 0 && s.len() > 2 {
        assert(s[2] == rest[0]);
    }
}

/// An operand before a documented text that starts with a sign or with white
/// space leaves it documented.
proof fn lemma_operand_documented(token: Seq<char>, rest: Seq<char>)
    requires
        is_operand(token),
        rest.len() > 0 ==> plain_char(rest[0]),
        documented(rest),
    ensures
        documented(token + rest),
{
    if is_name(token) || is_number(token) {
        lemma_word_documented(token, rest);
    } else if token.len() > 1 && token[0] == '-' && is_number(token.skip(1)) {
        lemma_word_documented(token.skip(1), rest);
        let s = token + rest;
        assert(s.skip(1) =~= token.skip(1) + rest);
        assert(s[0] == '-' && s[1] == token.skip(1)[0]);
    } else {
        let t = choose|t: Seq<char>| plain_text(t) && token == #[trigger] quoted(t);
        lemma_quoted_documented(t, rest);
    }
}

proof fn lemma_regular_documented(s: Seq<char>, tokens: Seq<Seq<char>>)
    requires
        spells(s, tokens),
        is_regular(tokens),
    ensures
        documented(s),
        s.len() > 0 && tokens.len() == 0 ==> plain_char(s[0]),
        s.len() > 0 && tokens.len() > 0 ==> plain_char(s[0]) || s[0] == tokens[0][0],
    decreases s.len() + tokens.len(),
{
    if s.len() > 0 && blank(s[0]) {
        lemma_regular_documented(s.skip(1), tokens);
    } else if tokens.len() > 0 {
        let token = tokens[0];
        let rest = s.skip(token.len() as int);
        let after = tokens.skip(1);
        assert forall|i: int, j: int|
            0 <= i < after.len() && j == i + 1 && j < after.len() implies is_sign(
            #[trigger] after[i],
        ) || is_sign(#[trigger] after[j]) by {
            assert(after[i] == tokens[i + 1] && after[j] == tokens[j + 1]);
        }
        assert(is_regular(after));
        lemma_regular_documented(rest, after);
        assert(s =~= token + rest);
        assert(is_sign(token) || is_operand(token));
        if is_sign(token) {
            lemma_sign_documented(token, rest);
        } else {
            if after.len() > 0 {
                assert(after[0] == tokens[1]);
                assert(is_sign(tokens[0]) || is_sign(tokens[1]));
                assert(plain_char(after[0][0]));
            }
            lemma_operand_documented(token, rest);
        }
        assert(token.len() > 0) by {
            reveal_strlit("\"");
        }
        assert(s[0] == token[0]);
    }
}

/// Plain expressions keep to the documented part of the language.
pub proof fn law_plain_expressions_are_documented(expr: Seq<char>, t: Term)
    requires
        written(expr, t),
    ensures
        documented(expr),
{
    lemma_tokens_regular(t);
    lemma_regular_documented(expr, tokens(t));
}

/// The logical operators are what their names say of truth values, brackets
/// change nothing, and the comparisons are those of the integers.
pub proof fn law_operators(l: Term, r: Term, facts: Facts, id: Id, n: int)
    ensures
        holds(Term::And(Box::new(l), Box::new(r)), facts) <==> holds(l, facts) && holds(r, facts),
        holds(Term::Or(Box::new(l), Box::new(r)), facts) <==> holds(l, facts) || holds(r, facts),
        holds(Term::Not(Box::new(l)), facts) <==> !holds(l, facts),
        holds(Term::Brackets(Box::new(l)), facts) <==> holds(l, facts),
        holds(Term::Truth(true), facts) && !holds(Term::Truth(false), facts),
        holds(Term::Compare(id, Relation::Equal, n), facts) <==> id_value(id, facts) == n,
        holds(Term::Compare(id, Relation::NotEqual, n), facts) <==> id_value(id, facts) != n,
        holds(Term::Compare(id, Relation::Less, n), facts) <==> id_value(id, facts) < n,
        holds(Term::Compare(id, Relation::LessOrEqual, n), facts) <==> id_value(id, facts) <= n,
        holds(Term::Compare(id, Relation::Greater, n), facts) <==> id_value(id, facts) > n,
        holds(Term::Compare(id, Relation::GreaterOrEqual, n), facts) <==> id_value(id, facts) >= n,
        id_value(Id::Uid, facts) == facts.uid,
        id_value(Id::Gid, facts) == facts.gid,
        id_value(Id::Pid, facts) == facts.pid,
{
}

/// The string methods find a text that stands at the start, at the end or
/// anywhere.
pub proof fn law_methods_find_texts(before: Seq<char>, s: Seq<char>, after: Seq<char>)
    ensures
        finds(Method::StartsWith, s + after, s),
        finds(Method::EndsWith, before + s, s),
        finds(Method::Contains, before + s + after, s),
{
    let whole = before + s + after;
    let at = before.len() as int;
    assert(whole.subrange(at, at + s.len()) =~= s);
    assert(s =~= (s + after).subrange(0, s.len() as int));
    assert(s =~= (before + s).subrange(at, at + s.len()));
}

/// What the string methods find stands at the start, at the end or somewhere.
pub proof fn law_found_texts_are_there(host: Seq<char>, s: Seq<char>)
    ensures
        finds(Method::StartsWith, host, s) ==> s.len() <= host.len() && host.take(s.len() as int)
            == s,
        finds(Method::EndsWith, host, s) ==> s.len() <= host.len() && host.skip(
            host.len() - s.len(),
        ) == s,
        finds(Method::Contains, host, s) ==> exists|at: int|
            0 <= at <= host.len() - s.len() && #[trigger] host.subrange(at, at + s.len()) == s,
{
    if finds(Method::StartsWith, host, s) {
        assert(host.take(s.len() as int) =~= s);
    }
    if finds(Method::EndsWith, host, s) {
        assert(host.skip(host.len() - s.len()) =~= s);
    }
}

} // verus!
