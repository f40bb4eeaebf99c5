//! Tokeniser and recursive-descent parser for the surface syntax.

use vstd::prelude::*;

use crate::rewrite::vars_ok;
use crate::term::{LambdaExpr, TermV};
use crate::text::{char_string, push_char};

verus! {

// ---------------------------------------------------------------------------
// Tokeniser
// ---------------------------------------------------------------------------

/// The five characters that form one-character tokens of their own.
pub open spec fn is_special(c: char) -> bool {
    c == '\\' || c == 'λ' || c == '.' || c == '(' || c == ')'
}

/// Whitespace: ends a pending identifier without becoming a token.
pub open spec fn is_space(c: char) -> bool {
    c == ' ' || c == '\t' || c == '\n' || c == '\r'
}

/// The tokens of the characters of `s` from position `i` on, with `buf` the
/// pending identifier characters and `acc` the tokens already emitted. A
/// special character flushes the buffer and stands alone; whitespace
/// flushes the buffer; anything else extends it; the end of input flushes
/// what remains.
pub open spec fn tokenise_from(s: Seq<char>, i: int, buf: Seq<char>, acc: Seq<Seq<char>>) -> Seq<
    Seq<char>,
>
    decreases s.len() - i,
{
    if i < 0 || i >= s.len() {
        if buf.len() == 0 {
            acc
        } else {
            acc.push(buf)
        }
    } else {
        let c = s[i];
        if is_special(c) {
            let flushed = if buf.len() == 0 {
                acc
            } else {
                acc.push(buf)
            };
            tokenise_from(s, i + 1, Seq::empty(), flushed.push(seq![c]))
        } else if is_space(c) {
            let flushed = if buf.len() == 0 {
                acc
            } else {
                acc.push(buf)
            };
            tokenise_from(s, i + 1, Seq::empty(), flushed)
        } else {
            tokenise_from(s, i + 1, buf.push(c), acc)
        }
    }
}

/// The token sequence of a complete source string.
pub open spec fn spec_tokenise(s: Seq<char>) -> Seq<Seq<char>> {
    tokenise_from(s, 0, Seq::empty(), Seq::empty())
}

/// The character sequences of a sequence of owned strings.
pub open spec fn toks_view(ts: Seq<String>) -> Seq<Seq<char>> {
    ts.map_values(|t: String| t@)
}

/// Split a source string into tokens: the special characters `\`, `λ`,
/// `.`, `(`, `)` are one-character tokens, whitespace separates tokens,
/// and every other run of characters is an identifier token. Every string
/// tokenises; there are no lexical errors.
pub fn tokenise(s: &str) -> (r: Vec<String>)
    ensures
        toks_view(r@) == spec_tokenise(s@),
{
    let n = s.unicode_len();
    let mut tokens: Vec<String> = Vec::new();
    let mut buf = String::new();
    let mut i: usize = 0;
    proof {
        assert(toks_view(tokens@) =~= Seq::<Seq<char>>::empty());
    }
    while i < n
        invariant
            i <= n,
            n == s@.len(),
            tokenise_from(s@, i as int, buf@, toks_view(tokens@)) == spec_tokenise(s@),
        decreases n - i,
    {
        let ghost buf0 = buf@;
        let ghost toks0 = toks_view(tokens@);
        let c = s.get_char(i);
        if c == '\\' || c == 'λ' || c == '.' || c == '(' || c == ')' {
            if !buf.as_str().is_empty() {
                let done = buf;
                buf = String::new();
                let ghost old_toks = toks_view(tokens@);
                tokens.push(done);
                proof {
                    assert(toks_view(tokens@) =~= old_toks.push(done@));
                }
            }
            let mut single = String::new();
            push_char(&mut single, c);
            let ghost old_toks = toks_view(tokens@);
            tokens.push(single);
            proof {
                assert(single@ =~= seq![c]);
                assert(toks_view(tokens@) =~= old_toks.push(seq![c]));
                assert(buf@ =~= Seq::<char>::empty());
                assert(tokenise_from(s@, i as int, buf0, toks0) == tokenise_from(
                    s@,
                    i as int + 1,
                    buf@,
                    toks_view(tokens@),
                ));
            }
        } else if c == ' ' || c == '\t' || c == '\n' || c == '\r' {
            if !buf.as_str().is_empty() {
                let done = buf;
                buf = String::new();
                let ghost old_toks = toks_view(tokens@);
                tokens.push(done);
                proof {
                    assert(toks_view(tokens@) =~= old_toks.push(done@));
                }
            }
            proof {
                assert(buf@ =~= Seq::<char>::empty());
                assert(tokenise_from(s@, i as int, buf0, toks0) == tokenise_from(
                    s@,
                    i as int + 1,
                    buf@,
                    toks_view(tokens@),
                ));
            }
        } else {
            push_char(&mut buf, c);
            proof {
                assert(tokenise_from(s@, i as int, buf0, toks0) == tokenise_from(
                    s@,
                    i as int + 1,
                    buf@,
                    toks_view(tokens@),
                ));
            }
        }
        i = i + 1;
    }
    if !buf.as_str().is_empty() {
        let ghost old_toks = toks_view(tokens@);
        let done = buf;
        tokens.push(done);
        proof {
            assert(toks_view(tokens@) =~= old_toks.push(done@));
        }
    }
    tokens
}

// ---------------------------------------------------------------------------
// Built-in constants and numerals
// ---------------------------------------------------------------------------

/// An unbound variable with a one-character name.
pub open spec fn var0(c: char) -> TermV {
    TermV::Variable(seq![c], 0)
}

/// An abstraction with a one-character parameter name and identifier 0.
pub open spec fn lam0(c: char, b: TermV) -> TermV {
    TermV::Lambda(seq![c], 0, Box::new(b))
}

/// An application.
pub open spec fn app0(a: TermV, b: TermV) -> TermV {
    TermV::Call(Box::new(a), Box::new(b))
}

/// The Church boolean `T` = `λx.λy.x`.
pub open spec fn true_term() -> TermV {
    lam0('x', lam0('y', var0('x')))
}

/// The Church boolean `F` = `λx.λy.y`.
pub open spec fn false_term() -> TermV {
    lam0('x', lam0('y', var0('y')))
}

/// The successor `S` = `λw.λy.λx.(y ((w y) x))`.
pub open spec fn succ_term() -> TermV {
    lam0('w', lam0('y', lam0('x', app0(var0('y'), app0(app0(var0('w'), var0('y')), var0('x'))))))
}

/// The zero test `Z` = `λx.(((x F) λx.((x F) T)) F)`.
pub open spec fn zero_test_term() -> TermV {
    lam0(
        'x',
        app0(
            app0(
                app0(var0('x'), false_term()),
                lam0('x', app0(app0(var0('x'), false_term()), true_term())),
            ),
            false_term(),
        ),
    )
}

/// Multiplication `*` = `λx.λy.λz.(x (y z))`.
pub open spec fn mult_term() -> TermV {
    lam0('x', lam0('y', lam0('z', app0(var0('x'), app0(var0('y'), var0('z'))))))
}

/// Conjunction `&` = `λx.λy.((x y) F)`.
pub open spec fn and_term() -> TermV {
    lam0('x', lam0('y', app0(app0(var0('x'), var0('y')), false_term())))
}

/// Disjunction `|` = `λx.λy.((x T) y)`.
pub open spec fn or_term() -> TermV {
    lam0('x', lam0('y', app0(app0(var0('x'), true_term()), var0('y'))))
}

/// Negation `!` = `λx.((x F) T)`.
pub open spec fn not_term() -> TermV {
    lam0('x', app0(app0(var0('x'), false_term()), true_term()))
}

/// The fixed-point combinator `Y` = `λy.(λx.(y (x x)) λx.(y (x x)))`.
pub open spec fn fix_term() -> TermV {
    lam0(
        'y',
        app0(
            lam0('x', app0(var0('y'), app0(var0('x'), var0('x')))),
            lam0('x', app0(var0('y'), app0(var0('x'), var0('x')))),
        ),
    )
}

/// A decimal digit.
pub open spec fn is_digit(c: char) -> bool {
    '0' as int <= c as int && c as int <= '9' as int
}

/// A non-empty token made of decimal digits alone.
pub open spec fn all_digits(tok: Seq<char>) -> bool {
    tok.len() > 0 && forall|j: int| 0 <= j < tok.len() ==> is_digit(#[trigger] tok[j])
}

/// The value of a decimal digit string.
pub open spec fn digits_val(tok: Seq<char>) -> nat
    decreases tok.len(),
{
    if tok.len() == 0 {
        0
    } else {
        (digits_val(tok.drop_last()) * 10 + (tok.last() as int - '0' as int)) as nat
    }
}

/// The body of the Church numeral for `n`: `s` applied `n` times around `z`.
pub open spec fn church_body(n: nat) -> TermV
    decreases n,
{
    if n == 0 {
        var0('z')
    } else {
        app0(var0('s'), church_body((n - 1) as nat))
    }
}

/// The Church numeral for `n`: `λs.λz.(s (s … (s z)))`.
pub open spec fn church(n: nat) -> TermV {
    lam0('s', lam0('z', church_body(n)))
}

/// What a single non-structural token denotes: one of the nine reserved
/// constant identifiers expands to its fixed closed term, a token of
/// digits whose value fits a `u64` expands to its Church numeral, and any
/// other token is a free variable of that name with identifier 0.
pub open spec fn atom_term(tok: Seq<char>) -> TermV {
    if tok == seq!['T'] {
        true_term()
    } else if tok == seq!['F'] {
        false_term()
    } else if tok == seq!['S'] {
        succ_term()
    } else if tok == seq!['Z'] {
        zero_test_term()
    } else if tok == seq!['*'] {
        mult_term()
    } else if tok == seq!['&'] {
        and_term()
    } else if tok == seq!['|'] {
        or_term()
    } else if tok == seq!['!'] {
        not_term()
    } else if tok == seq!['Y'] {
        fix_term()
    } else if all_digits(tok) && digits_val(tok) <= u64::MAX {
        church(digits_val(tok))
    } else {
        TermV::Variable(tok, 0)
    }
}

// ---------------------------------------------------------------------------
// Parser specification
// ---------------------------------------------------------------------------

/// The three ways a parse can fail. [`err_message_view`] gives the message
/// each one carries at the public boundary.
#[derive(Clone, Copy, PartialEq, Eq, Debug, Structural)]
pub enum ParseErr {
    /// A lambda marker whose parameter list never reaches a `.`.
    ExpectedDot,
    /// A `.` with no preceding lambda marker.
    UnexpectedDot,
    /// A `)` with no open group. A pending `(` intercepts exactly this
    /// failure and turns its partial term into the group's value.
    UnexpectedClose,
}

/// The outcome of a parse: a completed term, or a failure carrying the
/// partial term built before the failure point.
pub enum ParsedV {
    Done(TermV),
    Failed(ParseErr, TermV),
}

/// The index of the first `.` token at or after `pos`, or the token count
/// when there is none.
pub open spec fn dot_from(toks: Seq<Seq<char>>, pos: int) -> int
    decreases toks.len() - pos,
{
    if pos < 0 || pos >= toks.len() {
        toks.len() as int
    } else if toks[pos] == seq!['.'] {
        pos
    } else {
        dot_from(toks, pos + 1)
    }
}

/// `body` wrapped in one abstraction per parameter name, the first
/// parameter outermost and the last innermost, each with identifier 0.
pub open spec fn wrap_lambdas(params: Seq<Seq<char>>, body: TermV) -> TermV
    decreases params.len(),
{
    if params.len() == 0 {
        body
    } else {
        TermV::Lambda(params[0], 0, Box::new(wrap_lambdas(params.drop_first(), body)))
    }
}

/// Fold the next atom into what is parsed so far: the first atom stands
/// alone; every later one forms a left-associative application.
pub open spec fn join_term(acc: TermV, next: TermV) -> TermV {
    if acc == TermV::Nothing {
        next
    } else {
        TermV::Call(Box::new(acc), Box::new(next))
    }
}

/// `x` forced into the range `[lo, hi]`. The parser's recursion resumes at
/// positions that are in range anyway; the bound keeps the definition
/// visibly well-founded.
pub open spec fn bounded_pos(x: int, lo: int, hi: int) -> int {
    if x < lo {
        lo
    } else if x > hi {
        hi
    } else {
        x
    }
}

/// The parse of `toks` from position `pos` with `acc` the expression built
/// so far: the outcome and the position after the consumed tokens.
///
/// One token is taken per step: a lambda marker collects parameter names up
/// to the next `.` and parses its body as the whole remaining expression; a
/// `(` parses a sub-expression and accepts its value when the sub-parse
/// fails with `UnexpectedClose`, the `)` that raised it closing the group;
/// a bare `.` or `)` fails; every other token is an atom
/// ([`atom_term`]) folded onto `acc`. The end of the tokens completes the
/// parse with `acc`.
pub open spec fn spec_parse(toks: Seq<Seq<char>>, pos: int, acc: TermV) -> (ParsedV, int)
    decreases toks.len() - pos,
{
    let len = toks.len() as int;
    if pos < 0 || pos >= len {
        (ParsedV::Done(acc), pos)
    } else {
        let tok = toks[pos];
        if tok == seq!['\\'] || tok == seq!['λ'] {
            let d = bounded_pos(dot_from(toks, pos + 1), pos + 1, len);
            if d >= len {
                (ParsedV::Failed(ParseErr::ExpectedDot, acc), len)
            } else {
                let params = toks.subrange(pos + 1, d);
                let sub = spec_parse(toks, d + 1, TermV::Nothing);
                let end1 = bounded_pos(sub.1, d + 1, len);
                match sub.0 {
                    ParsedV::Done(se) => spec_parse(
                        toks,
                        end1,
                        join_term(acc, wrap_lambdas(params, se)),
                    ),
                    ParsedV::Failed(e, r) => (
                        ParsedV::Failed(e, wrap_lambdas(params, r)),
                        end1,
                    ),
                }
            }
        } else if tok == seq!['.'] {
            (ParsedV::Failed(ParseErr::UnexpectedDot, acc), pos + 1)
        } else if tok == seq!['('] {
            let sub = spec_parse(toks, pos + 1, TermV::Nothing);
            let end1 = bounded_pos(sub.1, pos + 1, len);
            match sub.0 {
                ParsedV::Done(x) => spec_parse(toks, end1, join_term(acc, x)),
                ParsedV::Failed(e, r) => {
                    if e == ParseErr::UnexpectedClose {
                        spec_parse(toks, end1, join_term(acc, r))
                    } else {
                        (ParsedV::Failed(e, r), end1)
                    }
                },
            }
        } else if tok == seq![')'] {
            (ParsedV::Failed(ParseErr::UnexpectedClose, acc), pos + 1)
        } else {
            spec_parse(toks, pos + 1, join_term(acc, atom_term(tok)))
        }
    }
}

/// Church numeral bodies hold variables with identifier 0 only.
proof fn lemma_church_zero_ids(n: nat)
    ensures
        vars_ok(church_body(n), Map::<Seq<char>, int>::empty()),
    decreases n,
{
    reveal_with_fuel(vars_ok, 4);
    if n > 0 {
        lemma_church_zero_ids((n - 1) as nat);
    }
}

/// Whatever a single token denotes, its variables all carry identifier 0.
proof fn lemma_atom_zero_ids(tok: Seq<char>)
    ensures
        vars_ok(atom_term(tok), Map::<Seq<char>, int>::empty()),
{
    reveal_with_fuel(vars_ok, 12);
    let m = Map::<Seq<char>, int>::empty();
    assert(vars_ok(true_term(), m));
    assert(vars_ok(false_term(), m));
    assert(vars_ok(succ_term(), m));
    assert(vars_ok(zero_test_term(), m));
    assert(vars_ok(mult_term(), m));
    assert(vars_ok(and_term(), m));
    assert(vars_ok(or_term(), m));
    assert(vars_ok(not_term(), m));
    assert(vars_ok(fix_term(), m));
    if all_digits(tok) && digits_val(tok) <= u64::MAX {
        lemma_church_zero_ids(digits_val(tok));
    }
}

/// Wrapping a body in parameter abstractions adds no variable occurrence.
proof fn lemma_wrap_zero_ids(params: Seq<Seq<char>>, body: TermV)
    requires
        vars_ok(body, Map::<Seq<char>, int>::empty()),
    ensures
        vars_ok(wrap_lambdas(params, body), Map::<Seq<char>, int>::empty()),
    decreases params.len(),
{
    if params.len() > 0 {
        lemma_wrap_zero_ids(params.drop_first(), body);
    }
}

/// Whatever the parser builds — the completed term and the partial term of
/// a failure alike — every variable in it carries identifier 0, as long as
/// the accumulator's variables do. This is the shape on which
/// [`crate::rewrite::lemma_alpha_rename_binds`] and
/// [`crate::rewrite::lemma_alpha_ids_distinct`] speak: every parsed
/// program α-renames to pairwise-distinct binder identifiers with every
/// variable bound to its innermost binder.
pub proof fn lemma_parse_zero_ids(toks: Seq<Seq<char>>, pos: int, acc: TermV)
    requires
        vars_ok(acc, Map::<Seq<char>, int>::empty()),
    ensures
        ({
            let out = spec_parse(toks, pos, acc).0;
            match out {
                ParsedV::Done(t) => vars_ok(t, Map::<Seq<char>, int>::empty()),
                ParsedV::Failed(_, t) => vars_ok(t, Map::<Seq<char>, int>::empty()),
            }
        }),
    decreases toks.len() - pos,
{
    let m = Map::<Seq<char>, int>::empty();
    let len = toks.len() as int;
    if 0 <= pos < len {
        let tok = toks[pos];
        if tok == seq!['\\'] || tok == seq!['λ'] {
            let d = bounded_pos(dot_from(toks, pos + 1), pos + 1, len);
            if d < len {
                let params = toks.subrange(pos + 1, d);
                let sub = spec_parse(toks, d + 1, TermV::Nothing);
                let end1 = bounded_pos(sub.1, d + 1, len);
                lemma_parse_zero_ids(toks, d + 1, TermV::Nothing);
                match sub.0 {
                    ParsedV::Done(se) => {
                        lemma_wrap_zero_ids(params, se);
                        lemma_parse_zero_ids(toks, end1, join_term(acc, wrap_lambdas(params, se)));
                    },
                    ParsedV::Failed(_, r) => {
                        lemma_wrap_zero_ids(params, r);
                    },
                }
            }
        } else if tok == seq!['.'] {
        } else if tok == seq!['('] {
            let sub = spec_parse(toks, pos + 1, TermV::Nothing);
            let end1 = bounded_pos(sub.1, pos + 1, len);
            lemma_parse_zero_ids(toks, pos + 1, TermV::Nothing);
            match sub.0 {
                ParsedV::Done(x) => {
                    lemma_parse_zero_ids(toks, end1, join_term(acc, x));
                },
                ParsedV::Failed(e, r) => {
                    if e == ParseErr::UnexpectedClose {
                        lemma_parse_zero_ids(toks, end1, join_term(acc, r));
                    }
                },
            }
        } else if tok == seq![')'] {
        } else {
            lemma_atom_zero_ids(tok);
            lemma_parse_zero_ids(toks, pos + 1, join_term(acc, atom_term(tok)));
        }
    }
}

/// The message each failure carries at the public boundary.
pub open spec fn err_message_view(e: ParseErr) -> Seq<char> {
    match e {
        ParseErr::ExpectedDot => "expected `.`, found `end of file`"@,
        ParseErr::UnexpectedDot => "unexpected `.`"@,
        ParseErr::UnexpectedClose => "unexpected `)`"@,
    }
}

// ---------------------------------------------------------------------------
// Executable atom construction
// ---------------------------------------------------------------------------

fn mk_var(c: char) -> (r: LambdaExpr)
    ensures
        r@ == var0(c),
{
    LambdaExpr::Variable(char_string(c), 0)
}

fn mk_lam(c: char, b: LambdaExpr) -> (r: LambdaExpr)
    ensures
        r@ == lam0(c, b@),
{
    LambdaExpr::Lambda(char_string(c), 0, Box::new(b))
}

fn mk_app(a: LambdaExpr, b: LambdaExpr) -> (r: LambdaExpr)
    ensures
        r@ == app0(a@, b@),
{
    LambdaExpr::Call(Box::new(a), Box::new(b))
}

/// Whether the token is the single character `c`.
fn is_single(t: &String, c: char) -> (r: bool)
    ensures
        r == (t@ == seq![c]),
{
    let s = t.as_str();
    if s.unicode_len() == 1 {
        let c0 = s.get_char(0);
        proof {
            if c0 == c {
                assert(t@ =~= seq![c]);
            } else {
                assert(seq![c][0] == c);
            }
        }
        c0 == c
    } else {
        proof {
            assert(seq![c].len() == 1);
        }
        false
    }
}

/// The value of a prefix of a digit string never exceeds the value of a
/// longer prefix.
proof fn lemma_digits_prefix_le(s: Seq<char>, i: int, j: int)
    requires
        0 <= i <= j <= s.len(),
        forall|k: int| i <= k < j ==> is_digit(#[trigger] s[k]),
    ensures
        digits_val(s.subrange(0, i)) <= digits_val(s.subrange(0, j)),
    decreases j - i,
{
    if i < j {
        lemma_digits_prefix_le(s, i, j - 1);
        assert(s.subrange(0, j).drop_last() =~= s.subrange(0, j - 1));
        assert(is_digit(s[j - 1]));
        assert(digits_val(s.subrange(0, j)) == digits_val(s.subrange(0, j - 1)) * 10 + (s[j
            - 1] as int - '0' as int));
    }
}

/// The numeral a token denotes: its decimal value, when the token is all
/// digits and the value fits a `u64`.
fn numeral_value(t: &String) -> (r: Option<u64>)
    ensures
        match r {
            Some(v) => all_digits(t@) && digits_val(t@) == v as nat,
            None => !(all_digits(t@) && digits_val(t@) <= u64::MAX),
        },
{
    let s = t.as_str();
    let n = s.unicode_len();
    if n == 0 {
        return None;
    }
    let mut acc: u64 = 0;
    let mut i: usize = 0;
    proof {
        assert(t@.subrange(0, 0) =~= Seq::<char>::empty());
    }
    while i < n
        invariant
            i <= n,
            n == t@.len(),
            s@ == t@,
            acc as nat == digits_val(t@.subrange(0, i as int)),
            forall|j: int| 0 <= j < i ==> is_digit(#[trigger] t@[j]),
        decreases n - i,
    {
        let c = s.get_char(i);
        let cu = c as u32;
        if cu < '0' as u32 || cu > '9' as u32 {
            proof {
                assert(!is_digit(t@[i as int]));
            }
            return None;
        }
        let d = (cu - '0' as u32) as u64;
        let ghost pre = t@.subrange(0, i as int);
        let ghost cur = t@.subrange(0, i as int + 1);
        proof {
            assert(cur.drop_last() =~= pre);
            assert(digits_val(cur) == digits_val(pre) * 10 + d);
        }
        let step = match acc.checked_mul(10) {
            Some(x) => x.checked_add(d),
            None => None,
        };
        match step {
            Some(y) => {
                acc = y;
            },
            None => {
                proof {
                    assert(digits_val(cur) > u64::MAX);
                    if all_digits(t@) {
                        lemma_digits_prefix_le(t@, i as int + 1, n as int);
                        assert(t@.subrange(0, n as int) =~= t@);
                        assert(digits_val(t@) > u64::MAX);
                    }
                }
                return None;
            },
        }
        i = i + 1;
    }
    proof {
        assert(t@.subrange(0, n as int) =~= t@);
    }
    Some(acc)
}

/// The Church numeral for `n` as an executable term.
fn church_expr(n: u64) -> (r: LambdaExpr)
    ensures
        r@ == church(n as nat),
{
    let mut body = mk_var('z');
    let mut i: u64 = 0;
    while i < n
        invariant
            i <= n,
            body@ == church_body(i as nat),
        decreases n - i,
    {
        body = mk_app(mk_var('s'), body);
        i = i + 1;
    }
    mk_lam('s', mk_lam('z', body))
}

/// The term a single non-structural token denotes, as [`atom_term`]
/// describes: reserved constant, Church numeral, or free variable.
fn atom_expr(tok: &String) -> (r: LambdaExpr)
    ensures
        r@ == atom_term(tok@),
{
    if is_single(tok, 'T') {
        mk_lam('x', mk_lam('y', mk_var('x')))
    } else if is_single(tok, 'F') {
        mk_lam('x', mk_lam('y', mk_var('y')))
    } else if is_single(tok, 'S') {
        mk_lam(
            'w',
            mk_lam(
                'y',
                mk_lam(
                    'x',
                    mk_app(mk_var('y'), mk_app(mk_app(mk_var('w'), mk_var('y')), mk_var('x'))),
                ),
            ),
        )
    } else if is_single(tok, 'Z') {
        let f1 = mk_lam('x', mk_lam('y', mk_var('y')));
        let f2 = mk_lam('x', mk_lam('y', mk_var('y')));
        let f3 = mk_lam('x', mk_lam('y', mk_var('y')));
        let t1 = mk_lam('x', mk_lam('y', mk_var('x')));
        let inner = mk_lam('x', mk_app(mk_app(mk_var('x'), f2), t1));
        mk_lam('x', mk_app(mk_app(mk_app(mk_var('x'), f1), inner), f3))
    } else if is_single(tok, '*') {
        mk_lam('x', mk_lam('y', mk_lam('z', mk_app(mk_var('x'), mk_app(mk_var('y'), mk_var('z'))))))
    } else if is_single(tok, '&') {
        let f1 = mk_lam('x', mk_lam('y', mk_var('y')));
        mk_lam('x', mk_lam('y', mk_app(mk_app(mk_var('x'), mk_var('y')), f1)))
    } else if is_single(tok, '|') {
        let t1 = mk_lam('x', mk_lam('y', mk_var('x')));
        mk_lam('x', mk_lam('y', mk_app(mk_app(mk_var('x'), t1), mk_var('y'))))
    } else if is_single(tok, '!') {
        let f1 = mk_lam('x', mk_lam('y', mk_var('y')));
        let t1 = mk_lam('x', mk_lam('y', mk_var('x')));
        mk_lam('x', mk_app(mk_app(mk_var('x'), f1), t1))
    } else if is_single(tok, 'Y') {
        let half1 = mk_lam('x', mk_app(mk_var('y'), mk_app(mk_var('x'), mk_var('x'))));
        let half2 = mk_lam('x', mk_app(mk_var('y'), mk_app(mk_var('x'), mk_var('x'))));
        mk_lam('y', mk_app(half1, half2))
    } else {
        match numeral_value(tok) {
            Some(v) => church_expr(v),
            None => LambdaExpr::Variable(tok.clone(), 0),
        }
    }
}

// ---------------------------------------------------------------------------
// Executable parser
// ---------------------------------------------------------------------------

/// The first `.` token at or after `from`, as [`dot_from`] gives it.
#[verifier::loop_isolation(false)]
fn find_dot(toks: &Vec<String>, from: usize) -> (r: usize)
    requires
        from <= toks@.len(),
    ensures
        r as int == dot_from(toks_view(toks@), from as int),
        from <= r <= toks@.len(),
{
    let ghost tv = toks_view(toks@);
    let n = toks.len();
    let mut d = from;
    while d < n
        invariant
            from <= d <= n,
            dot_from(tv, d as int) == dot_from(tv, from as int),
        decreases n - d,
    {
        if is_single(&toks[d], '.') {
            proof {
                assert(tv[d as int] == toks@[d as int]@);
            }
            return d;
        }
        proof {
            assert(tv[d as int] == toks@[d as int]@);
            assert(dot_from(tv, d as int) == dot_from(tv, d as int + 1));
        }
        d = d + 1;
    }
    d
}

/// `body` wrapped in one abstraction per parameter token of `toks[lo..hi]`,
/// the first outermost, as [`wrap_lambdas`] gives it.
#[verifier::loop_isolation(false)]
fn wrap_params(toks: &Vec<String>, lo: usize, hi: usize, body: LambdaExpr) -> (r: LambdaExpr)
    requires
        lo <= hi <= toks@.len(),
    ensures
        r@ == wrap_lambdas(toks_view(toks@).subrange(lo as int, hi as int), body@),
{
    let ghost tv = toks_view(toks@);
    let ghost bv = body@;
    let mut cur = body;
    let mut j = hi;
    proof {
        assert(tv.subrange(hi as int, hi as int) =~= Seq::<Seq<char>>::empty());
    }
    while j > lo
        invariant
            lo <= j <= hi,
            cur@ == wrap_lambdas(tv.subrange(j as int, hi as int), bv),
        decreases j,
    {
        j = j - 1;
        cur = LambdaExpr::Lambda(toks[j].clone(), 0, Box::new(cur));
        proof {
            assert(tv.subrange(j as int, hi as int).drop_first() =~= tv.subrange(
                j as int + 1,
                hi as int,
            ));
            assert(tv.subrange(j as int, hi as int)[0] == toks@[j as int]@);
        }
    }
    cur
}

/// Fold the next atom into the expression built so far, as [`join_term`]
/// gives it.
fn join_app(acc: LambdaExpr, next: LambdaExpr) -> (r: LambdaExpr)
    ensures
        r@ == join_term(acc@, next@),
{
    match acc {
        LambdaExpr::Nothing => next,
        other => LambdaExpr::Call(Box::new(other), Box::new(next)),
    }
}

/// The parse of `toks` from `start` with an empty accumulator, mirroring
/// [`spec_parse`]: the outcome and the position after the consumed tokens.
#[verifier::loop_isolation(false)]
fn parse_at(toks: &Vec<String>, start: usize) -> (r: (
    Result<LambdaExpr, (ParseErr, LambdaExpr)>,
    usize,
))
    requires
        start <= toks@.len(),
    ensures
        ({
            let pr = spec_parse(toks_view(toks@), start as int, TermV::Nothing);
            &&& r.1 as int == pr.1
            &&& start <= r.1 <= toks@.len()
            &&& match r.0 {
                Ok(t) => pr.0 == ParsedV::Done(t@),
                Err(ep) => pr.0 == ParsedV::Failed(ep.0, ep.1@),
            }
        }),
    decreases toks@.len() - start,
{
    let ghost tv = toks_view(toks@);
    let n = toks.len();
    let mut pos = start;
    let mut res = LambdaExpr::Nothing;
    proof {
        assert(res@ == TermV::Nothing);
    }
    loop
        invariant
            start <= pos <= n,
            spec_parse(tv, pos as int, res@) == spec_parse(tv, start as int, TermV::Nothing),
        decreases n - pos,
    {
        if pos >= n {
            return (Ok(res), pos);
        }
        let ghost pos0 = pos as int;
        let ghost res0 = res@;
        let tok = &toks[pos];
        proof {
            assert(tv[pos0] == toks@[pos0]@);
        }
        if is_single(tok, '\\') || is_single(tok, 'λ') {
            let d = find_dot(toks, pos + 1);
            if d >= n {
                proof {
                    assert(spec_parse(tv, pos0, res0) == (
                        ParsedV::Failed(ParseErr::ExpectedDot, res0),
                        n as int,
                    ));
                }
                return (Err((ParseErr::ExpectedDot, res)), n);
            }
            let (subres, subend) = parse_at(toks, d + 1);
            match subres {
                Ok(se) => {
                    let next = wrap_params(toks, pos + 1, d, se);
                    res = join_app(res, next);
                    pos = subend;
                    proof {
                        assert(spec_parse(tv, pos0, res0) == spec_parse(tv, pos as int, res@));
                    }
                },
                Err((e, pt)) => {
                    let wrapped = wrap_params(toks, pos + 1, d, pt);
                    proof {
                        assert(spec_parse(tv, pos0, res0) == (
                            ParsedV::Failed(e, wrapped@),
                            subend as int,
                        ));
                    }
                    return (Err((e, wrapped)), subend);
                },
            }
        } else if is_single(tok, '.') {
            return (Err((ParseErr::UnexpectedDot, res)), pos + 1);
        } else if is_single(tok, '(') {
            let (subres, subend) = parse_at(toks, pos + 1);
            match subres {
                Ok(x) => {
                    res = join_app(res, x);
                    pos = subend;
                    proof {
                        assert(spec_parse(tv, pos0, res0) == spec_parse(tv, pos as int, res@));
                    }
                },
                Err((e, pt)) => {
                    if e == ParseErr::UnexpectedClose {
                        res = join_app(res, pt);
                        pos = subend;
                        proof {
                            assert(spec_parse(tv, pos0, res0) == spec_parse(tv, pos as int, res@));
                        }
                    } else {
                        return (Err((e, pt)), subend);
                    }
                },
            }
        } else if is_single(tok, ')') {
            return (Err((ParseErr::UnexpectedClose, res)), pos + 1);
        } else {
            let next = atom_expr(tok);
            res = join_app(res, next);
            pos = pos + 1;
            proof {
                assert(spec_parse(tv, pos0, res0) == spec_parse(tv, pos as int, res@));
            }
        }
    }
}

/// The message of a parse failure, as [`err_message_view`] gives it.
fn err_message(e: ParseErr) -> (r: String)
    ensures
        r@ == err_message_view(e),
{
    match e {
        ParseErr::ExpectedDot => "expected `.`, found `end of file`".to_owned(),
        ParseErr::UnexpectedDot => "unexpected `.`".to_owned(),
        ParseErr::UnexpectedClose => "unexpected `)`".to_owned(),
    }
}

/// Parse a token sequence into a term.
///
/// The grammar: an expression is a run of atoms folded into
/// left-associative applications; an atom is a lambda (`\` or `λ`, one or
/// more parameter names, `.`, body expression), a parenthesised group, a
/// reserved constant, a decimal numeral, or an identifier. An empty token
/// sequence parses to the empty term.
///
/// On failure the result carries the message of the failure and the
/// partial term built before the failure point, exactly as
/// [`spec_parse`] and [`err_message_view`] describe.
pub fn parse(tokens: &Vec<String>) -> (r: Result<LambdaExpr, (String, LambdaExpr)>)
    ensures
        ({
            let pr = spec_parse(toks_view(tokens@), 0, TermV::Nothing).0;
            match r {
                Ok(t) => pr == ParsedV::Done(t@),
                Err(ep) => pr matches ParsedV::Failed(e, rv) && rv == ep.1@ && ep.0@
                    == err_message_view(e),
            }
        }),
{
    let (subres, _) = parse_at(tokens, 0);
    match subres {
        Ok(t) => Ok(t),
        Err((e, pt)) => Err((err_message(e), pt)),
    }
}

} // verus!
