//! The round-trip law: the display form of a term parses back to that term.

use vstd::prelude::*;

use crate::parse::{
    atom_term, dot_from, is_space, is_special, join_term, spec_parse, spec_tokenise, tokenise_from,
    wrap_lambdas, ParseErr, ParsedV,
};
use crate::print::display_view;
use crate::term::{term_size, TermV};

verus! {

/// A name that survives the trip through the printer and the parser: it is
/// not empty, none of its characters is a token separator, and the parser
/// reads it back as a plain variable — it is neither a reserved constant
/// nor a numeral.
pub open spec fn valid_name(nm: Seq<char>) -> bool {
    &&& nm.len() > 0
    &&& forall|j: int| 0 <= j < nm.len() ==> !is_special(#[trigger] nm[j]) && !is_space(nm[j])
    &&& atom_term(nm) == TermV::Variable(nm, 0)
}

/// A term whose display form holds everything the term is: no `Empty`
/// anywhere, every name valid, and every identifier 0 — the printer drops
/// identifiers, and the parser builds terms with identifier 0.
pub open spec fn printable(t: TermV) -> bool
    decreases t,
{
    match t {
        TermV::Nothing => false,
        TermV::Variable(nm, id) => valid_name(nm) && id == 0,
        TermV::Call(a, b) => printable(*a) && printable(*b),
        TermV::Lambda(nm, id, e) => valid_name(nm) && id == 0 && printable(*e),
    }
}

/// The token sequence of the display form of a term: a variable is one
/// token; an application is its children between `(` and `)`; an
/// abstraction is `(`, `λ`, the parameter name, `.`, the body, `)`.
pub open spec fn print_tokens(t: TermV) -> Seq<Seq<char>>
    decreases t,
{
    match t {
        TermV::Nothing => Seq::empty(),
        TermV::Variable(nm, _) => seq![nm],
        TermV::Call(a, b) => seq![seq!['(']] + print_tokens(*a) + print_tokens(*b) + seq![
            seq![')'],
        ],
        TermV::Lambda(nm, _, e) => seq![seq!['('], seq!['λ'], nm, seq!['.']] + print_tokens(*e)
            + seq![seq![')']],
    }
}

/// Parsing the printed tokens of `t` from any accumulator consumes exactly
/// those tokens and folds `t` onto the accumulator.
proof fn lemma_parse_print_tokens(t: TermV, toks: Seq<Seq<char>>, pos: int, acc: TermV)
    requires
        printable(t),
        0 <= pos,
        pos + print_tokens(t).len() <= toks.len(),
        toks.subrange(pos, pos + print_tokens(t).len()) == print_tokens(t),
    ensures
        spec_parse(toks, pos, acc) == spec_parse(
            toks,
            pos + print_tokens(t).len(),
            join_term(acc, t),
        ),
    decreases term_size(t),
{
    let pt = print_tokens(t);
    let n = pt.len() as int;
    assert(forall|k: int| 0 <= k < n ==> toks[pos + k] == #[trigger] pt[k]) by {
        assert(forall|k: int| 0 <= k < n ==> toks.subrange(pos, pos + n)[k] == #[trigger] pt[k]);
    }
    match t {
        TermV::Nothing => {},
        TermV::Variable(nm, _) => {
            assert(toks[pos] == nm);
            assert(!(nm == seq!['\\']) && !(nm == seq!['λ']) && !(nm == seq!['.']) && !(nm
                == seq!['(']) && !(nm == seq![')'])) by {
                assert(!is_special(nm[0]));
            }
            assert(spec_parse(toks, pos, acc) == spec_parse(
                toks,
                pos + 1,
                join_term(acc, atom_term(nm)),
            ));
        },
        TermV::Call(a, b) => {
            let pa = print_tokens(*a);
            let pb = print_tokens(*b);
            let na = pa.len() as int;
            let nb = pb.len() as int;
            assert(pt[0] == seq!['(']);
            assert(pt[n - 1] == seq![')']);
            assert(forall|k: int| 0 <= k < na ==> pt[1 + k] == #[trigger] pa[k]);
            assert(forall|k: int| 0 <= k < nb ==> pt[1 + na + k] == #[trigger] pb[k]);
            assert(toks.subrange(pos + 1, pos + 1 + na) =~= pa);
            assert(toks.subrange(pos + 1 + na, pos + 1 + na + nb) =~= pb);
            lemma_parse_print_tokens(*a, toks, pos + 1, TermV::Nothing);
            lemma_parse_print_tokens(*b, toks, pos + 1 + na, *a);
            // After the children, the closing `)` fails with
            // `UnexpectedClose`, and the pending `(` turns the partial term
            // into the group's value.
            assert(toks[pos + 1 + na + nb] == seq![')']);
            assert(join_term(TermV::Nothing, *a) == *a);
            let ab = join_term(*a, *b);
            assert(!printable(TermV::Nothing));
            assert(*a != TermV::Nothing);
            assert(ab == TermV::Call(Box::new(*a), Box::new(*b)));
            assert(spec_parse(toks, pos + 1 + na + nb, ab) == (
                ParsedV::Failed(ParseErr::UnexpectedClose, ab),
                pos + 1 + na + nb + 1,
            ));
            assert(spec_parse(toks, pos + 1, TermV::Nothing) == (
                ParsedV::Failed(ParseErr::UnexpectedClose, ab),
                pos + n,
            ));
            assert(ab == t);
            assert(spec_parse(toks, pos, acc) == spec_parse(toks, pos + n, join_term(acc, t)));
        },
        TermV::Lambda(nm, _, e) => {
            let pe = print_tokens(*e);
            let ne = pe.len() as int;
            assert(pt[0] == seq!['(']);
            assert(pt[1] == seq!['λ']);
            assert(pt[2] == nm);
            assert(pt[3] == seq!['.']);
            assert(pt[n - 1] == seq![')']);
            assert(forall|k: int| 0 <= k < ne ==> pt[4 + k] == #[trigger] pe[k]);
            assert(toks.subrange(pos + 4, pos + 4 + ne) =~= pe);
            // The parameter list runs to the `.` right after the name.
            assert(!(nm == seq!['.'])) by {
                assert(!is_special(nm[0]));
            }
            assert(dot_from(toks, pos + 3) == pos + 3);
            assert(dot_from(toks, pos + 2) == pos + 3);
            assert(toks.subrange(pos + 2, pos + 3) =~= seq![nm]);
            lemma_parse_print_tokens(*e, toks, pos + 4, TermV::Nothing);
            assert(join_term(TermV::Nothing, *e) == *e);
            assert(toks[pos + 4 + ne] == seq![')']);
            // The body parse runs into the closing `)`; the lambda handler
            // wraps the partial term, and the pending `(` accepts it.
            assert(wrap_lambdas(Seq::<Seq<char>>::empty(), *e) == *e);
            assert(seq![nm].drop_first() =~= Seq::<Seq<char>>::empty());
            assert(wrap_lambdas(seq![nm], *e) == TermV::Lambda(nm, 0, Box::new(*e)));
            assert(spec_parse(toks, pos + 4, TermV::Nothing) == (
                ParsedV::Failed(ParseErr::UnexpectedClose, *e),
                pos + n,
            ));
            assert(spec_parse(toks, pos + 1, TermV::Nothing) == (
                ParsedV::Failed(ParseErr::UnexpectedClose, t),
                pos + n,
            ));
            assert(spec_parse(toks, pos, acc) == spec_parse(toks, pos + n, join_term(acc, t)));
        },
    }
}

/// A position at which a pending identifier ends: the end of the input, a
/// special character, or whitespace.
spec fn token_boundary(s: Seq<char>, j: int) -> bool {
    j >= s.len() || is_special(s[j]) || is_space(s[j])
}

/// At a token boundary, a pending identifier may be flushed eagerly: the
/// tokens that follow are the same.
proof fn lemma_flush_eq(s: Seq<char>, j: int, nm: Seq<char>, acc: Seq<Seq<char>>)
    requires
        0 <= j,
        nm.len() > 0,
        token_boundary(s, j),
    ensures
        tokenise_from(s, j, nm, acc) == tokenise_from(s, j, Seq::empty(), acc.push(nm)),
{
}

/// Scanning a run of identifier characters only extends the pending
/// buffer.
proof fn lemma_ident_run(s: Seq<char>, i: int, k: int, buf: Seq<char>, acc: Seq<Seq<char>>)
    requires
        0 <= i,
        0 <= k,
        i + k <= s.len(),
        forall|j: int| i <= j < i + k ==> !is_special(#[trigger] s[j]) && !is_space(s[j]),
    ensures
        tokenise_from(s, i, buf, acc) == tokenise_from(s, i + k, buf + s.subrange(i, i + k), acc),
    decreases k,
{
    if k == 0 {
        assert(buf + s.subrange(i, i) =~= buf);
    } else {
        lemma_ident_run(s, i + 1, k - 1, buf.push(s[i]), acc);
        assert(buf.push(s[i]) + s.subrange(i + 1, i + k) =~= buf + s.subrange(i, i + k));
    }
}

/// Tokenising the display form of `t` from an empty buffer, with a token
/// boundary right after it, emits exactly the printed tokens of `t`.
proof fn lemma_tokenise_display(t: TermV, s: Seq<char>, i: int, acc: Seq<Seq<char>>)
    requires
        printable(t),
        0 <= i,
        i + display_view(t).len() <= s.len(),
        s.subrange(i, i + display_view(t).len()) == display_view(t),
        token_boundary(s, i + display_view(t).len()),
    ensures
        tokenise_from(s, i, Seq::empty(), acc) == tokenise_from(
            s,
            i + display_view(t).len(),
            Seq::empty(),
            acc + print_tokens(t),
        ),
    decreases term_size(t),
{
    let d = display_view(t);
    let len = d.len() as int;
    assert(forall|k: int| 0 <= k < len ==> s[i + k] == #[trigger] d[k]) by {
        assert(forall|k: int| 0 <= k < len ==> s.subrange(i, i + len)[k] == #[trigger] d[k]);
    }
    match t {
        TermV::Nothing => {},
        TermV::Variable(nm, _) => {
            assert(s.subrange(i, i + len) =~= nm);
            assert(forall|j: int| i <= j < i + len ==> !is_special(#[trigger] s[j]) && !is_space(
                s[j],
            )) by {
                assert(forall|j: int| i <= j < i + len ==> s[j] == nm[j - i]);
            }
            lemma_ident_run(s, i, len, Seq::empty(), acc);
            assert(Seq::<char>::empty() + s.subrange(i, i + len) =~= nm);
            lemma_flush_eq(s, i + len, nm, acc);
            assert(acc.push(nm) =~= acc + print_tokens(t));
        },
        TermV::Call(a, b) => {
            let da = display_view(*a);
            let db = display_view(*b);
            let la = da.len() as int;
            let lb = db.len() as int;
            assert(d[0] == '(');
            assert(d[1 + la] == ' ');
            assert(d[len - 1] == ')');
            assert(forall|k: int| 0 <= k < la ==> d[1 + k] == #[trigger] da[k]);
            assert(forall|k: int| 0 <= k < lb ==> d[2 + la + k] == #[trigger] db[k]);
            assert(s.subrange(i + 1, i + 1 + la) =~= da);
            assert(s.subrange(i + 2 + la, i + 2 + la + lb) =~= db);
            let acc1 = acc.push(seq!['(']);
            assert(tokenise_from(s, i, Seq::empty(), acc) == tokenise_from(
                s,
                i + 1,
                Seq::empty(),
                acc1,
            ));
            lemma_tokenise_display(*a, s, i + 1, acc1);
            let acc2 = acc1 + print_tokens(*a);
            assert(tokenise_from(s, i + 1 + la, Seq::empty(), acc2) == tokenise_from(
                s,
                i + 2 + la,
                Seq::empty(),
                acc2,
            ));
            lemma_tokenise_display(*b, s, i + 2 + la, acc2);
            let acc3 = acc2 + print_tokens(*b);
            assert(tokenise_from(s, i + 2 + la + lb, Seq::empty(), acc3) == tokenise_from(
                s,
                i + len,
                Seq::empty(),
                acc3.push(seq![')']),
            ));
            assert(acc3.push(seq![')']) =~= acc + print_tokens(t));
            assert(tokenise_from(s, i, Seq::empty(), acc) == tokenise_from(
                s,
                i + len,
                Seq::empty(),
                acc + print_tokens(t),
            ));
        },
        TermV::Lambda(nm, _, e) => {
            let de = display_view(*e);
            let nl = nm.len() as int;
            let le = de.len() as int;
            assert(d[0] == '(');
            assert(d[1] == 'λ');
            assert(d[2 + nl] == '.');
            assert(d[len - 1] == ')');
            assert(forall|k: int| 0 <= k < nl ==> d[2 + k] == #[trigger] nm[k]);
            assert(forall|k: int| 0 <= k < le ==> d[3 + nl + k] == #[trigger] de[k]);
            assert(s.subrange(i + 2, i + 2 + nl) =~= nm);
            assert(s.subrange(i + 3 + nl, i + 3 + nl + le) =~= de);
            let acc1 = acc.push(seq!['(']);
            let acc2 = acc1.push(seq!['λ']);
            assert(tokenise_from(s, i, Seq::empty(), acc) == tokenise_from(
                s,
                i + 1,
                Seq::empty(),
                acc1,
            ));
            assert(tokenise_from(s, i + 1, Seq::empty(), acc1) == tokenise_from(
                s,
                i + 2,
                Seq::empty(),
                acc2,
            ));
            assert(forall|j: int| i + 2 <= j < i + 2 + nl ==> !is_special(#[trigger] s[j])
                && !is_space(s[j])) by {
                assert(forall|j: int| i + 2 <= j < i + 2 + nl ==> s[j] == nm[j - i - 2]);
            }
            lemma_ident_run(s, i + 2, nl, Seq::empty(), acc2);
            assert(Seq::<char>::empty() + s.subrange(i + 2, i + 2 + nl) =~= nm);
            lemma_flush_eq(s, i + 2 + nl, nm, acc2);
            let acc3 = acc2.push(nm).push(seq!['.']);
            assert(tokenise_from(s, i + 2 + nl, Seq::empty(), acc2.push(nm)) == tokenise_from(
                s,
                i + 3 + nl,
                Seq::empty(),
                acc3,
            ));
            lemma_tokenise_display(*e, s, i + 3 + nl, acc3);
            let acc4 = acc3 + print_tokens(*e);
            assert(tokenise_from(s, i + 3 + nl + le, Seq::empty(), acc4) == tokenise_from(
                s,
                i + len,
                Seq::empty(),
                acc4.push(seq![')']),
            ));
            assert(acc4.push(seq![')']) =~= acc + print_tokens(t));
            assert(tokenise_from(s, i, Seq::empty(), acc) == tokenise_from(
                s,
                i + len,
                Seq::empty(),
                acc + print_tokens(t),
            ));
        },
    }
}

/// Round trip at the character level: the display form of a printable term
/// tokenises to exactly its printed tokens.
pub proof fn lemma_display_tokenises(t: TermV)
    requires
        printable(t),
    ensures
        spec_tokenise(display_view(t)) == print_tokens(t),
{
    let s = display_view(t);
    assert(s.subrange(0, s.len() as int) =~= s);
    lemma_tokenise_display(t, s, 0, Seq::empty());
    assert(Seq::<Seq<char>>::empty() + print_tokens(t) =~= print_tokens(t));
}

/// Round trip at the token level: the printed tokens of a printable term
/// parse back to exactly that term, consuming everything.
pub proof fn lemma_print_tokens_reparse(t: TermV)
    requires
        printable(t),
    ensures
        spec_parse(print_tokens(t), 0, TermV::Nothing) == (
            ParsedV::Done(t),
            print_tokens(t).len() as int,
        ),
{
    let toks = print_tokens(t);
    assert(toks.subrange(0, toks.len() as int) =~= toks);
    lemma_parse_print_tokens(t, toks, 0, TermV::Nothing);
}


/// The round-trip law: for a printable term — no `Empty` inside, every name
/// a plain identifier that is neither a reserved constant nor a numeral,
/// every identifier 0, as the parser builds them — tokenising and parsing
/// its display form gives back exactly that term, consuming all tokens.
pub proof fn lemma_round_trip(t: TermV)
    requires
        printable(t),
    ensures
        spec_parse(spec_tokenise(display_view(t)), 0, TermV::Nothing) == (
            ParsedV::Done(t),
            spec_tokenise(display_view(t)).len() as int,
        ),
{
    lemma_display_tokenises(t);
    lemma_print_tokens_reparse(t);
}

} // verus!
