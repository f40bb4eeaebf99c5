//! Rendering of terms: the minimal display form and the debug
//! reconstruction form.

use vstd::prelude::*;
use vstd::string::StringExecFns;

use crate::term::{LambdaExpr, TermV};
use crate::text::{char_string, push_char};

verus! {

/// The minimal display form of a term, all identifiers dropped: nothing
/// for `Nothing`, the bare name for a variable, `(f a)` for an
/// application, `(λx.body)` for an abstraction.
pub open spec fn display_view(t: TermV) -> Seq<char>
    decreases t,
{
    match t {
        TermV::Nothing => Seq::empty(),
        TermV::Variable(name, _) => name,
        TermV::Call(a, b) => seq!['('] + display_view(*a) + seq![' '] + display_view(*b) + seq![
            ')',
        ],
        TermV::Lambda(name, _, e) => seq!['(', 'λ'] + name + seq!['.'] + display_view(*e) + seq![
            ')',
        ],
    }
}

/// The character of a single decimal digit.
pub open spec fn digit_char(d: nat) -> char {
    if d == 0 {
        '0'
    } else if d == 1 {
        '1'
    } else if d == 2 {
        '2'
    } else if d == 3 {
        '3'
    } else if d == 4 {
        '4'
    } else if d == 5 {
        '5'
    } else if d == 6 {
        '6'
    } else if d == 7 {
        '7'
    } else if d == 8 {
        '8'
    } else {
        '9'
    }
}

/// The decimal digits of `n`, most significant first.
pub open spec fn dec_digits(n: nat) -> Seq<char>
    decreases n,
{
    if n < 10 {
        seq![digit_char(n)]
    } else {
        dec_digits(n / 10) + seq![digit_char(n % 10)]
    }
}

/// The decimal rendering of an integer, with a leading `-` when negative.
pub open spec fn int_dec(v: int) -> Seq<char> {
    if v < 0 {
        seq!['-'] + dec_digits((-v) as nat)
    } else {
        dec_digits(v as nat)
    }
}

/// The debug reconstruction form: an unambiguous literal expression for
/// the whole tree, identifiers included. It is for tracing, never for
/// parsing.
pub open spec fn repr_view(t: TermV) -> Seq<char>
    decreases t,
{
    match t {
        TermV::Nothing => "Nothing"@,
        TermV::Variable(name, id) => "Variable(\""@ + name + "\".to_string(), "@ + int_dec(id)
            + "i16)"@,
        TermV::Call(a, b) => "Call(box "@ + repr_view(*a) + ", box "@ + repr_view(*b) + ")"@,
        TermV::Lambda(name, id, e) => "Lambda(\""@ + name + "\".to_string(), "@ + int_dec(id)
            + "i16, box "@ + repr_view(*e) + ")"@,
    }
}

fn digit_char_of(d: u32) -> (c: char)
    requires
        d < 10,
    ensures
        c == digit_char(d as nat),
{
    if d == 0 {
        '0'
    } else if d == 1 {
        '1'
    } else if d == 2 {
        '2'
    } else if d == 3 {
        '3'
    } else if d == 4 {
        '4'
    } else if d == 5 {
        '5'
    } else if d == 6 {
        '6'
    } else if d == 7 {
        '7'
    } else if d == 8 {
        '8'
    } else {
        '9'
    }
}

fn u32_dec(n: u32) -> (r: String)
    ensures
        r@ == dec_digits(n as nat),
    decreases n,
{
    if n < 10 {
        char_string(digit_char_of(n))
    } else {
        let mut s = u32_dec(n / 10);
        push_char(&mut s, digit_char_of(n % 10));
        proof {
            assert(dec_digits((n / 10) as nat).push(digit_char((n % 10) as nat)) =~= dec_digits(
                (n / 10) as nat,
            ) + seq![digit_char((n % 10) as nat)]);
        }
        s
    }
}

fn i16_dec(v: i16) -> (r: String)
    ensures
        r@ == int_dec(v as int),
{
    let w = v as i32;
    if w < 0 {
        let mut s = char_string('-');
        let rest = u32_dec((-w) as u32);
        s.append(rest.as_str());
        s
    } else {
        u32_dec(w as u32)
    }
}

impl LambdaExpr {
    /// Render the term to its minimal display string, as [`display_view`]
    /// describes.
    ///
    /// The syntax is the one [`crate::parse::parse`] reads, but it prefers
    /// `λ` over `\` in lambda declarations, never uses the reserved
    /// constant names — every term prints in fully expanded form — and
    /// parenthesises every application and abstraction.
    pub fn into_str(&self) -> (r: String)
        ensures
            r@ == display_view(self@),
        decreases self,
    {
        match self {
            LambdaExpr::Nothing => String::new(),
            LambdaExpr::Variable(name, _) => name.clone(),
            LambdaExpr::Call(a, b) => {
                let mut s = char_string('(');
                let sa = a.into_str();
                s.append(sa.as_str());
                push_char(&mut s, ' ');
                let sb = b.into_str();
                s.append(sb.as_str());
                push_char(&mut s, ')');
                proof {
                    assert(s@ =~= display_view(self@));
                }
                s
            },
            LambdaExpr::Lambda(name, _, e) => {
                let mut s = char_string('(');
                push_char(&mut s, 'λ');
                s.append(name.as_str());
                push_char(&mut s, '.');
                let se = e.into_str();
                s.append(se.as_str());
                push_char(&mut s, ')');
                proof {
                    assert(s@ =~= display_view(self@));
                }
                s
            },
        }
    }

    /// Render the term as a reconstruction expression with identifiers, as
    /// [`repr_view`] describes: the tracing form, never parsed back.
    pub fn repr(&self) -> (r: String)
        ensures
            r@ == repr_view(self@),
        decreases self,
    {
        match self {
            LambdaExpr::Nothing => "Nothing".to_owned(),
            LambdaExpr::Variable(name, id) => {
                let mut s = "Variable(\"".to_owned();
                s.append(name.as_str());
                s.append("\".to_string(), ");
                let sid = i16_dec(*id);
                s.append(sid.as_str());
                s.append("i16)");
                proof {
                    assert(s@ =~= repr_view(self@));
                }
                s
            },
            LambdaExpr::Call(a, b) => {
                let mut s = "Call(box ".to_owned();
                let sa = a.repr();
                s.append(sa.as_str());
                s.append(", box ");
                let sb = b.repr();
                s.append(sb.as_str());
                s.append(")");
                proof {
                    assert(s@ =~= repr_view(self@));
                }
                s
            },
            LambdaExpr::Lambda(name, id, e) => {
                let mut s = "Lambda(\"".to_owned();
                s.append(name.as_str());
                s.append("\".to_string(), ");
                let sid = i16_dec(*id);
                s.append(sid.as_str());
                s.append("i16, box ");
                let se = e.repr();
                s.append(se.as_str());
                s.append(")");
                proof {
                    assert(s@ =~= repr_view(self@));
                }
                s
            },
        }
    }
}

} // verus!
