//! Rendering of types for diagnostics: a pretty-printer that resolves each
//! placeholder through a substitution snapshot at most one hop before
//! printing, so a partially-resolved chain can never make it loop. The
//! solver itself never calls this; it exists for whoever formats the
//! structured diagnostic records.

use vstd::prelude::*;

use crate::subst::Subst;
use crate::types::{Mutability, Type};

verus! {

/// Relies on std's `String::push_str`: appending a string slice appends
/// exactly its characters.
pub assume_specification[ String::push_str ](s: &mut String, string: &str)
    ensures
        final(s)@ == old(s)@ + string@,
;

/// The decimal digit character for `d`.
pub open spec fn digit_char(d: nat) -> char {
    if d == 0 {
        '0'
    } else if d == 1 {
        '1'
    } else if d == 2 {
        '2'
    } else if d == 3 {
        '3'
    } else if d == 4 {
        '4'
    } else if d == 5 {
        '5'
    } else if d == 6 {
        '6'
    } else if d == 7 {
        '7'
    } else if d == 8 {
        '8'
    } else {
        '9'
    }
}

/// The decimal rendering of a natural number, most significant digit first.
pub open spec fn dec_seq(n: nat) -> Seq<char>
    decreases n,
{
    if n < 10 {
        seq![digit_char(n)]
    } else {
        dec_seq(n / 10).push(digit_char(n % 10))
    }
}

/// The rendering of an integer: a minus sign ahead of the magnitude.
pub open spec fn int_seq(v: int) -> Seq<char> {
    if v >= 0 {
        dec_seq(v as nat)
    } else {
        seq!['-'] + dec_seq((-v) as nat)
    }
}

/// A placeholder renders the same whichever mode it is read under, so a
/// re-tagged stored type renders as the stored type does.
proof fn lemma_retag_shallow(m: Mutability, t: Type)
    ensures
        shallow_seq(crate::types::spec_retag(m, t)) == shallow_seq(t),
    decreases t,
{
    match t {
        Type::Fun(a, b) => {
            lemma_retag_shallow(m, *a);
            lemma_retag_shallow(m, *b);
        }
        Type::Product(a, b) => {
            lemma_retag_shallow(m, *a);
            lemma_retag_shallow(m, *b);
        }
        Type::Instantiated(a, _) => {
            lemma_retag_shallow(m, *a);
        }
        _ => {}
    }
}

fn digit_str(d: u64) -> (res: &'static str)
    requires
        d < 10,
    ensures
        res@ == seq![digit_char(d as nat)],
{
    proof {
        reveal_strlit("0");
        reveal_strlit("1");
        reveal_strlit("2");
        reveal_strlit("3");
        reveal_strlit("4");
        reveal_strlit("5");
        reveal_strlit("6");
        reveal_strlit("7");
        reveal_strlit("8");
        reveal_strlit("9");
    }
    if d == 0 {
        "0"
    } else if d == 1 {
        "1"
    } else if d == 2 {
        "2"
    } else if d == 3 {
        "3"
    } else if d == 4 {
        "4"
    } else if d == 5 {
        "5"
    } else if d == 6 {
        "6"
    } else if d == 7 {
        "7"
    } else if d == 8 {
        "8"
    } else {
        "9"
    }
}

fn dec_string(n: u64) -> (res: String)
    ensures
        res@ == dec_seq(n as nat),
    decreases n,
{
    if n < 10 {
        digit_str(n).to_owned()
    } else {
        let mut s = dec_string(n / 10);
        s.push_str(digit_str(n % 10));
        proof {
            assert(dec_seq((n / 10) as nat) + seq![digit_char((n % 10) as nat)] =~= dec_seq(
                (n / 10) as nat,
            ).push(digit_char((n % 10) as nat)));
        }
        s
    }
}

fn int_string(v: i64) -> (res: String)
    ensures
        res@ == int_seq(v as int),
{
    if v >= 0 {
        dec_string(v as u64)
    } else {
        let magnitude = ((-(v + 1)) as u64) + 1;
        let mut s = "-".to_owned();
        proof {
            reveal_strlit("-");
        }
        let digits = dec_string(magnitude);
        s.push_str(digits.as_str());
        proof {
            assert(seq!['-'] + dec_seq(magnitude as nat) =~= s@);
        }
        s
    }
}

/// The rendering of a type with no placeholder resolution at all: what a
/// placeholder the snapshot cannot resolve, or has already been resolved
/// through once, looks like.
pub open spec fn shallow_seq(t: Type) -> Seq<char>
    decreases t,
{
    match t {
        Type::Invalid => "invalid"@,
        Type::Number => "number"@,
        Type::Range(lo, hi) => int_seq(lo as int) + " upto "@ + int_seq(hi as int),
        Type::Name(n) => "#"@ + dec_seq(n.0 as nat),
        Type::Fun(a, b) => "("@ + shallow_seq(*a) + " -> "@ + shallow_seq(*b) + ")"@,
        Type::Product(a, b) => "("@ + shallow_seq(*a) + " * "@ + shallow_seq(*b) + ")"@,
        Type::Var(_, v) => "?"@ + dec_seq(v.count as nat),
        Type::Instantiated(a, _) => shallow_seq(*a),
    }
}

/// The rendering of a type through a snapshot: structural, except that a
/// placeholder the snapshot resolves is replaced by the shallow rendering
/// of its stored type — one hop, never more.
pub open spec fn render_seq(t: Type, s: Seq<(crate::types::UniVar, crate::types::Bindings, Type)>) -> Seq<char>
    decreases t,
{
    match t {
        Type::Fun(a, b) => "("@ + render_seq(*a, s) + " -> "@ + render_seq(*b, s) + ")"@,
        Type::Product(a, b) => "("@ + render_seq(*a, s) + " * "@ + render_seq(*b, s) + ")"@,
        Type::Instantiated(a, _) => render_seq(*a, s),
        Type::Var(m, v) => if crate::subst::spec_contains_var(s, v) {
            shallow_seq(crate::subst::stored_type(s, v))
        } else {
            shallow_seq(t)
        },
        _ => shallow_seq(t),
    }
}

fn shallow_string(t: &Type) -> (res: String)
    ensures
        res@ == shallow_seq(*t),
    decreases *t,
{
    proof {
        reveal_strlit("invalid");
        reveal_strlit("number");
        reveal_strlit(" upto ");
        reveal_strlit("#");
        reveal_strlit("(");
        reveal_strlit(" -> ");
        reveal_strlit(" * ");
        reveal_strlit(")");
        reveal_strlit("?");
    }
    match t {
        Type::Invalid => "invalid".to_owned(),
        Type::Number => "number".to_owned(),
        Type::Range(lo, hi) => {
            let mut s = int_string(*lo);
            s.push_str(" upto ");
            let hs = int_string(*hi);
            s.push_str(hs.as_str());
            s
        }
        Type::Name(n) => {
            let mut s = "#".to_owned();
            let ds = dec_string(n.0);
            s.push_str(ds.as_str());
            s
        }
        Type::Fun(a, b) => {
            let mut s = "(".to_owned();
            let la = shallow_string(a);
            s.push_str(la.as_str());
            s.push_str(" -> ");
            let lb = shallow_string(b);
            s.push_str(lb.as_str());
            s.push_str(")");
            s
        }
        Type::Product(a, b) => {
            let mut s = "(".to_owned();
            let la = shallow_string(a);
            s.push_str(la.as_str());
            s.push_str(" * ");
            let lb = shallow_string(b);
            s.push_str(lb.as_str());
            s.push_str(")");
            s
        }
        Type::Var(_, v) => {
            let mut s = "?".to_owned();
            let ds = dec_string(v.count);
            s.push_str(ds.as_str());
            s
        }
        Type::Instantiated(a, _) => shallow_string(a),
    }
}

/// Render a type for a diagnostic, reading each placeholder through the
/// snapshot at most one hop.
pub fn rendered(t: &Type, snapshot: &Subst) -> (res: String)
    requires
        snapshot.inv(),
    ensures
        res@ == render_seq(*t, snapshot.entries@),
    decreases *t,
{
    proof {
        reveal_strlit("(");
        reveal_strlit(" -> ");
        reveal_strlit(" * ");
        reveal_strlit(")");
    }
    match t {
        Type::Fun(a, b) => {
            let mut s = "(".to_owned();
            let la = rendered(a, snapshot);
            s.push_str(la.as_str());
            s.push_str(" -> ");
            let lb = rendered(b, snapshot);
            s.push_str(lb.as_str());
            s.push_str(")");
            s
        }
        Type::Product(a, b) => {
            let mut s = "(".to_owned();
            let la = rendered(a, snapshot);
            s.push_str(la.as_str());
            s.push_str(" * ");
            let lb = rendered(b, snapshot);
            s.push_str(lb.as_str());
            s.push_str(")");
            s
        }
        Type::Instantiated(a, _) => rendered(a, snapshot),
        Type::Var(m, v) => {
            match snapshot.lookup(*m, *v) {
                Some((_, stored)) => {
                    proof {
                        let i0 = choose|i: int|
                            0 <= i < snapshot.entries@.len() && (
                            #[trigger] snapshot.entries@[i]).0 == *v;
                        assert(snapshot.entries@[i0].0 == *v);
                        assert(stored == crate::types::spec_retag(
                            *m,
                            snapshot.entries@[i0].2,
                        ));
                        lemma_retag_shallow(*m, crate::subst::stored_type(snapshot.entries@, *v));
                    }
                    shallow_string(&stored)
                }
                None => shallow_string(t),
            }
        }
        _ => shallow_string(t),
    }
}

} // verus!
