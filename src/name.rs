//! Names of units, and the text forms of exponents and of whole units.
use crate::base_unit::{pre_name, Pre};
use crate::frac::{abs, Frac, Rational, FRAC_BOUND};
use crate::unit::{Exp, Exponent, SimpleUnit, SlotView};
use vstd::prelude::*;

verus! {

/// Short and full names of a catalog entry (`"k"`, `"kilo"`; `"m"`, `"meter"`).
pub trait Name {
    fn short(&self) -> &'static str;

    fn full(&self) -> &'static str;
}

/// Rendering in short names (symbols).
pub trait Display {
    fn display(&self) -> String;
}

/// Rendering in full (spelled-out) names.
pub trait Debug {
    fn debug(&self) -> String;
}

pub open spec fn digit_char(d: nat) -> char {
    if d == 0 {
        '0'
    } else if d == 1 {
        '1'
    } else if d == 2 {
        '2'
    } else if d == 3 {
        '3'
    } else if d == 4 {
        '4'
    } else if d == 5 {
        '5'
    } else if d == 6 {
        '6'
    } else if d == 7 {
        '7'
    } else if d == 8 {
        '8'
    } else {
        '9'
    }
}

pub open spec fn sup_char(d: nat) -> char {
    if d == 0 {
        '⁰'
    } else if d == 1 {
        '¹'
    } else if d == 2 {
        '²'
    } else if d == 3 {
        '³'
    } else if d == 4 {
        '⁴'
    } else if d == 5 {
        '⁵'
    } else if d == 6 {
        '⁶'
    } else if d == 7 {
        '⁷'
    } else if d == 8 {
        '⁸'
    } else {
        '⁹'
    }
}

/// Decimal digits of `n`, in ASCII (`sup == false`) or as superscripts.
pub open spec fn decimal(n: nat, sup: bool) -> Seq<char>
    decreases n,
{
    let c = if sup {
        sup_char((n % 10) as nat)
    } else {
        digit_char((n % 10) as nat)
    };
    if n < 10 {
        seq![c]
    } else {
        decimal(n / 10, sup).push(c)
    }
}

/// `n` in superscript digits, led by a superscript minus when negative.
pub open spec fn superscript_of(n: int) -> Seq<char> {
    if n < 0 {
        seq!['⁻'] + decimal(abs(n), true)
    } else {
        decimal(abs(n), true)
    }
}

fn digit_str(d: u32, sup: bool) -> (r: &'static str)
    requires
        d < 10,
    ensures
        r@ == seq![if sup { sup_char(d as nat) } else { digit_char(d as nat) }],
{
    if d == 0 {
        if sup {
            proof { reveal_strlit("⁰"); }
            "⁰"
        } else {
            proof { reveal_strlit("0"); }
            "0"
        }
    } else if d == 1 {
        if sup {
            proof { reveal_strlit("¹"); }
            "¹"
        } else {
            proof { reveal_strlit("1"); }
            "1"
        }
    } else if d == 2 {
        if sup {
            proof { reveal_strlit("²"); }
            "²"
        } else {
            proof { reveal_strlit("2"); }
            "2"
        }
    } else if d == 3 {
        if sup {
            proof { reveal_strlit("³"); }
            "³"
        } else {
            proof { reveal_strlit("3"); }
            "3"
        }
    } else if d == 4 {
        if sup {
            proof { reveal_strlit("⁴"); }
            "⁴"
        } else {
            proof { reveal_strlit("4"); }
            "4"
        }
    } else if d == 5 {
        if sup {
            proof { reveal_strlit("⁵"); }
            "⁵"
        } else {
            proof { reveal_strlit("5"); }
            "5"
        }
    } else if d == 6 {
        if sup {
            proof { reveal_strlit("⁶"); }
            "⁶"
        } else {
            proof { reveal_strlit("6"); }
            "6"
        }
    } else if d == 7 {
        if sup {
            proof { reveal_strlit("⁷"); }
            "⁷"
        } else {
            proof { reveal_strlit("7"); }
            "7"
        }
    } else if d == 8 {
        if sup {
            proof { reveal_strlit("⁸"); }
            "⁸"
        } else {
            proof { reveal_strlit("8"); }
            "8"
        }
    } else {
        if sup {
            proof { reveal_strlit("⁹"); }
            "⁹"
        } else {
            proof { reveal_strlit("9"); }
            "9"
        }
    }
}

/// Appends the decimal digits of `n`.
fn push_decimal(s: &mut String, n: u32, sup: bool)
    ensures
        final(s)@ == old(s)@ + decimal(n as nat, sup),
    decreases n,
{
    if n >= 10 {
        push_decimal(s, n / 10, sup);
    }
    s.append(digit_str(n % 10, sup));
    proof {
        if n >= 10 {
            assert(decimal(n as nat, sup) == decimal((n / 10) as nat, sup).push(
                if sup { sup_char((n % 10) as nat) } else { digit_char((n % 10) as nat) },
            ));
        }
    }
}

/// The decimal form of `num` in superscript digits (`-12` gives `"⁻¹²"`).
pub fn superscript(num: i32) -> (r: String)
    ensures
        r@ == superscript_of(num as int),
{
    let mut s = String::new();
    let n: u32 = if num < 0 {
        proof { reveal_strlit("⁻"); }
        s.append("⁻");
        (-(num as i64)) as u32
    } else {
        num as u32
    };
    push_decimal(&mut s, n, true);
    proof {
        assert(s@ =~= superscript_of(num as int));
    }
    s
}

/// The mark after a unit's name for the magnitude of its exponent: nothing for one, a
/// superscript for other whole numbers, `^(n/d)` for fractions.
pub open spec fn exp_suffix(e: Rational) -> Seq<char> {
    if e.den == 1 {
        if abs(e.num) == 1 {
            Seq::empty()
        } else {
            decimal(abs(e.num), true)
        }
    } else {
        seq!['^', '('] + decimal(abs(e.num), false) + seq!['/'] + decimal(e.den as nat, false) + seq![')']
    }
}

/// The text of one nonzero slot.
pub open spec fn term(s: SlotView, full: bool) -> Seq<char> {
    pre_name(s.unit.unwrap(), full) + exp_suffix(s.exp)
}

/// The terms of the first `k` slots whose exponents have the given sign.
pub open spec fn terms(u: Seq<SlotView>, k: int, positive: bool, full: bool) -> Seq<Seq<char>>
    decreases k,
{
    if k <= 0 {
        Seq::empty()
    } else {
        let prev = terms(u, k - 1, positive, full);
        let s = u[k - 1];
        if (positive && s.exp.num > 0) || (!positive && s.exp.num < 0) {
            prev.push(term(s, full))
        } else {
            prev
        }
    }
}

/// Terms joined by the product dot.
pub open spec fn join(ts: Seq<Seq<char>>) -> Seq<char>
    decreases ts.len(),
{
    if ts.len() == 0 {
        Seq::empty()
    } else if ts.len() == 1 {
        ts[0]
    } else {
        join(ts.drop_last()) + seq!['⋅'] + ts.last()
    }
}

pub open spec fn parenthesized(t: Seq<char>) -> Seq<char> {
    seq!['('] + t + seq![')']
}

/// The text of a unit: numerator terms (positive exponents) over denominator terms
/// (negative exponents, shown by magnitude), with parentheses around a side of more
/// than one term.
pub open spec fn render(u: Seq<SlotView>, full: bool) -> Seq<char> {
    let n = terms(u, 7, true, full);
    let d = terms(u, 7, false, full);
    if n.len() == 0 && d.len() == 0 {
        Seq::empty()
    } else if d.len() == 0 {
        join(n)
    } else if n.len() == 0 {
        seq!['1', '/'] + join(d)
    } else {
        let top = if n.len() == 1 {
            join(n)
        } else {
            parenthesized(join(n))
        };
        let bottom = if d.len() == 1 {
            join(d)
        } else {
            parenthesized(join(d))
        };
        top + seq!['/'] + bottom
    }
}

fn exp_suffix_text(e: &Frac) -> (r: String)
    ensures
        r@ == exp_suffix(e@),
{
    proof {
        use_type_invariant(e);
    }
    let a: u32 = if e.num() < 0 {
        (-(e.num() as i64)) as u32
    } else {
        e.num() as u32
    };
    let mut s = String::new();
    if e.is_integer() {
        if a != 1 {
            push_decimal(&mut s, a, true);
        }
    } else {
        proof {
            reveal_strlit("^(");
            reveal_strlit("/");
            reveal_strlit(")");
        }
        s.append("^(");
        push_decimal(&mut s, a, false);
        s.append("/");
        push_decimal(&mut s, e.den() as u32, false);
        s.append(")");
    }
    proof {
        assert(s@ =~= exp_suffix(e@));
    }
    s
}

fn term_text(x: &Exp, u: Pre, full: bool) -> (r: String)
    requires
        x@.unit == Some(u),
    ensures
        r@ == term(x@, full),
{
    let mut s = u.name(full);
    let suffix = exp_suffix_text(&x.exponent());
    s.append(suffix.as_str());
    s
}

fn join_text(ts: &Vec<String>) -> (r: String)
    ensures
        r@ == join(ts@.map_values(|t: String| t@)),
{
    let ghost v = ts@.map_values(|t: String| t@);
    let mut s = String::new();
    let mut i: usize = 0;
    proof {
        reveal_strlit("⋅");
    }
    while i < ts.len()
        invariant
            i <= ts@.len(),
            v == ts@.map_values(|t: String| t@),
            s@ == join(v.subrange(0, i as int)),
        decreases ts.len() - i,
    {
        let ghost prev = s@;
        proof {
            reveal_strlit("⋅");
        }
        if i > 0 {
            s.append("⋅");
        }
        s.append(ts[i].as_str());
        proof {
            let p = v.subrange(0, i as int + 1);
            assert(p.drop_last() =~= v.subrange(0, i as int));
            assert(p.last() == ts@[i as int]@);
            if i == 0 {
                assert(prev.len() == 0);
                assert(s@ =~= p[0]);
            } else {
                assert(s@ =~= prev + seq!['⋅'] + p.last());
            }
        }
        i += 1;
    }
    proof {
        assert(v.subrange(0, ts@.len() as int) =~= v);
    }
    s
}

fn render_text(unit: &SimpleUnit, full: bool) -> (r: String)
    ensures
        r@ == render(unit@, full),
{
    proof {
        use_type_invariant(unit);
    }
    let ghost u = unit@;
    let mut num: Vec<String> = Vec::new();
    let mut den: Vec<String> = Vec::new();
    let mut i: usize = 0;
    while i < 7
        invariant
            i <= 7,
            u == unit@,
            crate::unit::unit_wf(u),
            num@.map_values(|t: String| t@) == terms(u, i as int, true, full),
            den@.map_values(|t: String| t@) == terms(u, i as int, false, full),
        decreases 7 - i,
    {
        let x = unit.slot_at(i);
        let ghost n0 = num@.map_values(|t: String| t@);
        let ghost d0 = den@.map_values(|t: String| t@);
        let e = x.exponent();
        proof {
            assert(crate::unit::slot_wf(i as int, u[i as int]));
        }
        match x.unit() {
            Some(p) => {
                let t = term_text(&x, p, full);
                if e.is_positive() {
                    num.push(t);
                    proof {
                        assert(num@.map_values(|t: String| t@) =~= n0.push(term(u[i as int], full)));
                    }
                } else {
                    den.push(t);
                    proof {
                        assert(den@.map_values(|t: String| t@) =~= d0.push(term(u[i as int], full)));
                    }
                }
            },
            None => {},
        }
        i += 1;
    }
    let top = join_text(&num);
    let bottom = join_text(&den);
    let mut s = String::new();
    proof {
        reveal_strlit("1/");
        reveal_strlit("/");
        reveal_strlit("(");
        reveal_strlit(")");
        reveal_strlit(")/");
        reveal_strlit(")/(");
    }
    if num.len() == 0 && den.len() == 0 {
    } else if den.len() == 0 {
        s.append(top.as_str());
    } else if num.len() == 0 {
        s.append("1/");
        s.append(bottom.as_str());
    } else {
        if num.len() == 1 {
            s.append(top.as_str());
        } else {
            s.append("(");
            s.append(top.as_str());
            s.append(")");
        }
        s.append("/");
        if den.len() == 1 {
            s.append(bottom.as_str());
        } else {
            s.append("(");
            s.append(bottom.as_str());
            s.append(")");
        }
    }
    proof {
        assert(s@ =~= render(u, full));
    }
    s
}

impl Display for Exp {
    /// The slot's short name with its exponent mark; empty for a zero exponent.
    fn display(&self) -> (r: String)
        ensures
            self@.unit is Some ==> r@ == term(self@, false),
            self@.unit is None ==> r@.len() == 0,
    {
        match self.unit() {
            Some(p) => term_text(self, p, false),
            None => String::new(),
        }
    }
}

impl Debug for Exp {
    fn debug(&self) -> (r: String)
        ensures
            self@.unit is Some ==> r@ == term(self@, true),
            self@.unit is None ==> r@.len() == 0,
    {
        match self.unit() {
            Some(p) => term_text(self, p, true),
            None => String::new(),
        }
    }
}

impl Display for SimpleUnit {
    fn display(&self) -> (r: String)
        ensures
            r@ == render(self@, false),
    {
        render_text(self, false)
    }
}

impl Debug for SimpleUnit {
    fn debug(&self) -> (r: String)
        ensures
            r@ == render(self@, true),
    {
        render_text(self, true)
    }
}

} // verus!
