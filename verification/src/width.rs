//! Port widths: a plain number of bits, or an expression over module
//! parameters kept together with the number it evaluates to.
use crate::calculator::calculated;
use crate::calculator::CalcError;
use crate::calculator::StrCalc;
use crate::parameter::Param;
use crate::text::dec_digits;
use crate::text::decimal_usize;
use crate::text::replace;
use crate::text::replace_all;
use vstd::prelude::*;
use vstd::std_specs::convert::FromSpecImpl;

verus! {

/// A width in bits.
#[derive(Debug)]
pub enum Width {
    /// A known number of bits.
    RawWidth(usize),
    /// An expression and the number it was last evaluated to; zero before
    /// any evaluation.
    LiteralWidth(String, usize),
}

impl Default for Width {
    fn default() -> (r: Width)
        ensures
            r == Width::RawWidth(0),
    {
        Width::RawWidth(0)
    }
}

impl From<String> for Width {
    fn from(value: String) -> (r: Width) {
        Width::LiteralWidth(value, 0)
    }
}

impl FromSpecImpl<String> for Width {
    open spec fn obeys_from_spec() -> bool {
        true
    }

    open spec fn from_spec(value: String) -> Width {
        Width::LiteralWidth(value, 0)
    }
}

impl From<usize> for Width {
    fn from(value: usize) -> (r: Width) {
        Width::RawWidth(value)
    }
}

impl FromSpecImpl<usize> for Width {
    open spec fn obeys_from_spec() -> bool {
        true
    }

    open spec fn from_spec(value: usize) -> Width {
        Width::RawWidth(value)
    }
}

/// `expr` with the name of each parameter replaced by its number, one
/// parameter after the other in the order of `params`.
pub open spec fn substituted(expr: Seq<char>, params: Seq<Param>) -> Seq<char>
    decreases params.len(),
{
    if params.len() == 0 {
        expr
    } else {
        substituted(
            replace_all(expr, params[0].name@, dec_digits(params[0].spec_value() as nat)),
            params.skip(1),
        )
    }
}

/// The value of `expr` under `params`, or why it has none.
pub open spec fn evaluation(expr: Seq<char>, params: Seq<Param>) -> Result<usize, CalcError> {
    calculated(substituted(expr, params))
}

/// The number of bits that `expr` stands for under `params`; zero where
/// the expression has no value.
pub open spec fn evaluated(expr: Seq<char>, params: Seq<Param>) -> usize {
    match evaluation(expr, params) {
        Ok(v) => v,
        Err(_) => 0,
    }
}

/// A width as plain values.
pub enum WidthFacts {
    Raw(usize),
    Symbolic(Seq<char>, usize),
}

impl View for Width {
    type V = WidthFacts;

    open spec fn view(&self) -> WidthFacts {
        match *self {
            Width::RawWidth(x) => WidthFacts::Raw(x),
            Width::LiteralWidth(s, v) => WidthFacts::Symbolic(s@, v),
        }
    }
}

impl WidthFacts {
    /// How the width is written.
    pub open spec fn shown(self) -> Seq<char> {
        match self {
            WidthFacts::Raw(x) => dec_digits(x as nat),
            WidthFacts::Symbolic(s, _) => s,
        }
    }

    /// The number of bits.
    pub open spec fn value(self) -> usize {
        match self {
            WidthFacts::Raw(x) => x,
            WidthFacts::Symbolic(_, v) => v,
        }
    }
}

/// The sum of two widths: a plain width for two plain widths whose sum
/// can be held, else the expression `a + b`, not evaluated.
pub open spec fn sum(a: WidthFacts, b: WidthFacts) -> WidthFacts {
    match (a, b) {
        (WidthFacts::Raw(x), WidthFacts::Raw(y)) => if x + y <= usize::MAX {
            WidthFacts::Raw((x + y) as usize)
        } else {
            WidthFacts::Symbolic(joined(a.shown(), '+', b.shown()), 0)
        },
        _ => WidthFacts::Symbolic(joined(a.shown(), '+', b.shown()), 0),
    }
}

/// The difference of two widths: for two plain widths a plain width,
/// zero where `b` is the larger; else the expression `a - b`, not
/// evaluated.
pub open spec fn difference(a: WidthFacts, b: WidthFacts) -> WidthFacts {
    match (a, b) {
        (WidthFacts::Raw(x), WidthFacts::Raw(y)) => WidthFacts::Raw(
            if x >= y {
                (x - y) as usize
            } else {
                0
            },
        ),
        _ => WidthFacts::Symbolic(joined(a.shown(), '-', b.shown()), 0),
    }
}

/// The text of `left op right`, with one space on each side of `op`.
pub open spec fn joined(left: Seq<char>, op: char, right: Seq<char>) -> Seq<char> {
    left + seq![' ', op, ' '] + right
}

fn join_operands(left: &str, op: char, right: &str) -> (r: String)
    ensures
        r@ == joined(left@, op, right@),
{
    let mut out = String::from_str(left);
    let mut mid: Vec<char> = Vec::new();
    mid.push(' ');
    mid.push(op);
    mid.push(' ');
    assert(mid@ =~= seq![' ', op, ' ']);
    let mid = crate::text::string_of(&mid);
    out.append(mid.as_str());
    out.append(right);
    out
}

impl Width {
    /// The number of bits.
    pub open spec fn value(self) -> usize {
        match self {
            Width::RawWidth(x) => x,
            Width::LiteralWidth(_, v) => v,
        }
    }

    /// How the width is written: the numeral of a plain width, the
    /// expression of a symbolic one.
    pub open spec fn shown(self) -> Seq<char> {
        match self {
            Width::RawWidth(x) => dec_digits(x as nat),
            Width::LiteralWidth(s, _) => s@,
        }
    }

    /// The symbolic width with expression `expr` and value `v`.
    pub open spec fn is_symbolic(self, expr: Seq<char>, v: usize) -> bool {
        self matches Width::LiteralWidth(s, n) && s@ == expr && n == v
    }

    /// A symbolic width that has not been evaluated.
    pub fn literal(expr: &str) -> (r: Width)
        ensures
            r.is_symbolic(expr@, 0),
    {
        Width::LiteralWidth(String::from_str(expr), 0)
    }

    /// A copy of the width.
    pub fn duplicate(&self) -> (r: Width)
        ensures
            r == *self,
    {
        match self {
            Width::RawWidth(x) => Width::RawWidth(*x),
            Width::LiteralWidth(s, v) => Width::LiteralWidth(s.clone(), *v),
        }
    }

    /// The value of a symbolic width's expression under `param`, or why
    /// it has none; the number itself for a plain width.
    pub fn evaluate(&self, param: &Vec<Param>) -> (r: Result<usize, CalcError>)
        ensures
            match *self {
                Width::RawWidth(x) => r == Ok::<usize, CalcError>(x),
                Width::LiteralWidth(s, _) => r == evaluation(s@, param@),
            },
    {
        match self {
            Width::RawWidth(x) => Ok(*x),
            Width::LiteralWidth(s, _) => {
                let mut temp = s.clone();
                let mut i: usize = 0;
                assert(param@.skip(0) =~= param@);
                while i < param.len()
                    invariant
                        i <= param.len(),
                        substituted(temp@, param@.skip(i as int)) == substituted(s@, param@),
                    decreases param.len() - i,
                {
                    let ghost rest = param@.skip(i as int);
                    assert(rest.skip(1) =~= param@.skip(i + 1));
                    let digits = decimal_usize(param[i].get_value());
                    temp = replace(temp.as_str(), param[i].name.as_str(), digits.as_str());
                    i += 1;
                }
                temp.calculate()
            },
        }
    }

    /// The width evaluated under `param`: a plain width as it is, a
    /// symbolic one with the value of its expression, or zero where the
    /// expression has none.
    pub fn width_from(&self, param: &Vec<Param>) -> (r: Width)
        ensures
            match *self {
                Width::RawWidth(x) => r == Width::RawWidth(x),
                Width::LiteralWidth(s, _) => r.is_symbolic(s@, evaluated(s@, param@)),
            },
    {
        match self {
            Width::RawWidth(x) => Width::RawWidth(*x),
            Width::LiteralWidth(s, _) => {
                let t = match self.evaluate(param) {
                    Ok(v) => v,
                    Err(_) => 0,
                };
                Width::LiteralWidth(s.clone(), t)
            },
        }
    }

    /// The number of bits.
    pub fn width(&self) -> (r: usize)
        ensures
            r == self.value(),
    {
        match self {
            Width::RawWidth(x) => *x,
            Width::LiteralWidth(_, v) => *v,
        }
    }

    /// Whether the width is symbolic.
    pub fn is_literal(&self) -> (r: bool)
        ensures
            r == (*self is LiteralWidth),
    {
        match self {
            Width::RawWidth(_) => false,
            Width::LiteralWidth(_, _) => true,
        }
    }

    /// How the width is written.
    pub fn to_string(&self) -> (r: String)
        ensures
            r@ == self.shown(),
    {
        match self {
            Width::RawWidth(x) => decimal_usize(*x),
            Width::LiteralWidth(s, _) => s.clone(),
        }
    }

    /// The sum of two widths.
    pub fn plus(self, rhs: Width) -> (r: Width)
        ensures
            r@ == sum(self@, rhs@),
    {
        match (&self, &rhs) {
            (Width::RawWidth(x), Width::RawWidth(y)) => {
                if *x <= usize::MAX - *y {
                    Width::RawWidth(*x + *y)
                } else {
                    let l = self.to_string();
                    let r = rhs.to_string();
                    Width::LiteralWidth(join_operands(l.as_str(), '+', r.as_str()), 0)
                }
            },
            _ => {
                let l = self.to_string();
                let r = rhs.to_string();
                Width::LiteralWidth(join_operands(l.as_str(), '+', r.as_str()), 0)
            },
        }
    }

    /// The difference of two widths.
    pub fn minus(self, rhs: Width) -> (r: Width)
        ensures
            r@ == difference(self@, rhs@),
    {
        match (&self, &rhs) {
            (Width::RawWidth(x), Width::RawWidth(y)) => {
                if *x >= *y {
                    Width::RawWidth(*x - *y)
                } else {
                    Width::RawWidth(0)
                }
            },
            _ => {
                let l = self.to_string();
                let r = rhs.to_string();
                Width::LiteralWidth(join_operands(l.as_str(), '-', r.as_str()), 0)
            },
        }
    }

    /// The width increased by `rhs` bits.
    pub fn plus_int(self, rhs: usize) -> (r: Width)
        ensures
            r@ == sum(self@, WidthFacts::Raw(rhs)),
    {
        self.plus(Width::RawWidth(rhs))
    }

    /// The width decreased by `rhs` bits, not below zero.
    pub fn minus_int(self, rhs: usize) -> (r: Width)
        ensures
            r@ == difference(self@, WidthFacts::Raw(rhs)),
    {
        self.minus(Width::RawWidth(rhs))
    }
}

} // verus!
