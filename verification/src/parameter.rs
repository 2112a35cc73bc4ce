//! Module parameters: a name bound to a number or to another parameter.
use crate::text::dec_digits;
use crate::text::decimal_usize;
use vstd::prelude::*;
use vstd::std_specs::convert::FromSpecImpl;

verus! {

/// A named parameter.
#[derive(Debug)]
pub struct Param {
    pub name: String,
    pub value: Box<ParamValue>,
}

/// What a parameter is bound to.
#[derive(Debug)]
pub enum ParamValue {
    Value(usize),
    Param(Param),
}

impl Param {
    /// The number the parameter stands for, through the parameters it
    /// refers to.
    pub open spec fn spec_value(self) -> usize
        decreases self,
    {
        match *self.value {
            ParamValue::Value(x) => x,
            ParamValue::Param(p) => p.spec_value(),
        }
    }

    /// How the binding is written: a numeral, or the name of the parameter
    /// referred to.
    pub open spec fn spec_shown(self) -> Seq<char> {
        match *self.value {
            ParamValue::Value(x) => dec_digits(x as nat),
            ParamValue::Param(p) => p.name@,
        }
    }

    /// A parameter bound to a number.
    pub fn new(name: String, value: usize) -> (r: Param)
        ensures
            r.name == name,
            *r.value == ParamValue::Value(value),
    {
        Param { name, value: Box::new(ParamValue::Value(value)) }
    }

    /// A parameter with the given binding.
    pub fn new_with_param(name: String, value: ParamValue) -> (r: Param)
        ensures
            r.name == name,
            *r.value == value,
    {
        Param { name, value: Box::new(value) }
    }

    /// The number the parameter stands for.
    pub fn get_value(&self) -> (r: usize)
        ensures
            r == self.spec_value(),
        decreases self,
    {
        match &*self.value {
            ParamValue::Value(x) => *x,
            ParamValue::Param(p) => p.get_value(),
        }
    }

    /// How the binding is written.
    pub fn get_name(&self) -> (r: String)
        ensures
            r@ == self.spec_shown(),
    {
        match &*self.value {
            ParamValue::Value(x) => decimal_usize(*x),
            ParamValue::Param(p) => p.name.clone(),
        }
    }

    /// A copy of the parameter.
    pub fn duplicate(&self) -> (r: Param)
        ensures
            r == *self,
        decreases self,
    {
        let value = match &*self.value {
            ParamValue::Value(x) => ParamValue::Value(*x),
            ParamValue::Param(p) => ParamValue::Param(p.duplicate()),
        };
        Param { name: self.name.clone(), value: Box::new(value) }
    }
}

impl From<usize> for ParamValue {
    fn from(value: usize) -> (r: ParamValue) {
        ParamValue::Value(value)
    }
}

impl FromSpecImpl<usize> for ParamValue {
    open spec fn obeys_from_spec() -> bool {
        true
    }

    open spec fn from_spec(value: usize) -> ParamValue {
        ParamValue::Value(value)
    }
}

impl From<Param> for ParamValue {
    fn from(value: Param) -> (r: ParamValue) {
        ParamValue::Param(value)
    }
}

impl FromSpecImpl<Param> for ParamValue {
    open spec fn obeys_from_spec() -> bool {
        true
    }

    open spec fn from_spec(value: Param) -> ParamValue {
        ParamValue::Param(value)
    }
}

/// The first position in `params` that holds the name `name`, or the
/// length of `params` if none does.
pub open spec fn position_of(params: Seq<Param>, name: Seq<char>) -> int
    decreases params.len(),
{
    if params.len() == 0 {
        0
    } else if params[0].name@ == name {
        0
    } else {
        1 + position_of(params.skip(1), name)
    }
}

/// The position is in range, no earlier parameter has the name, and the
/// one found has it.
pub proof fn lemma_position_of(params: Seq<Param>, name: Seq<char>)
    ensures
        0 <= position_of(params, name) <= params.len(),
        forall|j: int| 0 <= j < position_of(params, name) ==> params[j].name@ != name,
        position_of(params, name) < params.len() ==> params[position_of(params, name)].name@
            == name,
    decreases params.len(),
{
    if params.len() > 0 && params[0].name@ != name {
        lemma_position_of(params.skip(1), name);
        let k = position_of(params.skip(1), name);
        assert forall|j: int| 0 <= j < 1 + k implies params[j].name@ != name by {
            if j > 0 {
                assert(params.skip(1)[j - 1] == params[j]);
            }
        }
        if k < params.len() - 1 {
            assert(params.skip(1)[k] == params[k + 1]);
        }
    }
}

impl ParamValue {
    /// A reference to the first parameter in `params` called `name`; the
    /// number zero where there is none.
    pub fn gen_from_params(params: &Vec<Param>, name: String) -> (r: ParamValue)
        ensures
            position_of(params@, name@) < params.len() ==> r == ParamValue::Param(
                params@[position_of(params@, name@)],
            ),
            position_of(params@, name@) >= params.len() ==> r == ParamValue::Value(0),
    {
        proof {
            lemma_position_of(params@, name@);
        }
        let mut i: usize = 0;
        while i < params.len()
            invariant
                i <= params.len(),
                forall|j: int| 0 <= j < i ==> params@[j].name@ != name@,
                0 <= position_of(params@, name@) <= params.len(),
                forall|j: int|
                    0 <= j < position_of(params@, name@) ==> params@[j].name@ != name@,
                position_of(params@, name@) < params.len() ==> params@[position_of(
                    params@,
                    name@,
                )].name@ == name@,
            decreases params.len() - i,
        {
            if params[i].name == name {
                return ParamValue::Param(params[i].duplicate());
            }
            i += 1;
        }
        ParamValue::Value(0)
    }
}

} // verus!
