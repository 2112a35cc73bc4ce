//! Lowering the declarations of parsed sources into modules.
//!
//! The syntax of the sources is parsed elsewhere; what this module takes
//! is the part of the syntax tree that the model reads: for each module
//! its name, its parameters with their expressions, and its port
//! declarations with direction, range and names.
use crate::module::VerilogModule;
use crate::parameter::Param;
use crate::parameter::ParamValue;
use crate::port::Fragment;
use crate::port::PortDir;
use crate::port::VerilogPort;
use crate::text::numeral;
use crate::text::parse_radix;
use crate::width::difference;
use crate::width::evaluated;
use crate::width::sum;
use crate::width::Width;
use crate::width::WidthFacts;
use vstd::prelude::*;

verus! {

/// A number or a name in a constant expression.
#[derive(Debug)]
pub enum Literal {
    /// A number in base ten, as written.
    Decimal(String),
    /// The digits of a number in base two.
    Binary(String),
    /// The digits of a number in base sixteen.
    Hex(String),
    /// A number in base eight.
    Octal,
    /// The name of a parameter.
    Identifier(String),
    /// Anything else.
    Unknown,
}

/// A constant expression.
#[derive(Debug)]
pub enum ConstExpr {
    Primary(Literal),
    /// Two expressions with an operator between them; the text of the
    /// operator where it could be read.
    Binary(Box<ConstExpr>, Option<String>, Box<ConstExpr>),
    Unary,
    Ternary,
    Unsupported,
}

/// The direction that a declaration names.
#[derive(Debug, Clone, Copy, PartialEq, Eq, Structural)]
pub enum DeclDirection {
    Inout,
    Input,
    Output,
    Ref,
    Interface,
}

/// The declaration of a parameter.
#[derive(Debug)]
pub struct ParamDecl {
    pub name: Option<String>,
    pub value: Option<ConstExpr>,
}

/// The declaration of one or more ports of one direction and range.
#[derive(Debug)]
pub struct PortDecl {
    pub direction: Option<DeclDirection>,
    /// The upper and the lower bound of the packed range, where the
    /// declaration has one.
    pub range: Option<(ConstExpr, ConstExpr)>,
    /// The names declared; nothing for a name that could not be read.
    pub names: Vec<Option<String>>,
}

/// The declaration of a module.
#[derive(Debug)]
pub struct ModuleDecl {
    pub name: Option<String>,
    pub params: Vec<ParamDecl>,
    pub ports: Vec<PortDecl>,
}

/// The width that stands for what cannot be lowered: an empty
/// expression, which evaluates to nothing.
pub open spec fn unsupported() -> WidthFacts {
    WidthFacts::Symbolic(""@, 0)
}

/// The width that a literal stands for: its number, or one bit for
/// binary or hexadecimal digits that cannot be read; the name of a
/// parameter as an expression; nothing for octal numbers and for
/// decimal numbers that cannot be held.
pub open spec fn literal_width(l: Literal) -> Option<WidthFacts> {
    match l {
        Literal::Decimal(s) => match numeral(s@, 10, usize::MAX as int) {
            Some(v) => Some(WidthFacts::Raw(v as usize)),
            None => None,
        },
        Literal::Binary(s) => Some(
            WidthFacts::Raw(
                match numeral(s@, 2, usize::MAX as int) {
                    Some(v) => v as usize,
                    None => 1,
                },
            ),
        ),
        Literal::Hex(s) => Some(
            WidthFacts::Raw(
                match numeral(s@, 16, usize::MAX as int) {
                    Some(v) => v as usize,
                    None => 1,
                },
            ),
        ),
        Literal::Octal => None,
        Literal::Identifier(s) => Some(WidthFacts::Symbolic(s@, 0)),
        Literal::Unknown => None,
    }
}

/// The text of an operator, empty where it could not be read.
pub open spec fn operator_text(op: Option<String>) -> Seq<char> {
    match op {
        Some(s) => s@,
        None => ""@,
    }
}

/// Two widths with an operator between them: the sum or the difference
/// of two plain widths, the difference not below zero, and else the
/// expression made of the three texts.
pub open spec fn combined(a: WidthFacts, op: Seq<char>, b: WidthFacts) -> WidthFacts {
    match (a, b) {
        (WidthFacts::Raw(x), WidthFacts::Raw(y)) => if op == "+"@ && x + y <= usize::MAX {
            WidthFacts::Raw((x + y) as usize)
        } else if op == "-"@ {
            WidthFacts::Raw(
                if x >= y {
                    (x - y) as usize
                } else {
                    0
                },
            )
        } else {
            WidthFacts::Symbolic(a.shown() + op + b.shown(), 0)
        },
        _ => WidthFacts::Symbolic(a.shown() + op + b.shown(), 0),
    }
}

/// The width that a constant expression stands for.
pub open spec fn lowered(e: ConstExpr) -> WidthFacts
    decreases e,
{
    match e {
        ConstExpr::Primary(l) => match literal_width(l) {
            Some(w) => w,
            None => unsupported(),
        },
        ConstExpr::Binary(l, op, r) => combined(lowered(*l), operator_text(op), lowered(*r)),
        _ => unsupported(),
    }
}

/// The expression is `x - 1`.
pub open spec fn is_minus_one(e: ConstExpr) -> bool {
    e matches ConstExpr::Binary(_, Some(op), r) && op@ == "-"@ && (*r matches ConstExpr::Primary(
        Literal::Decimal(one),
    ) && one@ == "1"@)
}

/// The expression is the number zero.
pub open spec fn is_zero(e: ConstExpr) -> bool {
    e matches ConstExpr::Primary(Literal::Decimal(z)) && z@ == "0"@
}

/// The width of a port from its range: one bit without a range; `x` for
/// the range `[x-1:0]`; in general the upper bound less the lower bound,
/// plus one.
pub open spec fn range_width(range: Option<(ConstExpr, ConstExpr)>) -> WidthFacts {
    match range {
        None => WidthFacts::Raw(1),
        Some((upper, lower)) => if is_minus_one(upper) && is_zero(lower) {
            lowered(*upper->Binary_0)
        } else {
            sum(difference(lowered(upper), lowered(lower)), WidthFacts::Raw(1))
        },
    }
}

/// The width with the value that its expression has under `params`.
pub open spec fn under(w: WidthFacts, params: Seq<Param>) -> WidthFacts {
    match w {
        WidthFacts::Raw(x) => WidthFacts::Raw(x),
        WidthFacts::Symbolic(s, _) => WidthFacts::Symbolic(s, evaluated(s, params)),
    }
}

/// The parameters that the declarations give, in order: each with the
/// value that its expression has under the parameters before it. A
/// declaration without a name or without a value gives none.
pub open spec fn declared_params(decls: Seq<ParamDecl>) -> Seq<Param>
    decreases decls.len(),
{
    if decls.len() == 0 {
        Seq::empty()
    } else {
        let done = declared_params(decls.drop_last());
        let d = decls.last();
        match (d.name, d.value) {
            (Some(n), Some(e)) => done.push(
                Param {
                    name: n,
                    value: Box::new(ParamValue::Value(under(lowered(e), done).value())),
                },
            ),
            _ => done,
        }
    }
}

/// The direction of a port from that of its declaration.
pub open spec fn direction_of(d: Option<DeclDirection>) -> PortDir {
    match d {
        Some(DeclDirection::Input) => PortDir::InPort,
        Some(DeclDirection::Output) => PortDir::OutPort,
        Some(DeclDirection::Inout) => PortDir::InOutPort,
        _ => PortDir::Unknown,
    }
}

/// A port as a declaration gives it.
pub struct DeclaredPort {
    pub dir: PortDir,
    pub name: Seq<char>,
    pub width: WidthFacts,
}

/// The ports that one declaration gives: one for each name, an unread
/// name being empty.
pub open spec fn ports_of(d: PortDecl, params: Seq<Param>) -> Seq<DeclaredPort> {
    Seq::new(
        d.names@.len(),
        |j: int|
            DeclaredPort {
                dir: direction_of(d.direction),
                name: match d.names@[j] {
                    Some(s) => s@,
                    None => ""@,
                },
                width: under(range_width(d.range), params),
            },
    )
}

/// The ports that the declarations give, in order.
pub open spec fn declared_ports(decls: Seq<PortDecl>, params: Seq<Param>) -> Seq<DeclaredPort>
    decreases decls.len(),
{
    if decls.len() == 0 {
        Seq::empty()
    } else {
        declared_ports(decls.drop_last(), params) + ports_of(decls.last(), params)
    }
}

/// The ports as declarations give them.
pub open spec fn declared(ports: Seq<VerilogPort>) -> Seq<DeclaredPort> {
    Seq::new(
        ports.len(),
        |i: int| DeclaredPort { dir: ports[i].inout, name: ports[i].name@, width: ports[i].width@ },
    )
}

/// Every port is new: an instance port that is well formed, bound to
/// nothing and not checked.
pub open spec fn all_new(ports: Seq<VerilogPort>) -> bool {
    forall|i: int|
        0 <= i < ports.len() ==> {
            &&& (#[trigger] ports[i]).wf()
            &&& ports[i].fragments() == seq![Fragment::NONE]
            &&& !ports[i].top
            &&& !ports[i].health_checked
            &&& !ports[i].undefine_registered
            &&& ports[i].has_undefine == 0
        }
}

fn literal(text: &str) -> (r: Width)
    ensures
        r@ == WidthFacts::Symbolic(text@, 0),
{
    Width::literal(text)
}

/// Lowers the source of a module into the model.
#[derive(Debug)]
pub struct VerilogParser {
    pub file: String,
    pub includes: Vec<String>,
    pub parse_res: Option<Vec<ModuleDecl>>,
    pub module_info: Vec<VerilogModule>,
}

impl VerilogParser {
    /// A parser for the source file `file`.
    pub fn new(file: String) -> (r: VerilogParser)
        ensures
            r.file == file,
            r.includes@.len() == 0,
            r.parse_res is None,
            r.module_info@.len() == 0,
    {
        VerilogParser { file, includes: Vec::new(), parse_res: None, module_info: Vec::new() }
    }

    /// Adds directories in which included files are looked for.
    pub fn add_includes(self, includes: Vec<String>) -> (r: VerilogParser)
        ensures
            r.includes@ == self.includes@ + includes@,
            r.file == self.file,
            r.parse_res == self.parse_res,
            r.module_info == self.module_info,
    {
        let mut this = self;
        let mut includes = includes;
        this.includes.append(&mut includes);
        this
    }

    /// Takes the declarations that parsing the source gave.
    pub fn with_tree(self, tree: Vec<ModuleDecl>) -> (r: VerilogParser)
        ensures
            r.parse_res == Some(tree),
            r.file == self.file,
            r.includes == self.includes,
            r.module_info == self.module_info,
    {
        let mut this = self;
        this.parse_res = Some(tree);
        this
    }

    /// Lowers the declarations, where there are any.
    pub fn solve(self) -> (r: VerilogParser)
        ensures
            r.file == self.file,
            r.includes == self.includes,
            r.parse_res == self.parse_res,
            match self.parse_res {
                Some(tree) => lowered_modules(r.module_info@.skip(self.module_info@.len() as int), tree@)
                    && r.module_info@.take(self.module_info@.len() as int) == self.module_info@,
                None => r.module_info == self.module_info,
            },
    {
        let mut this = self;
        this.extract_module();
        this
    }

    /// The modules lowered so far.
    pub fn get_module_info(self) -> (r: Vec<VerilogModule>)
        ensures
            r == self.module_info,
    {
        self.module_info
    }

    /// Lowers each declaration into a module and adds it to the modules
    /// lowered so far.
    pub fn extract_module(&mut self)
        ensures
            final(self).file == old(self).file,
            final(self).includes == old(self).includes,
            final(self).parse_res == old(self).parse_res,
            match old(self).parse_res {
                Some(tree) => lowered_modules(
                    final(self).module_info@.skip(old(self).module_info@.len() as int),
                    tree@,
                ) && final(self).module_info@.take(old(self).module_info@.len() as int) == old(
                    self,
                ).module_info@,
                None => final(self).module_info == old(self).module_info,
            },
    {
        let ghost base = self.module_info@;
        match &self.parse_res {
            None => {},
            Some(tree) => {
                let mut i: usize = 0;
                proof {
                    assert(self.module_info@.skip(base.len() as int) =~= Seq::<
                        VerilogModule,
                    >::empty());
                    assert(self.module_info@.take(base.len() as int) =~= base);
                }
                while i < tree.len()
                    invariant
                        i <= tree@.len(),
                        base == old(self).module_info@,
                        self.parse_res == old(self).parse_res,
                        self.file == old(self).file,
                        self.includes == old(self).includes,
                        self.module_info@.len() == base.len() + i,
                        self.module_info@.take(base.len() as int) == base,
                        lowered_modules(
                            self.module_info@.skip(base.len() as int),
                            tree@.take(i as int),
                        ),
                    decreases tree@.len() - i,
                {
                    let ghost prev = self.module_info@;
                    let module = Self::lower_module(&tree[i]);
                    self.module_info.push(module);
                    proof {
                        let now = self.module_info@;
                        assert(now.take(base.len() as int) =~= prev.take(base.len() as int));
                        let added = now.skip(base.len() as int);
                        let before = prev.skip(base.len() as int);
                        assert(added =~= before.push(module));
                        assert forall|k: int| 0 <= k < added.len() implies lowered_module(
                            #[trigger] added[k],
                            tree@.take(i + 1)[k],
                        ) by {
                            if k < before.len() {
                                assert(added[k] == before[k]);
                                assert(tree@.take(i as int)[k] == tree@.take(i + 1)[k]);
                            }
                        }
                    }
                    i += 1;
                }
                assert(tree@.take(tree@.len() as int) =~= tree@);
            },
        }
    }

    /// The module that a declaration gives.
    pub fn lower_module(decl: &ModuleDecl) -> (r: VerilogModule)
        ensures
            lowered_module(r, *decl),
    {
        let module_name = match &decl.name {
            Some(s) => s.clone(),
            None => String::from_str(""),
        };
        let mut module = VerilogModule::new(module_name);
        let params = Self::extract_params(&decl.params);
        let ports = Self::extract_ports(&decl.ports, &params);
        let mut wrapped: Vec<crate::data::VerilogData<VerilogPort>> = Vec::new();
        let mut ports = ports;
        let ghost all = ports@;
        let mut rest: Vec<VerilogPort> = Vec::new();
        // The ports are taken from the back and put back in order.
        while ports.len() > 0
            invariant
                ports@.len() + rest@.len() == all.len(),
                ports@ == all.take(ports@.len() as int),
                forall|k: int|
                    0 <= k < rest@.len() ==> rest@[k] == all[all.len() - 1 - k],
            decreases ports@.len(),
        {
            let p = ports.pop().unwrap();
            rest.push(p);
        }
        while rest.len() > 0
            invariant
                wrapped@.len() + rest@.len() == all.len(),
                forall|k: int|
                    0 <= k < rest@.len() ==> rest@[k] == all[all.len() - 1 - k],
                forall|k: int|
                    0 <= k < wrapped@.len() ==> (#[trigger] wrapped@[k])
                        == crate::data::VerilogData::Raw(all[k]),
            decreases rest@.len(),
        {
            let p = rest.pop().unwrap();
            wrapped.push(crate::data::VerilogData::Raw(p));
        }
        module.add_ports(wrapped);
        module.add_param_list(params);
        proof {
            let list = module.port_list@;
            assert(list.len() == all.len());
            assert(raw_ports(list) =~= all);
            assert(module.param_list@ =~= declared_params(decl.params@));
        }
        module
    }

    /// The parameters that the declarations give.
    pub fn extract_params(decls: &Vec<ParamDecl>) -> (r: Vec<Param>)
        ensures
            r@ == declared_params(decls@),
    {
        let mut params: Vec<Param> = Vec::new();
        let mut i: usize = 0;
        assert(decls@.take(0) =~= Seq::<ParamDecl>::empty());
        while i < decls.len()
            invariant
                i <= decls@.len(),
                params@ == declared_params(decls@.take(i as int)),
            decreases decls@.len() - i,
        {
            proof {
                assert(decls@.take(i + 1).drop_last() =~= decls@.take(i as int));
                assert(decls@.take(i + 1).last() == decls@[i as int]);
            }
            match (&decls[i].name, &decls[i].value) {
                (Some(n), Some(e)) => {
                    let value = Self::extract_expr(e).width_from(&params).width();
                    let ghost before = params@;
                    params.push(Param::new(n.clone(), value));
                    assert(params@ =~= before.push(
                        Param { name: *n, value: Box::new(ParamValue::Value(value)) },
                    ));
                },
                _ => {},
            }
            i += 1;
        }
        assert(decls@.take(decls@.len() as int) =~= decls@);
        params
    }

    /// The ports that the declarations give, their widths evaluated
    /// under `params`.
    pub fn extract_ports(decls: &Vec<PortDecl>, params: &Vec<Param>) -> (r: Vec<VerilogPort>)
        ensures
            declared(r@) == declared_ports(decls@, params@),
            all_new(r@),
    {
        let mut port_list: Vec<VerilogPort> = Vec::new();
        let mut i: usize = 0;
        proof {
            assert(decls@.take(0) =~= Seq::<PortDecl>::empty());
            assert(declared(port_list@) =~= Seq::<DeclaredPort>::empty());
        }
        while i < decls.len()
            invariant
                i <= decls@.len(),
                declared(port_list@) == declared_ports(decls@.take(i as int), params@),
                all_new(port_list@),
            decreases decls@.len() - i,
        {
            let d = &decls[i];
            proof {
                assert(decls@.take(i + 1).drop_last() =~= decls@.take(i as int));
                assert(decls@.take(i + 1).last() == *d);
            }
            let inout = Self::get_direction(&d.direction);
            let width = Self::get_port_width(&d.range).width_from(params);
            let ghost done = declared(port_list@);
            let ghost target = ports_of(*d, params@);
            let mut j: usize = 0;
            assert(declared(port_list@) =~= done + target.take(0));
            while j < d.names.len()
                invariant
                    j <= d.names@.len(),
                    target == ports_of(*d, params@),
                    inout == direction_of(d.direction),
                    width@ == under(range_width(d.range), params@),
                    declared(port_list@) == done + target.take(j as int),
                    all_new(port_list@),
                decreases d.names@.len() - j,
            {
                let port_name = match &d.names[j] {
                    Some(s) => s.clone(),
                    None => String::from_str(""),
                };
                let ghost prev = port_list@;
                let ghost before = declared(port_list@);
                let port_inst = VerilogPort::new(inout, port_name.as_str(), width.duplicate());
                port_list.push(port_inst);
                proof {
                    let now = port_list@;
                    assert(declared(now) =~= before.push(target[j as int]));
                    assert forall|k: int| 0 <= k < now.len() implies {
                        &&& (#[trigger] now[k]).wf()
                        &&& now[k].fragments() == seq![Fragment::NONE]
                        &&& !now[k].top
                        &&& !now[k].health_checked
                        &&& !now[k].undefine_registered
                        &&& now[k].has_undefine == 0
                    } by {
                        if k < prev.len() {
                            assert(now[k] == prev[k]);
                        }
                    }
                }
                j += 1;
                assert(declared(port_list@) =~= done + target.take(j as int));
            }
            assert(target.take(target.len() as int) =~= target);
            i += 1;
        }
        assert(decls@.take(decls@.len() as int) =~= decls@);
        port_list
    }

    /// The width of a port from its range.
    pub fn get_port_width(range: &Option<(ConstExpr, ConstExpr)>) -> (r: Width)
        ensures
            r@ == range_width(*range),
    {
        match range {
            None => Width::RawWidth(1),
            Some((upper, lower)) => {
                if Self::minus_one(upper) && Self::zero(lower) {
                    match upper {
                        ConstExpr::Binary(x, _, _) => Self::extract_expr(x),
                        _ => Width::RawWidth(1),
                    }
                } else {
                    let upper = Self::extract_expr(upper);
                    let lower = Self::extract_expr(lower);
                    upper.minus(lower).plus_int(1)
                }
            },
        }
    }

    fn minus_one(e: &ConstExpr) -> (r: bool)
        ensures
            r == is_minus_one(*e),
    {
        match e {
            ConstExpr::Binary(_, Some(op), r) => {
                if *op == String::from_str("-") {
                    match &**r {
                        ConstExpr::Primary(Literal::Decimal(one)) => *one == String::from_str("1"),
                        _ => false,
                    }
                } else {
                    false
                }
            },
            _ => false,
        }
    }

    fn zero(e: &ConstExpr) -> (r: bool)
        ensures
            r == is_zero(*e),
    {
        match e {
            ConstExpr::Primary(Literal::Decimal(z)) => *z == String::from_str("0"),
            _ => false,
        }
    }

    /// The width that a constant expression stands for.
    pub fn extract_expr(expr: &ConstExpr) -> (r: Width)
        ensures
            r@ == lowered(*expr),
        decreases expr,
    {
        match expr {
            ConstExpr::Primary(t) => match Self::get_literal_string(t) {
                Some(w) => w,
                None => literal(""),
            },
            ConstExpr::Binary(l, op, r) => {
                let left = Self::extract_expr(l);
                let right = Self::extract_expr(r);
                let op = match op {
                    Some(s) => s.clone(),
                    None => String::from_str(""),
                };
                Self::combine(left, op, right)
            },
            ConstExpr::Unary => literal(""),
            ConstExpr::Ternary => literal(""),
            ConstExpr::Unsupported => literal(""),
        }
    }

    /// Two widths with an operator between them.
    pub fn combine(left: Width, op: String, right: Width) -> (r: Width)
        ensures
            r@ == combined(left@, op@, right@),
    {
        match (&left, &right) {
            (Width::RawWidth(x), Width::RawWidth(y)) => {
                if op == String::from_str("+") && *x <= usize::MAX - *y {
                    return Width::RawWidth(*x + *y);
                }
                if op == String::from_str("-") {
                    return if *x >= *y {
                        Width::RawWidth(*x - *y)
                    } else {
                        Width::RawWidth(0)
                    };
                }
            },
            _ => {},
        }
        let mut text = left.to_string();
        text.append(op.as_str());
        text.append(right.to_string().as_str());
        assert(text@ =~= left@.shown() + op@ + right@.shown());
        Width::LiteralWidth(text, 0)
    }

    /// The direction of a port from that of its declaration.
    pub fn get_direction(dir: &Option<DeclDirection>) -> (r: PortDir)
        ensures
            r == direction_of(*dir),
    {
        match dir {
            Some(DeclDirection::Inout) => PortDir::InOutPort,
            Some(DeclDirection::Input) => PortDir::InPort,
            Some(DeclDirection::Output) => PortDir::OutPort,
            Some(DeclDirection::Ref) => PortDir::Unknown,
            Some(DeclDirection::Interface) => PortDir::Unknown,
            None => PortDir::Unknown,
        }
    }

    /// The direction of a port declared in the header of its module.
    pub fn get_ansi_direction(dir: &DeclDirection) -> (r: PortDir)
        ensures
            r == direction_of(Some(*dir)),
    {
        match dir {
            DeclDirection::Input => PortDir::InPort,
            DeclDirection::Output => PortDir::OutPort,
            DeclDirection::Inout => PortDir::InOutPort,
            _ => PortDir::Unknown,
        }
    }

    /// The width that a literal stands for.
    pub fn get_literal_string(node: &Literal) -> (r: Option<Width>)
        ensures
            match r {
                Some(w) => literal_width(*node) == Some(w@),
                None => literal_width(*node) is None,
            },
    {
        match node {
            Literal::Decimal(n) => Self::get_dec_number_string(n),
            Literal::Binary(n) => Some(Self::get_bin_number_string(n)),
            Literal::Hex(n) => Some(Self::get_hex_number_string(n)),
            Literal::Octal => None,
            Literal::Identifier(n) => Some(Width::LiteralWidth(n.clone(), 0)),
            Literal::Unknown => None,
        }
    }

    /// The number that decimal digits write.
    pub fn get_dec_number_string(digits: &String) -> (r: Option<Width>)
        ensures
            match r {
                Some(w) => numeral(digits@, 10, usize::MAX as int) == Some(w@.value() as int)
                    && w is RawWidth,
                None => numeral(digits@, 10, usize::MAX as int) is None,
            },
    {
        match parse_radix(digits.as_str(), 10, usize::MAX as u128) {
            Some(v) => Some(Width::RawWidth(v as usize)),
            None => None,
        }
    }

    /// The number that binary digits write; one where they write none.
    pub fn get_bin_number_string(digits: &String) -> (r: Width)
        ensures
            r == Width::RawWidth(
                match numeral(digits@, 2, usize::MAX as int) {
                    Some(v) => v as usize,
                    None => 1,
                },
            ),
    {
        match parse_radix(digits.as_str(), 2, usize::MAX as u128) {
            Some(v) => Width::RawWidth(v as usize),
            None => Width::RawWidth(1),
        }
    }

    /// The number that hexadecimal digits write; one where they write
    /// none.
    pub fn get_hex_number_string(digits: &String) -> (r: Width)
        ensures
            r == Width::RawWidth(
                match numeral(digits@, 16, usize::MAX as int) {
                    Some(v) => v as usize,
                    None => 1,
                },
            ),
    {
        match parse_radix(digits.as_str(), 16, usize::MAX as u128) {
            Some(v) => Width::RawWidth(v as usize),
            None => Width::RawWidth(1),
        }
    }
}

/// The ports under the guards.
pub open spec fn raw_ports(list: Seq<crate::data::VerilogData<VerilogPort>>) -> Seq<VerilogPort> {
    Seq::new(list.len(), |i: int| list[i].raw())
}

/// `m` is the module that the declaration `d` gives: its name, empty
/// where it could not be read; its parameters; its ports, new and
/// without guards; no instance inside and no instance name.
pub open spec fn lowered_module(m: VerilogModule, d: ModuleDecl) -> bool {
    &&& m.module_name@ == match d.name {
        Some(s) => s@,
        None => ""@,
    }
    &&& m.inst_name is None
    &&& m.inst_list@.len() == 0
    &&& m.param_list@ == declared_params(d.params@)
    &&& declared(raw_ports(m.port_list@)) == declared_ports(d.ports@, declared_params(d.params@))
    &&& all_new(raw_ports(m.port_list@))
    &&& forall|i: int| 0 <= i < m.port_list@.len() ==> (#[trigger] m.port_list@[i]) is Raw
    &&& m.wf()
}

/// Each module is the one that the declaration at its place gives.
pub open spec fn lowered_modules(modules: Seq<VerilogModule>, decls: Seq<ModuleDecl>) -> bool {
    &&& modules.len() == decls.len()
    &&& forall|k: int| 0 <= k < modules.len() ==> lowered_module(#[trigger] modules[k], decls[k])
}

} // verus!
