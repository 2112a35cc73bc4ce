//! Ports: a direction, a name, a width, and the ordered fragments bound to
//! the port.
//!
//! A port registers the wires it is bound to in the wire registry, and
//! finds the widths of signals named without one: a single such signal
//! takes what the port has left, several are handed to the collector.
pub use crate::collector::UndefineWireCollector;
use crate::collector::coefficients;
use crate::collector::group_widths;
use crate::collector::lemma_coefficients;
use crate::collector::system;
use crate::solve_func::lemma_dot_same;
use crate::solve_func::range_dot;
use crate::solve_func::solves;
use crate::solve_func::widths;
use crate::text::dec_digits;
use crate::text::decimal;
use crate::text::decimal_usize;
use crate::text::first_index;
use crate::text::join;
use crate::text::join_spec;
use crate::text::lemma_first_index;
use crate::text::views;
use crate::width::Width;
use crate::wire::driven;
use crate::wire::loaded;
use crate::wire::state_or_fresh;
use crate::wire::VerilogWire;
use crate::wire::WireBuilder;
use crate::wire::WireState;
use std::ops::Range;
use std::sync::Arc;
use vstd::prelude::*;
use vstd::std_specs::cmp::PartialEqSpecImpl;

verus! {

/// The direction of a port.
#[derive(Debug, Clone, Copy, PartialEq, Eq, Structural, Hash)]
pub enum PortDir {
    InPort,
    OutPort,
    InOutPort,
    Unknown,
}

impl Default for PortDir {
    fn default() -> (r: PortDir)
        ensures
            r == PortDir::OutPort,
    {
        PortDir::OutPort
    }
}

impl PortDir {
    /// The keyword of the direction.
    pub open spec fn keyword(self) -> Seq<char> {
        match self {
            PortDir::InPort => "input"@,
            PortDir::OutPort => "output"@,
            PortDir::InOutPort => "inout"@,
            PortDir::Unknown => "unknown"@,
        }
    }

    /// The direction that a keyword names; `Unknown` for any other text.
    pub open spec fn of_keyword(text: Seq<char>) -> PortDir {
        if text == "input"@ {
            PortDir::InPort
        } else if text == "output"@ {
            PortDir::OutPort
        } else if text == "inout"@ {
            PortDir::InOutPort
        } else {
            PortDir::Unknown
        }
    }

    /// The keyword of the direction.
    pub fn to_string(&self) -> (r: String)
        ensures
            r@ == self.keyword(),
    {
        match self {
            PortDir::InPort => String::from_str("input"),
            PortDir::OutPort => String::from_str("output"),
            PortDir::InOutPort => String::from_str("inout"),
            PortDir::Unknown => String::from_str("unknown"),
        }
    }

    /// The direction that `value` names.
    pub fn from_keyword(value: &String) -> (r: PortDir)
        ensures
            r == PortDir::of_keyword(value@),
    {
        if *value == String::from_str("input") {
            PortDir::InPort
        } else if *value == String::from_str("output") {
            PortDir::OutPort
        } else if *value == String::from_str("inout") {
            PortDir::InOutPort
        } else {
            PortDir::Unknown
        }
    }

    /// Whether the port can read: every direction but `OutPort`.
    pub fn is_in(&self) -> (r: bool)
        ensures
            r == (*self != PortDir::OutPort),
    {
        match self {
            PortDir::OutPort => false,
            _ => true,
        }
    }

    /// Whether the port can drive: every direction but `InPort`.
    pub fn is_out(&self) -> (r: bool)
        ensures
            r == (*self != PortDir::InPort),
    {
        match self {
            PortDir::InPort => false,
            _ => true,
        }
    }
}

/// One thing bound to a port.
#[derive(Debug)]
pub enum VerilogValue {
    /// The bits `range` of a wire.
    Wire(Arc<VerilogWire>, Range<usize>),
    /// A signal named without a width.
    UndefinedWire(String),
    /// A sized constant.
    Number { width: u8, value: u128 },
    /// The placeholder at position zero of every port.
    NONE,
}

/// A `VerilogValue` as plain values.
pub enum Fragment {
    Wire(Seq<char>, int, int),
    Undefined(Seq<char>),
    Number(int, int),
    NONE,
}

impl View for VerilogValue {
    type V = Fragment;

    open spec fn view(&self) -> Fragment {
        match *self {
            VerilogValue::Wire(w, r) => Fragment::Wire(w.name@, r.start as int, r.end as int),
            VerilogValue::UndefinedWire(s) => Fragment::Undefined(s@),
            VerilogValue::Number { width, value } => Fragment::Number(width as int, value as int),
            VerilogValue::NONE => Fragment::NONE,
        }
    }
}

impl Fragment {
    /// The bits the fragment takes of its port: the length of a slice, the
    /// width of a constant, nothing for a signal without a width.
    pub open spec fn bits(self) -> int {
        match self {
            Fragment::Wire(_, lo, hi) => if hi >= lo {
                hi - lo
            } else {
                0
            },
            Fragment::Number(w, _) => w,
            _ => 0,
        }
    }

    /// The name of the signal, empty for a fragment that names none.
    pub open spec fn name(self) -> Seq<char> {
        match self {
            Fragment::Wire(n, _, _) => n,
            Fragment::Undefined(n) => n,
            _ => ""@,
        }
    }

    /// How the fragment is written: a name with its range `[hi:lo]`, the
    /// range left out where the slice ends at bit 0; a bare name; a
    /// constant as `W'dV`; nothing for the placeholder.
    pub open spec fn text(self) -> Seq<char> {
        match self {
            Fragment::Wire(n, lo, hi) => if hi <= 1 {
                n
            } else {
                n + "["@ + dec_digits((hi - 1) as nat) + ":"@ + dec_digits(lo as nat) + "]"@
            },
            Fragment::Undefined(n) => n,
            Fragment::Number(w, v) => dec_digits(w as nat) + "'d"@ + dec_digits(v as nat),
            Fragment::NONE => ""@,
        }
    }
}

impl VerilogValue {
    /// Whether the fragment is the placeholder.
    pub fn is_none(&self) -> (r: bool)
        ensures
            r == (self@ is NONE),
    {
        match self {
            VerilogValue::NONE => true,
            _ => false,
        }
    }

    /// Whether the fragment is a signal without a width.
    pub fn is_undefine(&self) -> (r: bool)
        ensures
            r == (self@ is Undefined),
    {
        match self {
            VerilogValue::UndefinedWire(_) => true,
            _ => false,
        }
    }

    /// The name of the signal, empty for a fragment that names none.
    pub fn get_name(&self) -> (r: &str)
        ensures
            r@ == self@.name(),
    {
        match self {
            VerilogValue::UndefinedWire(s) => s.as_str(),
            VerilogValue::Wire(w, _) => w.name.as_str(),
            _ => "",
        }
    }

    /// How the fragment is written.
    pub fn to_string(&self) -> (r: String)
        ensures
            r@ == self@.text(),
    {
        match self {
            VerilogValue::Wire(wire, range) => {
                if range.end <= 1 {
                    wire.name.clone()
                } else {
                    let mut s = wire.name.clone();
                    s.append("[");
                    s.append(decimal_usize(range.end - 1).as_str());
                    s.append(":");
                    s.append(decimal_usize(range.start).as_str());
                    s.append("]");
                    s
                }
            },
            VerilogValue::UndefinedWire(s) => s.clone(),
            VerilogValue::Number { width, value } => {
                let mut s = decimal(*width as u128);
                s.append("'d");
                s.append(decimal(*value).as_str());
                s
            },
            VerilogValue::NONE => String::from_str(""),
        }
    }

    /// A copy of the fragment.
    pub fn duplicate(&self) -> (r: VerilogValue)
        ensures
            r@ == self@,
    {
        match self {
            VerilogValue::Wire(w, range) => VerilogValue::Wire(
                Arc::new(VerilogWire { name: w.name.clone(), port_tag: w.port_tag }),
                Range { start: range.start, end: range.end },
            ),
            VerilogValue::UndefinedWire(s) => VerilogValue::UndefinedWire(s.clone()),
            VerilogValue::Number { width, value } => VerilogValue::Number {
                width: *width,
                value: *value,
            },
            VerilogValue::NONE => VerilogValue::NONE,
        }
    }
}

/// The fragments of a list of values.
pub open spec fn fragments_of(signals: Seq<VerilogValue>) -> Seq<Fragment> {
    Seq::new(signals.len(), |i: int| signals[i]@)
}

/// The bits that the fragments take together.
pub open spec fn total_bits(frags: Seq<Fragment>) -> int
    decreases frags.len(),
{
    if frags.len() == 0 {
        0
    } else {
        total_bits(frags.drop_last()) + frags.last().bits()
    }
}

/// The number of signals without a width among the fragments.
pub open spec fn undefined_count(frags: Seq<Fragment>) -> int
    decreases frags.len(),
{
    if frags.len() == 0 {
        0
    } else {
        undefined_count(frags.drop_last()) + if frags.last() is Undefined {
            1int
        } else {
            0int
        }
    }
}

/// `p` is the place of the first signal without a width.
pub open spec fn is_first_undefined(frags: Seq<Fragment>, p: int) -> bool {
    &&& 0 <= p < frags.len()
    &&& frags[p] is Undefined
    &&& forall|j: int| 0 <= j < p ==> !(#[trigger] frags[j] is Undefined)
}

/// The place of the first signal without a width.
pub open spec fn first_undefined(frags: Seq<Fragment>) -> int {
    choose|p: int| is_first_undefined(frags, p)
}

proof fn lemma_first_undefined(frags: Seq<Fragment>, p: int)
    requires
        is_first_undefined(frags, p),
    ensures
        first_undefined(frags) == p,
{
    let q = first_undefined(frags);
    if q < p {
        assert(!(frags[q] is Undefined));
    } else if p < q {
        assert(!(frags[p] is Undefined));
    }
}

/// There are no more signals without a width than fragments.
pub proof fn lemma_count_bounds(frags: Seq<Fragment>)
    ensures
        0 <= undefined_count(frags) <= frags.len(),
    decreases frags.len(),
{
    if frags.len() > 0 {
        lemma_count_bounds(frags.drop_last());
    }
}

/// Replacing one fragment changes the totals by what the two fragments
/// differ in.
proof fn lemma_update_totals(frags: Seq<Fragment>, p: int, f: Fragment)
    requires
        0 <= p < frags.len(),
    ensures
        total_bits(frags.update(p, f)) == total_bits(frags) - frags[p].bits() + f.bits(),
        undefined_count(frags.update(p, f)) == undefined_count(frags) - (if frags[p]
            is Undefined {
            1int
        } else {
            0int
        }) + (if f is Undefined {
            1int
        } else {
            0int
        }),
    decreases frags.len(),
{
    let g = frags.update(p, f);
    if p == frags.len() - 1 {
        assert(g.drop_last() =~= frags.drop_last());
    } else {
        assert(g.drop_last() =~= frags.drop_last().update(p, f));
        lemma_update_totals(frags.drop_last(), p, f);
    }
}

/// Appending a fragment adds its bits to the total.
proof fn lemma_push_totals(frags: Seq<Fragment>, f: Fragment)
    ensures
        total_bits(frags.push(f)) == total_bits(frags) + f.bits(),
        undefined_count(frags.push(f)) == undefined_count(frags) + (if f is Undefined {
            1int
        } else {
            0int
        }),
{
    assert(frags.push(f).drop_last() =~= frags);
}

/// How a port stands to the wires it is bound to.
#[derive(Debug, Clone, Copy, PartialEq, Eq, Structural)]
pub enum Role {
    /// An output of an instance: it drives its wires.
    Drive,
    /// Any other port of an instance: it reads its wires.
    Load,
    /// An input of the enclosing module: it drives its wires, which are
    /// ports and need no declaration.
    PortDrive,
    /// Any other port of the enclosing module: it reads its wires.
    PortLoad,
}

/// The role of a port of direction `dir`, of the enclosing module if
/// `top` and of an instance otherwise.
pub open spec fn role_of(dir: PortDir, top: bool) -> Role {
    if top {
        match dir {
            PortDir::InPort => Role::PortDrive,
            _ => Role::PortLoad,
        }
    } else {
        match dir {
            PortDir::OutPort => Role::Drive,
            _ => Role::Load,
        }
    }
}

/// The registry after a port in `role` is bound to the bits `lo..hi` of
/// `name`.
pub open spec fn bound(
    m: Map<Seq<char>, WireState>,
    role: Role,
    name: Seq<char>,
    lo: int,
    hi: int,
) -> Map<Seq<char>, WireState> {
    match role {
        Role::Drive => m.insert(name, driven(state_or_fresh(m, name, false), lo, hi)),
        Role::Load => m.insert(name, loaded(state_or_fresh(m, name, false), lo, hi)),
        Role::PortDrive => m.insert(name, driven(state_or_fresh(m, name, true), lo, hi)),
        Role::PortLoad => m.insert(name, loaded(state_or_fresh(m, name, true), lo, hi)),
    }
}

/// The fragments of a port together with the registry.
pub struct Wiring {
    pub frags: Seq<Fragment>,
    pub wires: Map<Seq<char>, WireState>,
}

/// The wiring after the signal at `pos` is given `width` bits: it becomes
/// the slice `0..width` of its wire, which the port is bound to. Nothing
/// changes where `pos` holds no signal without a width.
pub open spec fn resolve_at(w: Wiring, role: Role, pos: int, width: int) -> Wiring {
    if 0 <= pos < w.frags.len() && w.frags[pos] is Undefined {
        let name = w.frags[pos].name();
        Wiring {
            frags: w.frags.update(pos, Fragment::Wire(name, 0, width)),
            wires: bound(w.wires, role, name, 0, width),
        }
    } else {
        w
    }
}

/// The wiring after every slot is resolved with the width found for it;
/// a slot whose index has no width is left alone.
pub open spec fn refreshed(w: Wiring, role: Role, slots: Seq<(usize, usize)>, res: Seq<usize>)
    -> Wiring
    decreases slots.len(),
{
    if slots.len() == 0 {
        w
    } else {
        let before = refreshed(w, role, slots.drop_last(), res);
        let (pos, idx) = slots.last();
        if idx < res.len() {
            resolve_at(before, role, pos as int, res[idx as int] as int)
        } else {
            before
        }
    }
}

/// What enrolling the signals without a width gives: the names enrolled,
/// for each such signal its place and its index, and the indices alone.
pub struct Enrolment {
    pub names: Seq<Seq<char>>,
    pub slots: Seq<(usize, usize)>,
    pub group: Seq<usize>,
}

/// The signals without a width among `frags` enrolled, in order, with the
/// collector that knows `names`.
pub open spec fn enrolled(names: Seq<Seq<char>>, frags: Seq<Fragment>) -> Enrolment
    decreases frags.len(),
{
    if frags.len() == 0 {
        Enrolment { names, slots: Seq::empty(), group: Seq::empty() }
    } else {
        let e = enrolled(names, frags.drop_last());
        match frags.last() {
            Fragment::Undefined(n) => {
                let idx = first_index(e.names, n);
                Enrolment {
                    names: if idx < e.names.len() {
                        e.names
                    } else {
                        e.names.push(n)
                    },
                    slots: e.slots.push(((frags.len() - 1) as usize, idx as usize)),
                    group: e.group.push(idx as usize),
                }
            },
            _ => e,
        }
    }
}

/// `v` brought into the range of `i64`.
pub open spec fn clamped(v: int) -> i64 {
    if v < i64::MIN {
        i64::MIN
    } else if v > i64::MAX {
        i64::MAX
    } else {
        v as i64
    }
}

/// What the check of a port found.
#[derive(Debug, Clone, Copy, PartialEq, Eq, Structural)]
pub enum PortHealth {
    /// The fragments fill the port exactly.
    Connected,
    /// The fragments leave bits of the port unbound.
    UnderConnected { declared: usize, actual: u128 },
    /// The fragments take more bits than the port has, or leave none for
    /// a signal that needs some.
    OverConnected { declared: usize, actual: u128 },
    /// The port waits for the widths of several signals.
    Deferred,
}

/// The finding for a port of `declared` bits whose fragments take
/// `actual`.
pub open spec fn health_of(declared: usize, actual: int) -> PortHealth {
    if actual == declared {
        PortHealth::Connected
    } else if actual < declared {
        PortHealth::UnderConnected { declared, actual: actual as u128 }
    } else {
        PortHealth::OverConnected { declared, actual: actual as u128 }
    }
}

/// A port as plain values.
pub struct PortModel {
    pub dir: PortDir,
    /// Whether the port belongs to the enclosing module.
    pub top: bool,
    pub name: Seq<char>,
    /// The number of bits the port is declared with.
    pub declared: usize,
    pub frags: Seq<Fragment>,
    /// How many of the fragments are signals without a width.
    pub pending: usize,
    pub slots: Seq<(usize, usize)>,
    pub checked: bool,
    pub registered: bool,
}

/// The registry and the collector as plain values: what a check of a
/// port reads and changes besides the port.
pub struct World {
    pub wires: Map<Seq<char>, WireState>,
    pub names: Seq<Seq<char>>,
    pub groups: Seq<Seq<usize>>,
    pub values: Seq<i64>,
    pub res: Seq<usize>,
}

/// The registry and the collector as one world.
pub open spec fn world(wires: WireBuilder, c: UndefineWireCollector) -> World {
    World {
        wires: wires@,
        names: c.names(),
        groups: c.groups(),
        values: c.value@,
        res: c.res@,
    }
}

/// What one check makes of a port and the world, and what it finds.
///
/// A port checked before is only reported. A port with no signal without
/// a width is marked and reported. One such signal takes the bits the
/// port has left, as the slice `0..left` of its wire; where nothing is
/// left the port is reported as over connected and stays unchecked.
/// Several are enrolled, with the port's equation, by the first check,
/// and rewritten with the widths of the world by the second.
pub open spec fn checked(p: PortModel, w: World) -> (PortModel, World, PortHealth) {
    let total = total_bits(p.frags);
    if p.checked {
        (p, w, health_of(p.declared, total))
    } else if p.pending == 0 {
        (PortModel { checked: true, ..p }, w, health_of(p.declared, total))
    } else if p.pending == 1 {
        if total < p.declared {
            let r = resolve_at(
                Wiring { frags: p.frags, wires: w.wires },
                role_of(p.dir, p.top),
                first_undefined(p.frags),
                p.declared - total,
            );
            (
                PortModel { frags: r.frags, pending: 0, checked: true, ..p },
                World { wires: r.wires, ..w },
                PortHealth::Connected,
            )
        } else {
            (p, w, PortHealth::OverConnected { declared: p.declared, actual: total as u128 })
        }
    } else if !p.registered {
        let e = enrolled(w.names, p.frags);
        (
            PortModel { slots: p.slots + e.slots, registered: true, ..p },
            World {
                names: e.names,
                groups: w.groups.push(e.group),
                values: w.values.push(clamped(p.declared - total)),
                ..w
            },
            PortHealth::Deferred,
        )
    } else {
        let r = refreshed(
            Wiring { frags: p.frags, wires: w.wires },
            role_of(p.dir, p.top),
            p.slots,
            w.res,
        );
        let pending = undefined_count(r.frags) as usize;
        (
            PortModel { frags: r.frags, pending, checked: true, ..p },
            World { wires: r.wires, ..w },
            if pending > 1 {
                PortHealth::Deferred
            } else {
                health_of(p.declared, total_bits(r.frags))
            },
        )
    }
}

/// What registering a port of the enclosing module makes of the port and
/// the world: a port with fragments is checked; one without is marked
/// as checked, and its name is registered as a port wire over the whole
/// width, driven by an input and read by any other port.
pub open spec fn registered_as_wire(p: PortModel, w: World) -> (
    PortModel,
    World,
    Option<PortHealth>,
) {
    if p.frags.len() > 1 {
        let (q, v, r) = checked(p, w);
        (q, v, Some(r))
    } else {
        (
            PortModel { checked: true, ..p },
            World {
                wires: match p.dir {
                    PortDir::InPort => w.wires.insert(
                        p.name,
                        driven(state_or_fresh(w.wires, p.name, true), 0, p.declared as int),
                    ),
                    _ => w.wires.insert(
                        p.name,
                        loaded(state_or_fresh(w.wires, p.name, true), 0, p.declared as int),
                    ),
                },
                ..w
            },
            None,
        )
    }
}

/// After a check either more than one signal still waits for its width,
/// or the fragments fill the port exactly, or the finding says that they
/// do not.
pub proof fn lemma_checked_health(p: PortModel, w: World)
    requires
        p.pending == undefined_count(p.frags),
        0 <= total_bits(p.frags),
    ensures
        ({
            let (q, _, r) = checked(p, w);
            q.pending > 1 || total_bits(q.frags) == q.declared || r is UnderConnected || r
                is OverConnected
        }),
{
    let total = total_bits(p.frags);
    if !p.checked && p.pending == 1 && total < p.declared {
        lemma_one_undefined(p.frags);
        let pos = first_undefined(p.frags);
        lemma_update_totals(
            p.frags,
            pos,
            Fragment::Wire(p.frags[pos].name(), 0, p.declared - total),
        );
    }
}

proof fn lemma_one_undefined(frags: Seq<Fragment>)
    requires
        undefined_count(frags) >= 1,
    ensures
        is_first_undefined(frags, first_undefined(frags)),
    decreases frags.len(),
{
    if forall|j: int| 0 <= j < frags.len() ==> !(#[trigger] frags[j] is Undefined) {
        lemma_no_undefined(frags);
    } else {
        let j = choose|j: int| 0 <= j < frags.len() && (#[trigger] frags[j] is Undefined);
        lemma_least_undefined(frags, j);
    }
}

proof fn lemma_least_undefined(frags: Seq<Fragment>, j: int)
    requires
        0 <= j < frags.len(),
        frags[j] is Undefined,
    ensures
        exists|p: int| is_first_undefined(frags, p),
    decreases j,
{
    if forall|i: int| 0 <= i < j ==> !(#[trigger] frags[i] is Undefined) {
        assert(is_first_undefined(frags, j));
    } else {
        let i = choose|i: int| 0 <= i < j && (#[trigger] frags[i] is Undefined);
        lemma_least_undefined(frags, i);
    }
}

/// A port of a module.
#[derive(Debug)]
pub struct VerilogPort {
    pub inout: PortDir,
    /// Whether the port belongs to the enclosing module rather than to an
    /// instance inside it.
    pub top: bool,
    pub name: String,
    pub width: Width,
    pub info: String,
    /// The fragments bound to the port, after the placeholder at position
    /// zero, most significant first.
    pub signals: Vec<VerilogValue>,
    /// How many of the fragments are signals without a width.
    pub has_undefine: usize,
    /// For each enrolled signal its place among the fragments and its
    /// index in the collector.
    pub undefine_wires_idx: Vec<(usize, usize)>,
    pub health_checked: bool,
    pub undefine_registered: bool,
}

impl PartialEq for VerilogPort {
    fn eq(&self, other: &Self) -> (r: bool) {
        (self.inout == other.inout) && (self.width.width() == other.width.width()) && (self.name
            == other.name)
    }
}

impl PartialEqSpecImpl for VerilogPort {
    open spec fn obeys_eq_spec() -> bool {
        true
    }

    open spec fn eq_spec(&self, other: &Self) -> bool {
        self.same_port(*other)
    }
}

impl Eq for VerilogPort {

}

/// The text that binds a port to its signals in an instance:
/// `.name(signals)`, indented, with a comma unless it is the last.
pub open spec fn binding_line(name: Seq<char>, signal: Seq<char>, is_last: bool) -> Seq<char> {
    "    ."@ + name + "("@ + signal + ")"@ + if is_last {
        ""@
    } else {
        ","@
    }
}

/// The range of a declaration: `[W-1:0]` and a space for more than one
/// bit, the upper bound worked out for a plain width and written out for
/// a symbolic one; nothing for one bit or none.
pub open spec fn range_text(width: Width) -> Seq<char> {
    if width.value() <= 1 {
        ""@
    } else {
        match width {
            Width::RawWidth(x) => "["@ + dec_digits((x - 1) as nat) + ":0] "@,
            Width::LiteralWidth(s, _) => "["@ + s@ + "-1:0] "@,
        }
    }
}

/// The declaration of a port: `direction wire [W-1:0] name`, indented,
/// with a comma unless it is the last.
pub open spec fn declaration_line(dir: PortDir, width: Width, name: Seq<char>, is_last: bool)
    -> Seq<char> {
    "    "@ + dir.keyword() + " wire "@ + range_text(width) + name + if is_last {
        ""@
    } else {
        ","@
    }
}

/// The assignment of a concatenation to a port.
pub open spec fn assign_line(name: Seq<char>, signal: Seq<char>) -> Seq<char> {
    "    assign "@ + name + " = "@ + signal + ";"@
}

/// How the fragments of a port are written: nothing for the placeholder
/// alone, one fragment as it is, several in braces with `, ` between.
pub open spec fn signal_text(frags: Seq<Fragment>) -> Seq<char> {
    if frags.len() <= 1 {
        ""@
    } else if frags.len() == 2 {
        frags[1].text()
    } else {
        "{"@ + join_spec(Seq::new((frags.len() - 1) as nat, |i: int| frags[i + 1].text()), ", "@)
            + "}"@
    }
}

impl View for VerilogPort {
    type V = PortModel;

    open spec fn view(&self) -> PortModel {
        PortModel {
            dir: self.inout,
            top: self.top,
            name: self.name@,
            declared: self.width.value(),
            frags: self.fragments(),
            pending: self.has_undefine,
            slots: self.undefine_wires_idx@,
            checked: self.health_checked,
            registered: self.undefine_registered,
        }
    }
}

impl VerilogPort {
    /// The fragments of the port, the placeholder first.
    pub open spec fn fragments(&self) -> Seq<Fragment> {
        fragments_of(self.signals@)
    }

    /// The bits that the fragments take together.
    pub open spec fn connected(&self) -> int {
        total_bits(self.fragments())
    }

    /// Two ports are the same port if direction, name and number of bits
    /// agree.
    pub open spec fn same_port(self, other: VerilogPort) -> bool {
        self.inout == other.inout && self.width.value() == other.width.value() && self.name@
            == other.name@
    }

    /// The placeholder stands first, and the number of signals without a
    /// width is kept in `has_undefine`.
    pub open spec fn wf(&self) -> bool {
        &&& self.signals@.len() >= 1
        &&& self.signals@[0]@ is NONE
        &&& self.has_undefine == undefined_count(self.fragments())
    }

    /// A port with no fragment but the placeholder.
    pub fn new(inout: PortDir, name: &str, width: Width) -> (r: VerilogPort)
        ensures
            r.wf(),
            r.inout == inout,
            !r.top,
            r.name@ == name@,
            r.width == width,
            r.info@ == Seq::<char>::empty(),
            r.fragments() == seq![Fragment::NONE],
            r.has_undefine == 0,
            r.undefine_wires_idx@.len() == 0,
            !r.health_checked,
            !r.undefine_registered,
    {
        let mut signals: Vec<VerilogValue> = Vec::new();
        signals.push(VerilogValue::NONE);
        let r = VerilogPort {
            inout,
            top: false,
            name: String::from_str(name),
            width,
            info: String::new(),
            signals,
            has_undefine: 0,
            undefine_wires_idx: Vec::new(),
            health_checked: false,
            undefine_registered: false,
        };
        proof {
            assert(r.fragments() =~= seq![Fragment::NONE]);
            lemma_placeholder_alone();
        }
        r
    }

    /// How the port stands to the wires it is bound to.
    pub open spec fn role(&self) -> Role {
        role_of(self.inout, self.top)
    }

    /// Says whether the port belongs to the enclosing module.
    pub fn set_top(&mut self, top: bool)
        ensures
            *final(self) == (VerilogPort { top, ..*old(self) }),
    {
        self.top = top;
    }

    /// Sets the comment of the port.
    pub fn set_info_msg(&mut self, msg: &str)
        ensures
            final(self).info@ == msg@,
            *final(self) == (VerilogPort { info: final(self).info, ..*old(self) }),
    {
        self.info = String::from_str(msg);
    }

    /// Binds the port to the bits `range` of `sig` in the registry: an
    /// output drives them, any other port reads them.
    pub fn connect_wire(&self, wires: &mut WireBuilder, sig: &str, range: &Range<usize>) -> (r:
        Arc<VerilogWire>)
        requires
            old(wires).wf(),
        ensures
            final(wires).wf(),
            final(wires)@ == bound(
                old(wires)@,
                self.role(),
                sig@,
                range.start as int,
                range.end as int,
            ),
            r.name@ == sig@,
    {
        if self.top {
            match self.inout {
                PortDir::InPort => wires.add_driver_wire_asport(sig, range),
                _ => wires.add_load_wire_asport(sig, range),
            }
        } else {
            match self.inout {
                PortDir::OutPort => wires.add_driver_wire(sig, range),
                _ => wires.add_load_wire(sig, range),
            }
        }
    }

    /// Binds the port to a signal of its own name, without a width.
    pub fn connect_self(&mut self)
        requires
            old(self).wf(),
        ensures
            final(self).wf(),
            final(self).fragments() == old(self).fragments().push(
                Fragment::Undefined(old(self).name@),
            ),
            final(self).has_undefine == old(self).has_undefine + 1,
            *final(self) == (VerilogPort {
                signals: final(self).signals,
                has_undefine: final(self).has_undefine,
                ..*old(self)
            }),
    {
        let name = self.name.clone();
        self.connect_undefined_signal(name.as_str());
    }

    /// Appends a signal without a width.
    pub fn connect_undefined_signal(&mut self, sig: &str)
        requires
            old(self).wf(),
        ensures
            final(self).wf(),
            final(self).fragments() == old(self).fragments().push(Fragment::Undefined(sig@)),
            final(self).has_undefine == old(self).has_undefine + 1,
            *final(self) == (VerilogPort {
                signals: final(self).signals,
                has_undefine: final(self).has_undefine,
                ..*old(self)
            }),
    {
        proof {
            lemma_push_totals(self.fragments(), Fragment::Undefined(sig@));
            lemma_count_bounds(self.fragments());
        }
        self.signals.push(VerilogValue::UndefinedWire(String::from_str(sig)));
        assert(self.fragments() =~= old(self).fragments().push(Fragment::Undefined(sig@)));
        assert(old(self).has_undefine < self.signals.len());
        self.has_undefine += 1;
    }

    /// Appends the bits `range` of the wire `sig`, and registers them.
    pub fn connect_partial_signal(
        &mut self,
        wires: &mut WireBuilder,
        sig: &str,
        range: &Range<usize>,
    )
        requires
            old(self).wf(),
            old(wires).wf(),
        ensures
            final(self).wf(),
            final(wires).wf(),
            final(wires)@ == bound(
                old(wires)@,
                old(self).role(),
                sig@,
                range.start as int,
                range.end as int,
            ),
            final(self).fragments() == old(self).fragments().push(
                Fragment::Wire(sig@, range.start as int, range.end as int),
            ),
            *final(self) == (VerilogPort { signals: final(self).signals, ..*old(self) }),
    {
        let wire = self.connect_wire(wires, sig, range);
        proof {
            lemma_push_totals(
                self.fragments(),
                Fragment::Wire(sig@, range.start as int, range.end as int),
            );
        }
        self.signals.push(VerilogValue::Wire(wire, Range { start: range.start, end: range.end }));
        assert(self.fragments() =~= old(self).fragments().push(
            Fragment::Wire(sig@, range.start as int, range.end as int),
        ));
    }

    /// Appends a constant of `num_bits` bits. No wire is registered: the
    /// constant only takes its bits of the port.
    pub fn connect_number_signal(&mut self, num_val: u128, num_bits: u8)
        requires
            old(self).wf(),
        ensures
            final(self).wf(),
            final(self).fragments() == old(self).fragments().push(
                Fragment::Number(num_bits as int, num_val as int),
            ),
            final(self).connected() == old(self).connected() + num_bits,
            *final(self) == (VerilogPort { signals: final(self).signals, ..*old(self) }),
    {
        proof {
            lemma_push_totals(self.fragments(), Fragment::Number(num_bits as int, num_val as int));
        }
        self.signals.push(VerilogValue::Number { width: num_bits, value: num_val });
        assert(self.fragments() =~= old(self).fragments().push(
            Fragment::Number(num_bits as int, num_val as int),
        ));
    }

    /// The bits that the fragments take together.
    pub fn get_connected_width(&self) -> (r: u128)
        ensures
            r == self.connected(),
    {
        let mut sum: u128 = 0;
        let mut i: usize = 0;
        let ghost frags = self.fragments();
        assert(frags.take(0) =~= Seq::<Fragment>::empty());
        while i < self.signals.len()
            invariant
                i <= self.signals@.len(),
                frags == self.fragments(),
                sum == total_bits(frags.take(i as int)),
                sum <= i * usize::MAX,
            decreases self.signals@.len() - i,
        {
            proof {
                assert(frags.take(i + 1).drop_last() =~= frags.take(i as int));
                assert(frags.take(i + 1).last() == self.signals@[i as int]@);
                assert((i + 1) * usize::MAX == i * usize::MAX + usize::MAX) by (nonlinear_arith);
                assert(i * usize::MAX <= usize::MAX * usize::MAX) by (nonlinear_arith)
                    requires
                        i <= usize::MAX,
                ;
                assert(usize::MAX * usize::MAX <= 0xffff_ffff_ffff_ffff * 0xffff_ffff_ffff_ffff)
                    by (nonlinear_arith)
                    requires
                        usize::MAX <= 0xffff_ffff_ffff_ffff,
                ;
            }
            match &self.signals[i] {
                VerilogValue::Wire(_, range) => {
                    if range.end >= range.start {
                        sum = sum + (range.end - range.start) as u128;
                    }
                },
                VerilogValue::Number { width, value: _value } => {
                    sum = sum + *width as u128;
                },
                _ => {},
            }
            i += 1;
        }
        assert(frags.take(frags.len() as int) =~= frags);
        sum
    }

    /// What the port's check finds as it stands.
    pub fn health(&self) -> (r: PortHealth)
        ensures
            r == health_of(self.width.value(), self.connected()),
    {
        let declared = self.width.width();
        let actual = self.get_connected_width();
        if actual == declared as u128 {
            PortHealth::Connected
        } else if actual < declared as u128 {
            PortHealth::UnderConnected { declared, actual }
        } else {
            PortHealth::OverConnected { declared, actual }
        }
    }

    /// Gives the signal at `position` the bits `0..width` of the wire
    /// `name`, and registers them.
    fn set_undefine_wire(
        &mut self,
        wires: &mut WireBuilder,
        name: &str,
        width: usize,
        position: usize,
    )
        requires
            old(self).wf(),
            old(wires).wf(),
            position < old(self).signals@.len(),
            old(self).fragments()[position as int] == Fragment::Undefined(name@),
        ensures
            final(self).wf(),
            final(wires).wf(),
            (Wiring { frags: final(self).fragments(), wires: final(wires)@ }) == resolve_at(
                Wiring { frags: old(self).fragments(), wires: old(wires)@ },
                old(self).role(),
                position as int,
                width as int,
            ),
            final(self).has_undefine == old(self).has_undefine - 1,
            final(self).connected() == old(self).connected() + width,
            *final(self) == (VerilogPort {
                signals: final(self).signals,
                has_undefine: final(self).has_undefine,
                ..*old(self)
            }),
    {
        let range = Range { start: 0, end: width };
        let arc_wire = self.connect_wire(wires, name, &range);
        proof {
            lemma_update_totals(
                self.fragments(),
                position as int,
                Fragment::Wire(name@, 0, width as int),
            );
            lemma_count_bounds(self.fragments().update(
                position as int,
                Fragment::Wire(name@, 0, width as int),
            ));
        }
        self.signals[position] = VerilogValue::Wire(arc_wire, range);
        assert(self.fragments() =~= old(self).fragments().update(
            position as int,
            Fragment::Wire(name@, 0, width as int),
        ));
        self.has_undefine -= 1;
    }

    fn find_undefined(&self) -> (r: Option<usize>)
        ensures
            r matches Some(p) ==> is_first_undefined(self.fragments(), p as int),
            r is None ==> forall|j: int|
                0 <= j < self.signals@.len() ==> !(#[trigger] self.fragments()[j] is Undefined),
    {
        let mut i: usize = 0;
        while i < self.signals.len()
            invariant
                i <= self.signals@.len(),
                forall|j: int| 0 <= j < i ==> !(#[trigger] self.fragments()[j] is Undefined),
            decreases self.signals@.len() - i,
        {
            if self.signals[i].is_undefine() {
                assert(self.fragments()[i as int] == self.signals@[i as int]@);
                return Some(i);
            }
            assert(self.fragments()[i as int] == self.signals@[i as int]@);
            i += 1;
        }
        None
    }

    /// Resolves the one signal without a width from what the port has
    /// left. Where nothing is left the port is reported as over
    /// connected and stays as it is.
    fn set_undefine_wire_1(&mut self, wires: &mut WireBuilder) -> (r: PortHealth)
        requires
            old(self).wf(),
            old(wires).wf(),
            old(self).has_undefine == 1,
        ensures
            final(self).wf(),
            final(wires).wf(),
            old(self).connected() < old(self).width.value() ==> {
                &&& r == PortHealth::Connected
                &&& (Wiring { frags: final(self).fragments(), wires: final(wires)@ })
                    == resolve_at(
                    Wiring { frags: old(self).fragments(), wires: old(wires)@ },
                    old(self).role(),
                    first_undefined(old(self).fragments()),
                    old(self).width.value() - old(self).connected(),
                )
                &&& final(self).connected() == final(self).width.value()
                &&& *final(self) == (VerilogPort {
                    signals: final(self).signals,
                    has_undefine: 0,
                    health_checked: true,
                    ..*old(self)
                })
            },
            old(self).connected() >= old(self).width.value() ==> {
                &&& r == (PortHealth::OverConnected {
                    declared: old(self).width.value(),
                    actual: old(self).connected() as u128,
                })
                &&& *final(self) == *old(self)
                &&& final(wires)@ == old(wires)@
            },
    {
        let width_sum = self.get_connected_width();
        let declared = self.width.width();
        if width_sum >= declared as u128 {
            return PortHealth::OverConnected { declared, actual: width_sum };
        }
        let wire_infer_width: usize = declared - width_sum as usize;
        match self.find_undefined() {
            Some(idx) => {
                proof {
                    lemma_first_undefined(self.fragments(), idx as int);
                    assert(self.fragments()[idx as int] == self.signals@[idx as int]@);
                }
                let name = String::from_str(self.signals[idx].get_name());
                self.set_undefine_wire(wires, name.as_str(), wire_infer_width, idx);
                self.health_checked = true;
                PortHealth::Connected
            },
            None => {
                proof {
                    lemma_no_undefined(self.fragments());
                }
                PortHealth::Connected
            },
        }
    }

    /// Marks a port without unknown widths as checked and reports how
    /// its fragments fill it.
    fn check_connected(&mut self) -> (r: PortHealth)
        ensures
            r == health_of(old(self).width.value(), old(self).connected()),
            *final(self) == (VerilogPort { health_checked: true, ..*old(self) }),
    {
        let r = self.health();
        self.health_checked = true;
        r
    }

    /// Enrols the signals without a width with the collector and adds the
    /// port's equation: their widths add up to what the port has left.
    fn register_undefine_wire(&mut self, collector: &mut UndefineWireCollector)
        requires
            old(self).wf(),
        ensures
            final(self).wf(),
            final(collector).names() == enrolled(
                old(collector).names(),
                old(self).fragments(),
            ).names,
            final(self).undefine_wires_idx@ == old(self).undefine_wires_idx@ + enrolled(
                old(collector).names(),
                old(self).fragments(),
            ).slots,
            final(collector).func_groups@.len() == old(collector).func_groups@.len() + 1,
            final(collector).func_groups@.drop_last() == old(collector).func_groups@,
            final(collector).func_groups@.last()@ == enrolled(
                old(collector).names(),
                old(self).fragments(),
            ).group,
            final(collector).value@ == old(collector).value@.push(
                clamped(old(self).width.value() - old(self).connected()),
            ),
            final(collector).res == old(collector).res,
            *final(self) == (VerilogPort {
                undefine_wires_idx: final(self).undefine_wires_idx,
                undefine_registered: true,
                ..*old(self)
            }),
    {
        let mut func_group: Vec<usize> = Vec::new();
        let mut i: usize = 0;
        let ghost frags = self.fragments();
        let ghost names0 = collector.names();
        let ghost slots0 = self.undefine_wires_idx@;
        assert(frags.take(0) =~= Seq::<Fragment>::empty());
        assert(slots0 + Seq::<(usize, usize)>::empty() =~= slots0);
        while i < self.signals.len()
            invariant
                i <= self.signals@.len(),
                frags == self.fragments(),
                names0 == old(collector).names(),
                slots0 == old(self).undefine_wires_idx@,
                collector.names() == enrolled(names0, frags.take(i as int)).names,
                self.undefine_wires_idx@ == slots0 + enrolled(names0, frags.take(i as int)).slots,
                func_group@ == enrolled(names0, frags.take(i as int)).group,
                collector.func_groups == old(collector).func_groups,
                collector.value == old(collector).value,
                collector.res == old(collector).res,
                *self == (VerilogPort {
                    undefine_wires_idx: self.undefine_wires_idx,
                    ..*old(self)
                }),
            decreases self.signals@.len() - i,
        {
            proof {
                assert(frags.take(i + 1).drop_last() =~= frags.take(i as int));
                assert(frags.take(i + 1).last() == self.signals@[i as int]@);
            }
            if self.signals[i].is_undefine() {
                let ghost e = enrolled(names0, frags.take(i as int));
                let name = String::from_str(self.signals[i].get_name());
                proof {
                    lemma_first_index(collector.names(), name@);
                }
                let res_idx = collector.add_wires(name.as_str());
                self.undefine_wires_idx.push((i, res_idx));
                func_group.push(res_idx);
                assert(self.undefine_wires_idx@ =~= slots0 + e.slots.push((i, res_idx)));
            }
            i += 1;
        }
        assert(frags.take(frags.len() as int) =~= frags);
        let width = self.get_connected_width();
        let declared = self.width.width();
        let infer_width: i64 = if width > declared as u128 {
            let over: u128 = width - declared as u128;
            if over > 0x8000_0000_0000_0000u128 {
                i64::MIN
            } else {
                (-(over as i128)) as i64
            }
        } else {
            let left: u128 = declared as u128 - width;
            if left > 0x7fff_ffff_ffff_ffffu128 {
                i64::MAX
            } else {
                left as i64
            }
        };
        collector.add_func(func_group, infer_width);
        self.undefine_registered = true;
        assert(collector.func_groups@.drop_last() =~= old(collector).func_groups@);
    }

    /// Rewrites the enrolled signals with the widths that the collector
    /// holds for them; a signal whose index has no width stays as it is.
    fn update_undefine_wire(&mut self, wires: &mut WireBuilder, collector: &UndefineWireCollector)
        requires
            old(self).wf(),
            old(wires).wf(),
        ensures
            final(self).wf(),
            final(wires).wf(),
            (Wiring { frags: final(self).fragments(), wires: final(wires)@ }) == refreshed(
                Wiring { frags: old(self).fragments(), wires: old(wires)@ },
                old(self).role(),
                old(self).undefine_wires_idx@,
                collector.res@,
            ),
            *final(self) == (VerilogPort {
                signals: final(self).signals,
                has_undefine: final(self).has_undefine,
                health_checked: true,
                ..*old(self)
            }),
    {
        let mut t: usize = 0;
        let ghost slots = self.undefine_wires_idx@;
        let ghost start = Wiring { frags: self.fragments(), wires: wires@ };
        let ghost dir = self.role();
        assert(slots.take(0) =~= Seq::<(usize, usize)>::empty());
        while t < self.undefine_wires_idx.len()
            invariant
                t <= slots.len(),
                slots == self.undefine_wires_idx@,
                dir == self.role(),
                self.wf(),
                wires.wf(),
                start == (Wiring { frags: old(self).fragments(), wires: old(wires)@ }),
                (Wiring { frags: self.fragments(), wires: wires@ }) == refreshed(
                    start,
                    dir,
                    slots.take(t as int),
                    collector.res@,
                ),
                *self == (VerilogPort {
                    signals: self.signals,
                    has_undefine: self.has_undefine,
                    ..*old(self)
                }),
            decreases slots.len() - t,
        {
            let (undefine_idx, res_idx) = self.undefine_wires_idx[t];
            proof {
                assert(slots.take(t + 1).drop_last() =~= slots.take(t as int));
                assert(slots.take(t + 1).last() == slots[t as int]);
            }
            if res_idx < collector.res.len() && undefine_idx < self.signals.len() {
                assert(self.fragments()[undefine_idx as int] == self.signals@[undefine_idx as int]@);
                if self.signals[undefine_idx].is_undefine() {
                    let refer_width = collector.res[res_idx];
                    let name = String::from_str(self.signals[undefine_idx].get_name());
                    self.set_undefine_wire(wires, name.as_str(), refer_width, undefine_idx);
                }
            }
            t += 1;
        }
        assert(slots.take(slots.len() as int) =~= slots);
        self.health_checked = true;
    }

    /// Checks the port once; a port checked before only reports.
    ///
    /// After the check either more than one signal still waits for its
    /// width, or the fragments fill the port exactly, or the finding says
    /// that they do not. A port with no signal without a width is
    /// reported as it stands. One such signal takes the bits the port has
    /// left. Several are enrolled with the collector by the first check
    /// and rewritten, with the widths the collector then holds, by the
    /// second.
    pub fn check_health(&mut self, wires: &mut WireBuilder, collector: &mut UndefineWireCollector)
        -> (r: PortHealth)
        requires
            old(self).wf(),
            old(wires).wf(),
        ensures
            final(self).wf(),
            final(wires).wf(),
            final(self).inout == old(self).inout,
            final(self).top == old(self).top,
            final(self).name == old(self).name,
            final(self).width == old(self).width,
            final(self).info == old(self).info,
            (final(self)@, world(*final(wires), *final(collector)), r) == checked(
                old(self)@,
                world(*old(wires), *old(collector)),
            ),
            final(self).has_undefine > 1 || final(self).connected() == final(self).width.value()
                || r is UnderConnected || r is OverConnected,
    {
        proof {
            lemma_totals_nonnegative(self.fragments());
            lemma_checked_health(self@, world(*wires, *collector));
        }
        let ghost w0 = world(*wires, *collector);
        if self.health_checked {
            return self.health();
        }
        if self.has_undefine == 0 {
            self.check_connected()
        } else if self.has_undefine == 1 {
            self.set_undefine_wire_1(wires)
        } else if self.undefine_registered {
            self.update_undefine_wire(wires, collector);
            if self.has_undefine > 1 {
                PortHealth::Deferred
            } else {
                self.health()
            }
        } else {
            self.register_undefine_wire(collector);
            proof {
                let e = enrolled(w0.names, old(self).fragments());
                assert(world(*wires, *collector).groups =~= w0.groups.push(e.group));
            }
            PortHealth::Deferred
        }
    }

    /// Registers a port of the enclosing module that has no fragment as a
    /// wire of its own name over its whole width: an input drives the
    /// wire, any other port reads it. A port with fragments is checked
    /// instead.
    pub fn register_port_as_wire(
        &mut self,
        wires: &mut WireBuilder,
        collector: &mut UndefineWireCollector,
    ) -> (r: Option<PortHealth>)
        requires
            old(self).wf(),
            old(wires).wf(),
        ensures
            final(self).wf(),
            final(wires).wf(),
            final(self).inout == old(self).inout,
            final(self).top == old(self).top,
            final(self).name == old(self).name,
            final(self).width == old(self).width,
            final(self).info == old(self).info,
            (final(self)@, world(*final(wires), *final(collector)), r) == registered_as_wire(
                old(self)@,
                world(*old(wires), *old(collector)),
            ),
    {
        if self.signals.len() > 1 {
            return Some(self.check_health(wires, collector));
        }
        let range = Range { start: 0, end: self.width.width() };
        match self.inout {
            PortDir::InPort => {
                wires.add_driver_wire_asport(self.name.as_str(), &range);
            },
            _ => {
                wires.add_load_wire_asport(self.name.as_str(), &range);
            },
        }
        self.health_checked = true;
        None
    }

    /// A port with the direction, name, width and comment of `p`, bound
    /// anew to the fragments of `p`; its wires are registered again. The
    /// copy has not been checked.
    pub fn copy_port_from(p: &VerilogPort, wires: &mut WireBuilder) -> (r: VerilogPort)
        requires
            p.wf(),
            old(wires).wf(),
        ensures
            r.wf(),
            final(wires).wf(),
            r.inout == p.inout,
            r.top == p.top,
            r.name@ == p.name@,
            r.width == p.width,
            r.info@ == p.info@,
            r.fragments() == p.fragments(),
            !r.health_checked,
            !r.undefine_registered,
            r.undefine_wires_idx@ == Seq::<(usize, usize)>::empty(),
            final(wires)@ == rebound(old(wires)@, p.role(), p.fragments()),
    {
        let mut new_port = VerilogPort::new(p.inout, p.name.as_str(), p.width.duplicate());
        new_port.set_info_msg(p.info.as_str());
        new_port.set_top(p.top);
        let ghost frags = p.fragments();
        let mut i: usize = 1;
        assert(frags.take(1) =~= seq![Fragment::NONE]);
        assert(frags.take(1).drop_last() =~= Seq::<Fragment>::empty());
        assert(rebound(old(wires)@, p.role(), frags.take(1)) == old(wires)@) by {
            assert(frags.take(1).last() == Fragment::NONE);
            assert(rebound(old(wires)@, p.role(), Seq::<Fragment>::empty()) == old(wires)@);
        }
        while i < p.signals.len()
            invariant
                1 <= i <= p.signals@.len(),
                frags == p.fragments(),
                p.wf(),
                new_port.wf(),
                wires.wf(),
                new_port.inout == p.inout,
                new_port.top == p.top,
                new_port.name@ == p.name@,
                new_port.width == p.width,
                new_port.info@ == p.info@,
                !new_port.health_checked,
                !new_port.undefine_registered,
                new_port.undefine_wires_idx@.len() == 0,
                new_port.fragments() == frags.take(i as int),
                wires@ == rebound(old(wires)@, p.role(), frags.take(i as int)),
            decreases p.signals@.len() - i,
        {
            proof {
                assert(frags.take(i + 1).drop_last() =~= frags.take(i as int));
                assert(frags.take(i + 1).last() == p.signals@[i as int]@);
                assert(frags.take(i + 1) =~= frags.take(i as int).push(p.signals@[i as int]@));
            }
            match &p.signals[i] {
                VerilogValue::Wire(w, range) => {
                    new_port.connect_partial_signal(wires, w.name.as_str(), range);
                },
                VerilogValue::UndefinedWire(s) => {
                    new_port.connect_undefined_signal(s.as_str());
                },
                VerilogValue::Number { width, value } => {
                    new_port.connect_number_signal(*value, *width);
                },
                VerilogValue::NONE => {
                    proof {
                        lemma_push_totals(new_port.fragments(), Fragment::NONE);
                    }
                    new_port.signals.push(VerilogValue::NONE);
                    assert(new_port.fragments() =~= frags.take(i as int).push(Fragment::NONE));
                },
            }
            i += 1;
        }
        assert(frags.take(frags.len() as int) =~= frags);
        assert(new_port.undefine_wires_idx@ =~= Seq::<(usize, usize)>::empty());
        new_port
    }

    /// A port with the direction, name, width and comment of `p` and no
    /// fragment but the placeholder.
    pub fn copy_port_without_wire_from(p: &VerilogPort) -> (r: VerilogPort)
        ensures
            r.wf(),
            r.inout == p.inout,
            r.top == p.top,
            r.name@ == p.name@,
            r.width == p.width,
            r.info@ == p.info@,
            r.fragments() == seq![Fragment::NONE],
            !r.health_checked,
            !r.undefine_registered,
            r.has_undefine == 0,
            r.undefine_wires_idx@ == Seq::<(usize, usize)>::empty(),
    {
        let mut new_port = VerilogPort::new(p.inout, p.name.as_str(), p.width.duplicate());
        new_port.set_info_msg(p.info.as_str());
        new_port.set_top(p.top);
        assert(new_port.undefine_wires_idx@ =~= Seq::<(usize, usize)>::empty());
        new_port
    }

    /// Evaluates a symbolic width of the port under `params`.
    pub fn update_literal_port_width(&mut self, params: &Vec<crate::parameter::Param>)
        ensures
            match old(self).width {
                Width::RawWidth(x) => final(self).width == Width::RawWidth(x),
                Width::LiteralWidth(s, _) => final(self).width.is_symbolic(
                    s@,
                    crate::width::evaluated(s@, params@),
                ),
            },
            final(self).signals == old(self).signals,
            final(self).inout == old(self).inout,
            final(self).top == old(self).top,
            final(self).name == old(self).name,
            final(self).info == old(self).info,
            final(self).has_undefine == old(self).has_undefine,
            final(self).undefine_wires_idx == old(self).undefine_wires_idx,
            final(self).health_checked == old(self).health_checked,
            final(self).undefine_registered == old(self).undefine_registered,
    {
        self.width = self.width.width_from(params);
    }

    /// How the fragments are written.
    pub fn get_signal_string(&self) -> (r: String)
        ensures
            r@ == signal_text(self.fragments()),
    {
        let n = self.signals.len();
        if n <= 1 {
            String::from_str("")
        } else if n == 2 {
            self.signals[1].to_string()
        } else {
            let mut parts: Vec<String> = Vec::new();
            let mut i: usize = 1;
            let ghost texts = Seq::new(
                (self.fragments().len() - 1) as nat,
                |i: int| self.fragments()[i + 1].text(),
            );
            while i < n
                invariant
                    1 <= i <= n,
                    n == self.signals@.len(),
                    texts == Seq::new(
                        (self.fragments().len() - 1) as nat,
                        |i: int| self.fragments()[i + 1].text(),
                    ),
                    parts@.len() == i - 1,
                    forall|k: int| 0 <= k < i - 1 ==> (#[trigger] parts@[k])@ == texts[k],
                decreases n - i,
            {
                parts.push(self.signals[i].to_string());
                i += 1;
            }
            assert(views(parts@) =~= texts);
            let inner = join(&parts, ", ");
            let mut s = String::from_str("{");
            s.append(inner.as_str());
            s.append("}");
            s
        }
    }

    /// The line that binds the port in an instance.
    pub fn to_inst_string(&self, is_last: bool) -> (r: Vec<String>)
        ensures
            r@.len() == 1,
            r@[0]@ == binding_line(self.name@, signal_text(self.fragments()), is_last),
    {
        let mut line = String::from_str("    .");
        line.append(self.name.as_str());
        line.append("(");
        line.append(self.get_signal_string().as_str());
        line.append(")");
        if is_last {
            line.append("");
        } else {
            line.append(",");
        }
        let mut out: Vec<String> = Vec::new();
        out.push(line);
        out
    }

    /// The line that declares the port in its module.
    pub fn to_port_string(&self, is_last: bool) -> (r: Vec<String>)
        ensures
            r@.len() == 1,
            r@[0]@ == declaration_line(self.inout, self.width, self.name@, is_last),
    {
        let mut line = String::from_str("    ");
        line.append(self.inout.to_string().as_str());
        line.append(" wire ");
        if self.width.width() <= 1 {
            line.append("");
        } else {
            match &self.width {
                Width::RawWidth(x) => {
                    let mut range = String::from_str("[");
                    range.append(decimal_usize(*x - 1).as_str());
                    range.append(":0] ");
                    line.append(range.as_str());
                },
                Width::LiteralWidth(s, _) => {
                    let mut range = String::from_str("[");
                    range.append(s.as_str());
                    range.append("-1:0] ");
                    line.append(range.as_str());
                },
            }
        }
        line.append(self.name.as_str());
        if is_last {
            line.append("");
        } else {
            line.append(",");
        }
        let mut out: Vec<String> = Vec::new();
        out.push(line);
        out
    }

    /// The line that assigns a concatenation to the port; none for a
    /// port with fewer than two fragments.
    pub fn to_assign_string(&self) -> (r: Option<Vec<String>>)
        ensures
            r is Some <==> self.fragments().len() > 2,
            r matches Some(v) ==> v@.len() == 1 && v@[0]@ == assign_line(
                self.name@,
                signal_text(self.fragments()),
            ),
    {
        if self.signals.len() > 2 {
            let mut line = String::from_str("    assign ");
            line.append(self.name.as_str());
            line.append(" = ");
            line.append(self.get_signal_string().as_str());
            line.append(";");
            let mut out: Vec<String> = Vec::new();
            out.push(line);
            Some(out)
        } else {
            None
        }
    }

    /// The name of the port.
    pub fn get_name(&self) -> (r: String)
        ensures
            r@ == self.name@,
    {
        self.name.clone()
    }
}

/// The registry after a port of direction `dir` is bound to each slice
/// among `frags`, in order.
pub open spec fn rebound(m: Map<Seq<char>, WireState>, role: Role, frags: Seq<Fragment>) -> Map<
    Seq<char>,
    WireState,
>
    decreases frags.len(),
{
    if frags.len() == 0 {
        m
    } else {
        let before = rebound(m, role, frags.drop_last());
        match frags.last() {
            Fragment::Wire(n, lo, hi) => bound(before, role, n, lo, hi),
            _ => before,
        }
    }
}

proof fn lemma_totals_nonnegative(frags: Seq<Fragment>)
    requires
        forall|i: int| 0 <= i < frags.len() ==> 0 <= (#[trigger] frags[i]).bits(),
    ensures
        0 <= total_bits(frags),
    decreases frags.len(),
{
    if frags.len() > 0 {
        assert forall|i: int| 0 <= i < frags.drop_last().len() implies 0 <= (
        #[trigger] frags.drop_last()[i]).bits() by {
            assert(frags.drop_last()[i] == frags[i]);
        }
        lemma_totals_nonnegative(frags.drop_last());
        assert(frags.last() == frags[frags.len() - 1]);
    }
}

proof fn lemma_no_undefined(frags: Seq<Fragment>)
    requires
        forall|j: int| 0 <= j < frags.len() ==> !(#[trigger] frags[j] is Undefined),
    ensures
        undefined_count(frags) == 0,
    decreases frags.len(),
{
    if frags.len() > 0 {
        assert forall|j: int| 0 <= j < frags.drop_last().len() implies !(
        #[trigger] frags.drop_last()[j] is Undefined) by {
            assert(frags.drop_last()[j] == frags[j]);
        }
        lemma_no_undefined(frags.drop_last());
        assert(frags.last() == frags[frags.len() - 1]);
    }
}

/// The collector indices that the slots hold, in order.
pub open spec fn slot_indices(slots: Seq<(usize, usize)>) -> Seq<usize> {
    Seq::new(slots.len(), |t: int| slots[t].1)
}

/// Enrolling lists every signal without a width once, in order, with the
/// index that its equation names it by.
proof fn lemma_enrolled(names: Seq<Seq<char>>, frags: Seq<Fragment>)
    requires
        frags.len() <= usize::MAX,
    ensures
        enrolled(names, frags).slots.len() == undefined_count(frags),
        enrolled(names, frags).group == slot_indices(enrolled(names, frags).slots),
        forall|t: int|
            0 <= t < enrolled(names, frags).slots.len() ==> {
                let pos = (#[trigger] enrolled(names, frags).slots[t]).0 as int;
                pos < frags.len() && frags[pos] is Undefined
            },
        forall|t: int, u: int|
            0 <= t < u < enrolled(names, frags).slots.len() ==> (#[trigger] enrolled(
                names,
                frags,
            ).slots[t]).0 < (#[trigger] enrolled(names, frags).slots[u]).0,
    decreases frags.len(),
{
    if frags.len() > 0 {
        let rest = frags.drop_last();
        lemma_enrolled(names, rest);
        let e0 = enrolled(names, rest);
        let e = enrolled(names, frags);
        assert forall|t: int| 0 <= t < e0.slots.len() implies frags[(#[trigger] e0.slots[t]).0 as int]
            == rest[e0.slots[t].0 as int] by {}
        assert(e.group =~= slot_indices(e.slots));
    }
}

/// Rewriting the slots of a port gives every signal without a width the
/// width found for it: the fragments then take the bits they took and
/// those widths, and no signal without a width is left among them.
proof fn lemma_refreshed(w: Wiring, role: Role, slots: Seq<(usize, usize)>, res: Seq<usize>)
    requires
        forall|t: int|
            0 <= t < slots.len() ==> {
                let pos = (#[trigger] slots[t]).0 as int;
                pos < w.frags.len() && w.frags[pos] is Undefined && slots[t].1 < res.len()
            },
        forall|t: int, u: int|
            0 <= t < u < slots.len() ==> (#[trigger] slots[t]).0 < (#[trigger] slots[u]).0,
    ensures
        refreshed(w, role, slots, res).frags.len() == w.frags.len(),
        forall|pos: int|
            0 <= pos < w.frags.len() && (slots.len() == 0 || slots.last().0 < pos)
                ==> #[trigger] refreshed(w, role, slots, res).frags[pos] == w.frags[pos],
        total_bits(refreshed(w, role, slots, res).frags) == total_bits(w.frags) + group_widths(
            slot_indices(slots),
            widths(res),
        ),
        undefined_count(refreshed(w, role, slots, res).frags) == undefined_count(w.frags)
            - slots.len(),
    decreases slots.len(),
{
    if slots.len() > 0 {
        let rest = slots.drop_last();
        assert forall|t: int| 0 <= t < rest.len() implies rest[t] == slots[t] by {}
        lemma_refreshed(w, role, rest, res);
        let before = refreshed(w, role, rest, res);
        let (pos, idx) = slots.last();
        assert(slots.last() == slots[slots.len() - 1]);
        assert(rest.len() == 0 || rest.last().0 < pos) by {
            if rest.len() > 0 {
                assert(rest.last() == slots[slots.len() - 2]);
            }
        }
        assert(before.frags[pos as int] == w.frags[pos as int]);
        let name = before.frags[pos as int].name();
        let f = Fragment::Wire(name, 0, res[idx as int] as int);
        lemma_update_totals(before.frags, pos as int, f);
        assert(slot_indices(slots).drop_last() =~= slot_indices(rest));
        assert(slot_indices(slots).last() == idx);
        assert(widths(res)[idx as int] == res[idx as int]);
    }
}

/// Once the widths are found, the second check of a port that enrolled
/// its signals finds it connected: where the widths of the world satisfy
/// the equations, among them the one that the port added when it
/// enrolled, every signal of the port gets its width, and the fragments
/// fill the port exactly.
pub proof fn lemma_solved_port_connected(
    p: PortModel,
    names: Seq<Seq<char>>,
    w: World,
    g: int,
)
    requires
        p.frags.len() <= usize::MAX,
        p.frags.len() <= i64::MAX,
        !p.checked,
        p.registered,
        p.pending > 1,
        p.pending == undefined_count(p.frags),
        p.slots == enrolled(names, p.frags).slots,
        0 <= g < w.groups.len(),
        g < w.values.len(),
        w.groups[g] == enrolled(names, p.frags).group,
        w.values[g] == p.declared - total_bits(p.frags),
        forall|t: int| 0 <= t < w.groups[g].len() ==> (#[trigger] w.groups[g][t]) < w.res.len(),
        solves(system(w.groups, w.values, w.res.len() as int), widths(w.res), w.res.len() as int),
    ensures
        checked(p, w).2 == PortHealth::Connected,
        checked(p, w).0.pending == 0,
        total_bits(checked(p, w).0.frags) == p.declared,
{
    let n = w.res.len() as int;
    let x = widths(w.res);
    let group = w.groups[g];
    lemma_enrolled(names, p.frags);
    assert forall|t: int| 0 <= t < p.slots.len() implies (#[trigger] p.slots[t]).1
        < w.res.len() by {
        assert(group[t] == p.slots[t].1);
    }
    let wiring = Wiring { frags: p.frags, wires: w.wires };
    lemma_refreshed(wiring, role_of(p.dir, p.top), p.slots, w.res);
    lemma_count_bounds(p.frags);
    lemma_coefficients(group, x);
    let row = system(w.groups, w.values, n)[g];
    let coeff = coefficients(group, n);
    assert(row == coeff.push(w.values[g] as int));
    assert forall|j: int| 0 <= j < n implies row[j] * x[j] == coeff[j] * x[j] by {
        assert(row[j] == coeff[j]);
    }
    lemma_dot_same(row, coeff, x, x, 0, n);
    assert(row[n] == w.values[g]);
    assert(range_dot(row, x, 0, n) == row[n]);
}

/// The keyword of a direction names that direction.
pub proof fn lemma_direction_read_back(dir: PortDir)
    ensures
        PortDir::of_keyword(dir.keyword()) == dir,
{
    reveal_strlit("input");
    reveal_strlit("output");
    reveal_strlit("inout");
    reveal_strlit("unknown");
    assert("input"@.len() == 5 && "output"@.len() == 6);
    assert("inout"@.len() == 5 && "unknown"@.len() == 7);
    assert("inout"@[2] == 'o' && "input"@[2] == 'p');
}

/// A port of one bit is declared without a range, and a slice that is
/// bit 0 alone is written without one.
pub proof fn lemma_single_bit_elided(dir: PortDir, width: Width, name: Seq<char>, wire: Seq<char>)
    requires
        width.value() == 1,
    ensures
        range_text(width) == ""@,
        Fragment::Wire(wire, 0, 1).text() == wire,
{
}

/// A port with no fragment but the placeholder is bound to nothing and
/// takes no bits.
pub proof fn lemma_unbound_port(p: VerilogPort, is_last: bool)
    requires
        p.fragments() == seq![Fragment::NONE],
    ensures
        signal_text(p.fragments()) == ""@,
        binding_line(p.name@, signal_text(p.fragments()), is_last) == "    ."@ + p.name@ + "("@
            + ""@ + ")"@ + if is_last {
            ""@
        } else {
            ","@
        },
        p.connected() == 0,
{
    lemma_placeholder_alone();
}

/// The placeholder alone takes no bits and holds no signal.
proof fn lemma_placeholder_alone()
    ensures
        total_bits(seq![Fragment::NONE]) == 0,
        undefined_count(seq![Fragment::NONE]) == 0,
{
    lemma_push_totals(Seq::<Fragment>::empty(), Fragment::NONE);
    assert(seq![Fragment::NONE] =~= Seq::<Fragment>::empty().push(Fragment::NONE));
}

/// A constant takes its width of the port and leaves the registry as it
/// is: binding anew to fragments that end in a constant registers what
/// the fragments before it register.
pub proof fn lemma_constant_registers_nothing(
    m: Map<Seq<char>, WireState>,
    role: Role,
    frags: Seq<Fragment>,
    width: int,
    value: int,
)
    ensures
        rebound(m, role, frags.push(Fragment::Number(width, value))) == rebound(m, role, frags),
        total_bits(frags.push(Fragment::Number(width, value))) == total_bits(frags) + width,
{
    assert(frags.push(Fragment::Number(width, value)).drop_last() =~= frags);
}

} // verus!
