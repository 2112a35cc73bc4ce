//! Modules: a name, parameters, ports and the modules instantiated
//! inside; the checks that run over all ports, the comparison of two
//! modules port by port, and the text of an instance and of a module.
use crate::collector::system;
use crate::collector::UndefineWireCollector;
use crate::data::guard_lines;
use crate::data::guarded;
use crate::data::wrap_as;
use crate::data::VerilogData;
use crate::parameter::Param;
use crate::port::assign_line;
use crate::port::binding_line;
use crate::port::checked;
use crate::port::declaration_line;
use crate::port::rebound;
use crate::port::role_of;
use crate::port::signal_text;
use crate::port::undefined_count;
use crate::port::world;
use crate::port::Fragment;
use crate::port::PortDir;
use crate::port::PortHealth;
use crate::port::PortModel;
use crate::port::VerilogPort;
use crate::port::World;
use crate::solve_func::solved;
use crate::solve_func::widths;
use crate::text::first_index;
use crate::text::lemma_first_index;
use crate::text::pad;
use crate::text::pad_right;
use crate::text::views;
use crate::width::evaluated;
use crate::width::Width;
use crate::wire::internal_wires;
use crate::wire::printed;
use crate::wire::reports;
use crate::wire::wire_line;
use crate::wire::WireBuilder;
use crate::wire::WireReport;
use vstd::prelude::*;

verus! {

/// A module, or an instance of one.
#[derive(Debug)]
pub struct VerilogModule {
    pub module_name: String,
    pub inst_name: Option<String>,
    pub param_list: Vec<Param>,
    pub port_list: Vec<VerilogData<VerilogPort>>,
    pub inst_list: Vec<VerilogData<VerilogModule>>,
}

/// The ports as plain values, their guards taken off.
pub open spec fn port_models(ports: Seq<VerilogData<VerilogPort>>) -> Seq<PortModel> {
    Seq::new(ports.len(), |i: int| ports[i].raw()@)
}

/// Every port is well formed.
pub open spec fn ports_wf(ports: Seq<VerilogData<VerilogPort>>) -> bool {
    forall|i: int| 0 <= i < ports.len() ==> (#[trigger] ports[i]).raw().wf()
}

/// The ports of `after` are those of `before` as far as a check leaves a
/// port alone: guards, direction, name, width and comment.
pub open spec fn same_identity(
    before: Seq<VerilogData<VerilogPort>>,
    after: Seq<VerilogData<VerilogPort>>,
) -> bool {
    &&& after.len() == before.len()
    &&& forall|i: int|
        0 <= i < before.len() ==> {
            &&& (#[trigger] after[i]).guards() == before[i].guards()
            &&& after[i].raw().inout == before[i].raw().inout
            &&& after[i].raw().top == before[i].raw().top
            &&& after[i].raw().name == before[i].raw().name
            &&& after[i].raw().width == before[i].raw().width
            &&& after[i].raw().info == before[i].raw().info
        }
}

/// The ports checked one after the other, each in the world that the
/// checks before it left.
pub open spec fn checked_each(ports: Seq<PortModel>, w: World) -> (
    Seq<PortModel>,
    World,
    Seq<PortHealth>,
)
    decreases ports.len(),
{
    if ports.len() == 0 {
        (Seq::empty(), w, Seq::empty())
    } else {
        let (qs, w1, rs) = checked_each(ports.drop_last(), w);
        let (q, w2, r) = checked(ports.last(), w1);
        (qs.push(q), w2, rs.push(r))
    }
}

/// The port bound to a signal of its own name.
pub open spec fn self_bound(p: PortModel) -> PortModel {
    PortModel {
        frags: p.frags.push(Fragment::Undefined(p.name)),
        pending: (p.pending + 1) as usize,
        ..p
    }
}

/// Each port bound to a signal of its own name and then checked.
pub open spec fn defaulted(ports: Seq<PortModel>, w: World) -> (
    Seq<PortModel>,
    World,
    Seq<PortHealth>,
)
    decreases ports.len(),
{
    if ports.len() == 0 {
        (Seq::empty(), w, Seq::empty())
    } else {
        let (qs, w1, rs) = defaulted(ports.drop_last(), w);
        let (q, w2, r) = checked(self_bound(ports.last()), w1);
        (qs.push(q), w2, rs.push(r))
    }
}

/// A new port with the fragments of `p`, not checked and not enrolled.
pub open spec fn fresh_copy(p: PortModel) -> PortModel {
    PortModel {
        pending: undefined_count(p.frags) as usize,
        slots: Seq::empty(),
        checked: false,
        registered: false,
        ..p
    }
}

/// Each port copied, the wires of the copy registered, and the copy
/// checked.
pub open spec fn copied(ports: Seq<PortModel>, w: World) -> (
    Seq<PortModel>,
    World,
    Seq<PortHealth>,
)
    decreases ports.len(),
{
    if ports.len() == 0 {
        (Seq::empty(), w, Seq::empty())
    } else {
        let (qs, w1, rs) = copied(ports.drop_last(), w);
        let p = ports.last();
        let (q, w2, r) = checked(
            fresh_copy(p),
            World { wires: rebound(w1.wires, role_of(p.dir, p.top), p.frags), ..w1 },
        );
        (qs.push(q), w2, rs.push(r))
    }
}

/// The lists of ports checked one list after the other.
pub open spec fn checked_groups(groups: Seq<Seq<PortModel>>, w: World) -> (
    Seq<Seq<PortModel>>,
    World,
    Seq<Seq<PortHealth>>,
)
    decreases groups.len(),
{
    if groups.len() == 0 {
        (Seq::empty(), w, Seq::empty())
    } else {
        let (qs, w1, rs) = checked_groups(groups.drop_last(), w);
        let (q, w2, r) = checked_each(groups.last(), w1);
        (qs.push(q), w2, rs.push(r))
    }
}

/// The values as widths.
pub open spec fn as_sizes(x: Seq<int>) -> Seq<usize> {
    Seq::new(x.len(), |i: int| x[i] as usize)
}

/// The world after its equations are solved: the widths found, or the
/// widths it held where none are found.
pub open spec fn solved_world(w: World) -> World {
    match solved(system(w.groups, w.values, w.names.len() as int)) {
        Some(x) => World { res: as_sizes(x), ..w },
        None => w,
    }
}

/// Checks every port of `ports` in turn.
pub fn check_ports(
    ports: &mut Vec<VerilogData<VerilogPort>>,
    wires: &mut WireBuilder,
    collector: &mut UndefineWireCollector,
) -> (r: Vec<PortHealth>)
    requires
        ports_wf(old(ports)@),
        old(wires).wf(),
    ensures
        ports_wf(final(ports)@),
        final(wires).wf(),
        same_identity(old(ports)@, final(ports)@),
        (port_models(final(ports)@), world(*final(wires), *final(collector)), r@) == checked_each(
            port_models(old(ports)@),
            world(*old(wires), *old(collector)),
        ),
{
    let mut out: Vec<PortHealth> = Vec::new();
    let mut i: usize = 0;
    let ghost before = ports@;
    let ghost models = port_models(before);
    let ghost w0 = world(*wires, *collector);
    assert(models.take(0) =~= Seq::<PortModel>::empty());
    assert(port_models(ports@).take(0) =~= Seq::<PortModel>::empty());
    while i < ports.len()
        invariant
            i <= ports@.len(),
            before == old(ports)@,
            models == port_models(before),
            w0 == world(*old(wires), *old(collector)),
            ports_wf(ports@),
            wires.wf(),
            same_identity(before, ports@),
            forall|j: int| i <= j < before.len() ==> ports@[j] == before[j],
            (port_models(ports@).take(i as int), world(*wires, *collector), out@) == checked_each(
                models.take(i as int),
                w0,
            ),
        decreases ports@.len() - i,
    {
        let ghost prev = ports@;
        let ghost done = port_models(ports@).take(i as int);
        proof {
            assert(models.take(i + 1).drop_last() =~= models.take(i as int));
            assert(models.take(i + 1).last() == before[i as int].raw()@);
        }
        let r = ports[i].get_raw_mut().check_health(wires, collector);
        out.push(r);
        proof {
            assert(port_models(ports@).take(i + 1) =~= done.push(ports@[i as int].raw()@)) by {
                assert forall|j: int| 0 <= j < i implies port_models(ports@)[j] == done[j] by {
                    assert(ports@[j] == prev[j]);
                }
            }
            assert forall|j: int| 0 <= j < ports@.len() implies (#[trigger] ports@[j]).raw().wf() by {
                if j != i {
                    assert(ports@[j] == prev[j]);
                }
            }
            assert(same_identity(before, ports@)) by {
                assert forall|j: int| 0 <= j < before.len() implies {
                    &&& (#[trigger] ports@[j]).guards() == before[j].guards()
                    &&& ports@[j].raw().inout == before[j].raw().inout
                    &&& ports@[j].raw().top == before[j].raw().top
                    &&& ports@[j].raw().name == before[j].raw().name
                    &&& ports@[j].raw().width == before[j].raw().width
                    &&& ports@[j].raw().info == before[j].raw().info
                } by {
                    if j != i {
                        assert(ports@[j] == prev[j]);
                    }
                }
            }
        }
        i += 1;
    }
    proof {
        assert(models.take(models.len() as int) =~= models);
        assert(port_models(ports@).take(ports@.len() as int) =~= port_models(ports@));
    }
    out
}

/// The ports registered as ports of the enclosing module, one after the
/// other.
pub open spec fn registered_each(ports: Seq<PortModel>, w: World) -> (
    Seq<PortModel>,
    World,
    Seq<Option<PortHealth>>,
)
    decreases ports.len(),
{
    if ports.len() == 0 {
        (Seq::empty(), w, Seq::empty())
    } else {
        let (qs, w1, rs) = registered_each(ports.drop_last(), w);
        let (q, w2, r) = crate::port::registered_as_wire(ports.last(), w1);
        (qs.push(q), w2, rs.push(r))
    }
}

/// Registers every port of `ports` as a port of the enclosing module.
pub fn register_ports(
    ports: &mut Vec<VerilogData<VerilogPort>>,
    wires: &mut WireBuilder,
    collector: &mut UndefineWireCollector,
) -> (r: Vec<Option<PortHealth>>)
    requires
        ports_wf(old(ports)@),
        old(wires).wf(),
    ensures
        ports_wf(final(ports)@),
        final(wires).wf(),
        same_identity(old(ports)@, final(ports)@),
        (port_models(final(ports)@), world(*final(wires), *final(collector)), r@)
            == registered_each(port_models(old(ports)@), world(*old(wires), *old(collector))),
{
    let mut out: Vec<Option<PortHealth>> = Vec::new();
    let mut i: usize = 0;
    let ghost before = ports@;
    let ghost models = port_models(before);
    let ghost w0 = world(*wires, *collector);
    assert(models.take(0) =~= Seq::<PortModel>::empty());
    assert(port_models(ports@).take(0) =~= Seq::<PortModel>::empty());
    while i < ports.len()
        invariant
            i <= ports@.len(),
            before == old(ports)@,
            models == port_models(before),
            w0 == world(*old(wires), *old(collector)),
            ports_wf(ports@),
            wires.wf(),
            same_identity(before, ports@),
            forall|j: int| i <= j < before.len() ==> ports@[j] == before[j],
            (port_models(ports@).take(i as int), world(*wires, *collector), out@)
                == registered_each(models.take(i as int), w0),
        decreases ports@.len() - i,
    {
        let ghost prev = ports@;
        let ghost done = port_models(ports@).take(i as int);
        proof {
            assert(models.take(i + 1).drop_last() =~= models.take(i as int));
            assert(models.take(i + 1).last() == before[i as int].raw()@);
        }
        let r = ports[i].get_raw_mut().register_port_as_wire(wires, collector);
        out.push(r);
        proof {
            assert(port_models(ports@).take(i + 1) =~= done.push(ports@[i as int].raw()@)) by {
                assert forall|j: int| 0 <= j < i implies port_models(ports@)[j] == done[j] by {
                    assert(ports@[j] == prev[j]);
                }
            }
            assert forall|j: int| 0 <= j < ports@.len() implies (#[trigger] ports@[j]).raw().wf() by {
                if j != i {
                    assert(ports@[j] == prev[j]);
                }
            }
            assert(same_identity(before, ports@)) by {
                assert forall|j: int| 0 <= j < before.len() implies {
                    &&& (#[trigger] ports@[j]).guards() == before[j].guards()
                    &&& ports@[j].raw().inout == before[j].raw().inout
                    &&& ports@[j].raw().top == before[j].raw().top
                    &&& ports@[j].raw().name == before[j].raw().name
                    &&& ports@[j].raw().width == before[j].raw().width
                    &&& ports@[j].raw().info == before[j].raw().info
                } by {
                    if j != i {
                        assert(ports@[j] == prev[j]);
                    }
                }
            }
        }
        i += 1;
    }
    proof {
        assert(models.take(models.len() as int) =~= models);
        assert(port_models(ports@).take(ports@.len() as int) =~= port_models(ports@));
    }
    out
}

/// The names of the modules in a list.
pub open spec fn module_names(list: Seq<VerilogData<VerilogModule>>) -> Seq<Seq<char>> {
    Seq::new(list.len(), |i: int| list[i].raw().module_name@)
}

/// The ports of each module in a list, as plain values.
pub open spec fn instance_models(list: Seq<VerilogData<VerilogModule>>) -> Seq<Seq<PortModel>> {
    Seq::new(list.len(), |i: int| port_models(list[i].raw().port_list@))
}

/// Some port among `ports` is the same port as `p`.
pub open spec fn has_port(ports: Seq<VerilogData<VerilogPort>>, p: VerilogData<VerilogPort>)
    -> bool {
    exists|j: int| 0 <= j < ports.len() && (#[trigger] ports[j]).same_port(p)
}

/// The entries of `list` for which `keep` holds, in order.
pub open spec fn selected<A>(list: Seq<A>, keep: spec_fn(A) -> bool) -> Seq<A>
    decreases list.len(),
{
    if list.len() == 0 {
        Seq::empty()
    } else {
        let rest = selected(list.drop_last(), keep);
        if keep(list.last()) {
            rest.push(list.last())
        } else {
            rest
        }
    }
}

/// What the last check of a module found.
#[derive(Debug)]
pub struct FinalReport {
    /// Whether the widths of the enrolled signals could be found; nothing
    /// where no signal was enrolled.
    pub solved: Option<bool>,
    /// The finding for each port of the module, where the ports were
    /// checked.
    pub ports: Vec<PortHealth>,
    /// The findings for the ports of each instance, where the ports were
    /// checked.
    pub instances: Vec<Vec<PortHealth>>,
    /// The report of each wire of the registry.
    pub wires: Vec<WireReport>,
}

/// The findings of each list as sequences.
pub open spec fn findings(v: Seq<Vec<PortHealth>>) -> Seq<Seq<PortHealth>> {
    Seq::new(v.len(), |i: int| v[i]@)
}

/// The line of one parameter in an instance: `.name(value)`, the name
/// padded to twenty characters and the value to ten.
pub open spec fn param_line(p: Param, is_last: bool) -> Seq<char> {
    "    ."@ + pad_right(p.name@, 20) + "("@ + pad_right(p.spec_shown(), 10) + if is_last {
        ")"@
    } else {
        "),"@
    }
}

/// The lines of the parameters, each ended by a comma but the last.
pub open spec fn param_lines(params: Seq<Param>) -> Seq<Seq<char>> {
    Seq::new(params.len(), |i: int| param_line(params[i], i == params.len() - 1))
}

/// The blocks of lines one after the other.
pub open spec fn flat(blocks: Seq<Seq<Seq<char>>>) -> Seq<Seq<char>>
    decreases blocks.len(),
{
    if blocks.len() == 0 {
        Seq::empty()
    } else {
        flat(blocks.drop_last()) + blocks.last()
    }
}

/// Each line with four spaces before it.
pub open spec fn indented(lines: Seq<Seq<char>>) -> Seq<Seq<char>> {
    Seq::new(lines.len(), |i: int| "    "@ + lines[i])
}

/// For each port its binding between its guards; the last binding is
/// the one without a comma.
pub open spec fn binding_blocks(ports: Seq<VerilogData<VerilogPort>>) -> Seq<Seq<Seq<char>>> {
    Seq::new(
        ports.len(),
        |i: int|
            guarded(
                seq![
                    binding_line(
                        ports[i].raw().name@,
                        signal_text(ports[i].raw().fragments()),
                        i == ports.len() - 1,
                    ),
                ],
                ports[i].guards(),
            ),
    )
}

/// For each port its declaration between its guards; the last
/// declaration is the one without a comma.
pub open spec fn declaration_blocks(ports: Seq<VerilogData<VerilogPort>>) -> Seq<Seq<Seq<char>>> {
    Seq::new(
        ports.len(),
        |i: int|
            guarded(
                seq![
                    declaration_line(
                        ports[i].raw().inout,
                        ports[i].raw().width,
                        ports[i].raw().name@,
                        i == ports.len() - 1,
                    ),
                ],
                ports[i].guards(),
            ),
    )
}

/// For each port bound to a concatenation its assignment between its
/// guards; nothing for the other ports.
pub open spec fn assign_blocks(ports: Seq<VerilogData<VerilogPort>>) -> Seq<Seq<Seq<char>>> {
    Seq::new(
        ports.len(),
        |i: int|
            if ports[i].raw().fragments().len() > 2 {
                guarded(
                    seq![
                        assign_line(ports[i].raw().name@, signal_text(ports[i].raw().fragments())),
                    ],
                    ports[i].guards(),
                )
            } else {
                Seq::empty()
            },
    )
}

/// Puts four spaces before each line.
pub fn indent(lines: Vec<String>) -> (r: Vec<String>)
    ensures
        views(r@) == indented(views(lines@)),
{
    let mut out: Vec<String> = Vec::new();
    let mut i: usize = 0;
    let ghost target = indented(views(lines@));
    assert(views(out@) =~= target.take(0));
    while i < lines.len()
        invariant
            i <= lines@.len(),
            target == indented(views(lines@)),
            views(out@) == target.take(i as int),
        decreases lines@.len() - i,
    {
        let mut line = String::from_str("    ");
        line.append(lines[i].as_str());
        let ghost before = views(out@);
        out.push(line);
        i += 1;
        assert(views(out@) =~= before.push(target[i - 1]));
        assert(views(out@) =~= target.take(i as int));
    }
    assert(target.take(target.len() as int) =~= target);
    out
}

impl VerilogData<VerilogModule> {
    /// The lines of the module as an instance, between its guards.
    pub fn to_inst_string(&self) -> (r: Vec<String>)
        ensures
            views(r@) == guarded(self.raw().inst_lines(), self.guards()),
    {
        let lines = self.get_raw().to_inst_string();
        guard_lines(lines, &self.guard_names())
    }
}

impl VerilogModule {
    /// The name of the instance: the one given, or `u_` and the name of
    /// the module.
    pub open spec fn instance_name(self) -> Seq<char> {
        match self.inst_name {
            Some(s) => s@,
            None => "u_"@ + self.module_name@,
        }
    }

    /// The lines of the module as an instance: the name of the module,
    /// its parameters if it has any, the name of the instance, the
    /// bindings of its ports and the closing line.
    pub open spec fn inst_lines(self) -> Seq<Seq<char>> {
        (if self.param_list@.len() == 0 {
            seq![self.module_name@ + " "@ + self.instance_name() + " ("@]
        } else {
            seq![self.module_name@ + " #("@] + param_lines(self.param_list@) + seq![
                ") "@ + self.instance_name() + " ("@,
            ]
        }) + flat(binding_blocks(self.port_list@)) + seq![");"@]
    }

    /// Every port of the module and of its instances is well formed.
    pub open spec fn wf(&self) -> bool {
        &&& ports_wf(self.port_list@)
        &&& forall|i: int|
            0 <= i < self.inst_list@.len() ==> ports_wf(
                (#[trigger] self.inst_list@[i]).raw().port_list@,
            )
    }

    /// A module with a name and nothing else.
    pub fn new(module_name: String) -> (r: VerilogModule)
        ensures
            r.wf(),
            r.module_name == module_name,
            r.inst_name is None,
            r.param_list@.len() == 0,
            r.port_list@.len() == 0,
            r.inst_list@.len() == 0,
    {
        VerilogModule {
            module_name,
            inst_name: None,
            param_list: Vec::new(),
            port_list: Vec::new(),
            inst_list: Vec::new(),
        }
    }

    /// Adds a port of `width` bits without guards or fragments.
    pub fn add_port(&mut self, inout: PortDir, name: &str, width: usize)
        requires
            old(self).wf(),
        ensures
            final(self).wf(),
            final(self).port_list@.len() == old(self).port_list@.len() + 1,
            final(self).port_list@.drop_last() == old(self).port_list@,
            final(self).port_list@.last().guards() == Seq::<Seq<char>>::empty(),
            final(self).port_list@.last().raw().inout == inout,
            final(self).port_list@.last().raw().name@ == name@,
            final(self).port_list@.last().raw().width == Width::RawWidth(width),
            final(self).port_list@.last().raw().fragments() == seq![Fragment::NONE],
            !final(self).port_list@.last().raw().health_checked,
            *final(self) == (VerilogModule { port_list: final(self).port_list, ..*old(self) }),
    {
        let port = VerilogPort::new(inout, name, Width::RawWidth(width));
        self.port_list.push(VerilogData::Raw(port));
        assert(self.port_list@.drop_last() =~= old(self).port_list@);
        proof {
            assert forall|i: int| 0 <= i < self.port_list@.len() implies (
            #[trigger] self.port_list@[i]).raw().wf() by {
                if i < old(self).port_list@.len() {
                    assert(self.port_list@[i] == old(self).port_list@[i]);
                }
            }
        }
    }

    /// Adds a port.
    pub fn add_port_inst(&mut self, port: VerilogData<VerilogPort>)
        ensures
            final(self).port_list@ == old(self).port_list@.push(port),
            *final(self) == (VerilogModule { port_list: final(self).port_list, ..*old(self) }),
    {
        self.port_list.push(port);
    }

    /// Adds ports, in order.
    pub fn add_ports(&mut self, ports: Vec<VerilogData<VerilogPort>>)
        ensures
            final(self).port_list@ == old(self).port_list@ + ports@,
            *final(self) == (VerilogModule { port_list: final(self).port_list, ..*old(self) }),
    {
        let mut ports = ports;
        self.port_list.append(&mut ports);
    }

    /// Adds a module instantiated inside this one.
    pub fn add_inst_module(&mut self, module: VerilogData<VerilogModule>)
        ensures
            final(self).inst_list@ == old(self).inst_list@.push(module),
            *final(self) == (VerilogModule { inst_list: final(self).inst_list, ..*old(self) }),
    {
        self.inst_list.push(module);
    }

    /// Adds parameters, in order.
    pub fn add_param_list(&mut self, param_list: Vec<Param>)
        ensures
            final(self).param_list@ == old(self).param_list@ + param_list@,
            *final(self) == (VerilogModule { param_list: final(self).param_list, ..*old(self) }),
    {
        let mut param_list = param_list;
        self.param_list.append(&mut param_list);
    }

    /// The place of the first instance of the module called `name`.
    pub fn find_inst_module_by_name(&self, name: &str) -> (r: Option<usize>)
        ensures
            r matches Some(i) ==> i == first_index(module_names(self.inst_list@), name@) && i
                < self.inst_list@.len() && self.inst_list@[i as int].raw().module_name@ == name@,
            r is None <==> first_index(module_names(self.inst_list@), name@)
                >= self.inst_list@.len(),
    {
        let ghost names = module_names(self.inst_list@);
        proof {
            lemma_first_index(names, name@);
        }
        let target = String::from_str(name);
        let mut i: usize = 0;
        while i < self.inst_list.len()
            invariant
                i <= self.inst_list@.len(),
                target@ == name@,
                names == module_names(self.inst_list@),
                forall|j: int| 0 <= j < i ==> names[j] != name@,
                0 <= first_index(names, name@) <= names.len(),
                forall|j: int| 0 <= j < first_index(names, name@) ==> names[j] != name@,
                first_index(names, name@) < names.len() ==> names[first_index(names, name@)]
                    == name@,
            decreases self.inst_list@.len() - i,
        {
            assert(names[i as int] == self.inst_list@[i as int].raw().module_name@);
            if self.inst_list[i].get_raw().module_name == target {
                return Some(i);
            }
            i += 1;
        }
        None
    }

    /// Names the instance.
    pub fn fix_inst_name(&mut self, inst_name: &str)
        ensures
            final(self).inst_name is Some,
            final(self).inst_name->0@ == inst_name@,
            *final(self) == (VerilogModule { inst_name: final(self).inst_name, ..*old(self) }),
    {
        self.inst_name = Some(String::from_str(inst_name));
    }

    /// Names an instance that has no name yet `u_` and the name of the
    /// module. An instance that has a name keeps it, and nothing changes.
    pub fn set_default_inst_name(&mut self)
        ensures
            old(self).inst_name is Some ==> *final(self) == *old(self),
            old(self).inst_name is None ==> {
                &&& final(self).inst_name is Some
                &&& final(self).inst_name->0@ == "u_"@ + old(self).module_name@
                &&& *final(self) == (VerilogModule {
                    inst_name: final(self).inst_name,
                    ..*old(self)
                })
            },
    {
        if self.inst_name.is_none() {
            let mut s = String::from_str("u_");
            s.append(self.module_name.as_str());
            self.inst_name = Some(s);
        }
    }

    /// Binds every port to a signal of its own name and checks it.
    pub fn set_default_port_wires(
        &mut self,
        wires: &mut WireBuilder,
        collector: &mut UndefineWireCollector,
    ) -> (r: Vec<PortHealth>)
        requires
            old(self).wf(),
            old(wires).wf(),
        ensures
            final(self).wf(),
            final(wires).wf(),
            same_identity(old(self).port_list@, final(self).port_list@),
            (port_models(final(self).port_list@), world(*final(wires), *final(collector)), r@)
                == defaulted(
                port_models(old(self).port_list@),
                world(*old(wires), *old(collector)),
            ),
            *final(self) == (VerilogModule { port_list: final(self).port_list, ..*old(self) }),
    {
        let mut out: Vec<PortHealth> = Vec::new();
        let mut i: usize = 0;
        let ghost before = self.port_list@;
        let ghost models = port_models(before);
        let ghost w0 = world(*wires, *collector);
        assert(models.take(0) =~= Seq::<PortModel>::empty());
        assert(port_models(self.port_list@).take(0) =~= Seq::<PortModel>::empty());
        while i < self.port_list.len()
            invariant
                i <= self.port_list@.len(),
                before == old(self).port_list@,
                models == port_models(before),
                w0 == world(*old(wires), *old(collector)),
                ports_wf(self.port_list@),
                wires.wf(),
                same_identity(before, self.port_list@),
                forall|j: int| i <= j < before.len() ==> self.port_list@[j] == before[j],
                (port_models(self.port_list@).take(i as int), world(*wires, *collector), out@)
                    == defaulted(models.take(i as int), w0),
                *self == (VerilogModule { port_list: self.port_list, ..*old(self) }),
            decreases self.port_list@.len() - i,
        {
            let ghost prev = self.port_list@;
            let ghost done = port_models(self.port_list@).take(i as int);
            proof {
                assert(models.take(i + 1).drop_last() =~= models.take(i as int));
                assert(models.take(i + 1).last() == before[i as int].raw()@);
            }
            let port = self.port_list[i].get_raw_mut();
            port.connect_self();
            let r = port.check_health(wires, collector);
            out.push(r);
            proof {
                let ports = self.port_list@;
                assert(port_models(ports).take(i + 1) =~= done.push(ports[i as int].raw()@)) by {
                    assert forall|j: int| 0 <= j < i implies port_models(ports)[j] == done[j] by {
                        assert(ports[j] == prev[j]);
                    }
                }
                assert forall|j: int| 0 <= j < ports.len() implies (#[trigger] ports[j]).raw().wf() by {
                    if j != i {
                        assert(ports[j] == prev[j]);
                    }
                }
                assert(same_identity(before, ports)) by {
                    assert forall|j: int| 0 <= j < before.len() implies {
                        &&& (#[trigger] ports[j]).guards() == before[j].guards()
                        &&& ports[j].raw().inout == before[j].raw().inout
                        &&& ports[j].raw().top == before[j].raw().top
                        &&& ports[j].raw().name == before[j].raw().name
                        &&& ports[j].raw().width == before[j].raw().width
                        &&& ports[j].raw().info == before[j].raw().info
                    } by {
                        if j != i {
                            assert(ports[j] == prev[j]);
                        }
                    }
                }
            }
            i += 1;
        }
        proof {
            assert(models.take(models.len() as int) =~= models);
            assert(port_models(self.port_list@).take(self.port_list@.len() as int) =~= port_models(
                self.port_list@,
            ));
        }
        out
    }

    /// A module with the name of `other` and copies of its ports, under
    /// the guards of `other`. Each copy keeps the guards of its port, has
    /// its wires registered, and is checked.
    pub fn copy_module_from(
        other: &VerilogData<VerilogModule>,
        wires: &mut WireBuilder,
        collector: &mut UndefineWireCollector,
    ) -> (r: (VerilogData<VerilogModule>, Vec<PortHealth>))
        requires
            ports_wf(other.raw().port_list@),
            old(wires).wf(),
        ensures
            final(wires).wf(),
            r.0.guards() == other.guards(),
            r.0.raw().module_name@ == other.raw().module_name@,
            r.0.raw().inst_name is None,
            r.0.raw().param_list@.len() == 0,
            r.0.raw().inst_list@.len() == 0,
            ports_wf(r.0.raw().port_list@),
            r.0.raw().port_list@.len() == other.raw().port_list@.len(),
            forall|i: int|
                0 <= i < other.raw().port_list@.len() ==> {
                    &&& (#[trigger] r.0.raw().port_list@[i]).guards()
                        == other.raw().port_list@[i].guards()
                    &&& r.0.raw().port_list@[i].raw().width == other.raw().port_list@[i].raw().width
                    &&& r.0.raw().port_list@[i].raw().info@ == other.raw().port_list@[i].raw().info@
                },
            (port_models(r.0.raw().port_list@), world(*final(wires), *final(collector)), r.1@)
                == copied(
                port_models(other.raw().port_list@),
                world(*old(wires), *old(collector)),
            ),
    {
        let source = other.get_raw();
        let mut new_module = VerilogModule::new(source.module_name.clone());
        let mut out: Vec<PortHealth> = Vec::new();
        let mut i: usize = 0;
        let ghost models = port_models(source.port_list@);
        let ghost w0 = world(*wires, *collector);
        assert(models.take(0) =~= Seq::<PortModel>::empty());
        assert(port_models(new_module.port_list@) =~= Seq::<PortModel>::empty());
        while i < source.port_list.len()
            invariant
                i <= source.port_list@.len(),
                source == other.raw(),
                models == port_models(source.port_list@),
                w0 == world(*old(wires), *old(collector)),
                ports_wf(source.port_list@),
                ports_wf(new_module.port_list@),
                wires.wf(),
                new_module.module_name@ == source.module_name@,
                new_module.inst_name is None,
                new_module.param_list@.len() == 0,
                new_module.inst_list@.len() == 0,
                new_module.port_list@.len() == i,
                forall|j: int|
                    0 <= j < i ==> {
                        &&& (#[trigger] new_module.port_list@[j]).guards()
                            == source.port_list@[j].guards()
                        &&& new_module.port_list@[j].raw().width
                            == source.port_list@[j].raw().width
                        &&& new_module.port_list@[j].raw().info@
                            == source.port_list@[j].raw().info@
                    },
                (port_models(new_module.port_list@), world(*wires, *collector), out@) == copied(
                    models.take(i as int),
                    w0,
                ),
            decreases source.port_list@.len() - i,
        {
            let ghost done = port_models(new_module.port_list@);
            let ghost prev = new_module.port_list@;
            proof {
                assert(models.take(i + 1).drop_last() =~= models.take(i as int));
                assert(models.take(i + 1).last() == source.port_list@[i as int].raw()@);
            }
            let p = &source.port_list[i];
            let mut new_port = VerilogPort::copy_port_from(p.get_raw(), wires);
            assert(new_port@ == fresh_copy(p.raw()@));
            let r = new_port.check_health(wires, collector);
            out.push(r);
            let wrapped = wrap_as(new_port, p);
            new_module.port_list.push(wrapped);
            proof {
                let ports = new_module.port_list@;
                assert(port_models(ports) =~= done.push(ports[i as int].raw()@)) by {
                    assert forall|j: int| 0 <= j < i implies port_models(ports)[j] == done[j] by {
                        assert(ports[j] == prev[j]);
                    }
                }
                assert forall|j: int| 0 <= j < ports.len() implies (#[trigger] ports[j]).raw().wf() by {
                    if j != i {
                        assert(ports[j] == prev[j]);
                    }
                }
                assert forall|j: int| 0 <= j < i + 1 implies {
                    &&& (#[trigger] ports[j]).guards() == source.port_list@[j].guards()
                    &&& ports[j].raw().width == source.port_list@[j].raw().width
                    &&& ports[j].raw().info@ == source.port_list@[j].raw().info@
                } by {
                    if j != i {
                        assert(ports[j] == prev[j]);
                    }
                }
            }
            i += 1;
        }
        proof {
            assert(models.take(models.len() as int) =~= models);
        }
        (wrap_as(new_module, other), out)
    }

    /// Copies of the parameters of `other`.
    pub fn copy_parameter_from(other: &VerilogModule) -> (r: Vec<Param>)
        ensures
            r@ == other.param_list@,
    {
        let mut res: Vec<Param> = Vec::new();
        let mut i: usize = 0;
        while i < other.param_list.len()
            invariant
                i <= other.param_list@.len(),
                res@ == other.param_list@.take(i as int),
            decreases other.param_list@.len() - i,
        {
            res.push(other.param_list[i].duplicate());
            i += 1;
            assert(res@ =~= other.param_list@.take(i as int));
        }
        assert(other.param_list@.take(other.param_list@.len() as int) =~= other.param_list@);
        res
    }

    /// Evaluates the symbolic width of every port under `params`.
    pub fn update_literal_port(&mut self, params: &Vec<Param>)
        ensures
            final(self).port_list@.len() == old(self).port_list@.len(),
            forall|i: int|
                0 <= i < old(self).port_list@.len() ==> {
                    let before = (#[trigger] old(self).port_list@[i]).raw();
                    let after = final(self).port_list@[i].raw();
                    &&& final(self).port_list@[i].guards() == old(self).port_list@[i].guards()
                    &&& after == (VerilogPort { width: after.width, ..before })
                    &&& match before.width {
                        Width::RawWidth(x) => after.width == Width::RawWidth(x),
                        Width::LiteralWidth(s, _) => after.width.is_symbolic(
                            s@,
                            evaluated(s@, params@),
                        ),
                    }
                },
            *final(self) == (VerilogModule { port_list: final(self).port_list, ..*old(self) }),
    {
        let mut i: usize = 0;
        let ghost before = self.port_list@;
        while i < self.port_list.len()
            invariant
                i <= self.port_list@.len(),
                before == old(self).port_list@,
                self.port_list@.len() == before.len(),
                forall|j: int| i <= j < before.len() ==> self.port_list@[j] == before[j],
                forall|j: int|
                    0 <= j < i ==> {
                        let b = (#[trigger] before[j]).raw();
                        let a = self.port_list@[j].raw();
                        &&& self.port_list@[j].guards() == before[j].guards()
                        &&& a == (VerilogPort { width: a.width, ..b })
                        &&& match b.width {
                            Width::RawWidth(x) => a.width == Width::RawWidth(x),
                            Width::LiteralWidth(s, _) => a.width.is_symbolic(
                                s@,
                                evaluated(s@, params@),
                            ),
                        }
                    },
                *self == (VerilogModule { port_list: self.port_list, ..*old(self) }),
            decreases self.port_list@.len() - i,
        {
            let ghost prev = self.port_list@;
            self.port_list[i].get_raw_mut().update_literal_port_width(params);
            proof {
                assert forall|j: int| 0 <= j < i + 1 implies {
                    let b = (#[trigger] before[j]).raw();
                    let a = self.port_list@[j].raw();
                    &&& self.port_list@[j].guards() == before[j].guards()
                    &&& a == (VerilogPort { width: a.width, ..b })
                    &&& match b.width {
                        Width::RawWidth(x) => a.width == Width::RawWidth(x),
                        Width::LiteralWidth(s, _) => a.width.is_symbolic(
                            s@,
                            evaluated(s@, params@),
                        ),
                    }
                } by {
                    if j != i {
                        assert(self.port_list@[j] == prev[j]);
                    }
                }
            }
            i += 1;
        }
    }

    /// The instances of this module that `other` has no instance of, by
    /// the name of the module, in order.
    pub fn diff_inst_with<'a>(&'a self, other: &VerilogModule) -> (r: Vec<
        &'a VerilogData<VerilogModule>,
    >)
        ensures
            Seq::new(r@.len(), |i: int| *r@[i]) == selected(
                self.inst_list@,
                |m: VerilogData<VerilogModule>|
                    !module_names(other.inst_list@).contains(m.raw().module_name@),
            ),
    {
        let mut out: Vec<&VerilogData<VerilogModule>> = Vec::new();
        let mut i: usize = 0;
        let ghost keep = |m: VerilogData<VerilogModule>|
            !module_names(other.inst_list@).contains(m.raw().module_name@);
        assert(self.inst_list@.take(0) =~= Seq::<VerilogData<VerilogModule>>::empty());
        assert(Seq::new(out@.len(), |i: int| *out@[i]) =~= Seq::<
            VerilogData<VerilogModule>,
        >::empty());
        while i < self.inst_list.len()
            invariant
                i <= self.inst_list@.len(),
                keep == |m: VerilogData<VerilogModule>|
                    !module_names(other.inst_list@).contains(m.raw().module_name@),
                Seq::new(out@.len(), |i: int| *out@[i]) == selected(
                    self.inst_list@.take(i as int),
                    keep,
                ),
            decreases self.inst_list@.len() - i,
        {
            let item = &self.inst_list[i];
            let ghost before = Seq::new(out@.len(), |i: int| *out@[i]);
            proof {
                assert(self.inst_list@.take(i + 1).drop_last() =~= self.inst_list@.take(i as int));
                assert(self.inst_list@.take(i + 1).last() == *item);
            }
            let found = other.find_inst_module_by_name(item.get_raw().module_name.as_str());
            proof {
                let names = module_names(other.inst_list@);
                let n = item.raw().module_name@;
                lemma_first_index(names, n);
                if found is None {
                    assert(!names.contains(n));
                } else {
                    assert(names[found->0 as int] == n);
                    assert(names.contains(n));
                }
            }
            if found.is_none() {
                out.push(item);
                assert(Seq::new(out@.len(), |i: int| *out@[i]) =~= before.push(*item));
            }
            i += 1;
        }
        assert(self.inst_list@.take(self.inst_list@.len() as int) =~= self.inst_list@);
        out
    }

    fn holds_port(&self, p: &VerilogData<VerilogPort>) -> (r: bool)
        ensures
            r == has_port(self.port_list@, *p),
    {
        let mut j: usize = 0;
        while j < self.port_list.len()
            invariant
                j <= self.port_list@.len(),
                forall|t: int| 0 <= t < j ==> !(#[trigger] self.port_list@[t]).same_port(*p),
            decreases self.port_list@.len() - j,
        {
            if self.port_list[j].same(p) {
                return true;
            }
            j += 1;
        }
        false
    }

    /// The ports of this module that `other` has not, in order. Two ports
    /// are the same port if direction, name and number of bits agree,
    /// whatever their guards.
    pub fn diff_ports_with<'a>(&'a self, other: &VerilogModule) -> (r: Vec<
        &'a VerilogData<VerilogPort>,
    >)
        ensures
            Seq::new(r@.len(), |i: int| *r@[i]) == selected(
                self.port_list@,
                |p: VerilogData<VerilogPort>| !has_port(other.port_list@, p),
            ),
    {
        let mut out: Vec<&VerilogData<VerilogPort>> = Vec::new();
        let mut i: usize = 0;
        let ghost keep = |p: VerilogData<VerilogPort>| !has_port(other.port_list@, p);
        assert(self.port_list@.take(0) =~= Seq::<VerilogData<VerilogPort>>::empty());
        assert(Seq::new(out@.len(), |i: int| *out@[i]) =~= Seq::<
            VerilogData<VerilogPort>,
        >::empty());
        while i < self.port_list.len()
            invariant
                i <= self.port_list@.len(),
                keep == |p: VerilogData<VerilogPort>| !has_port(other.port_list@, p),
                Seq::new(out@.len(), |i: int| *out@[i]) == selected(
                    self.port_list@.take(i as int),
                    keep,
                ),
            decreases self.port_list@.len() - i,
        {
            let item = &self.port_list[i];
            let ghost before = Seq::new(out@.len(), |i: int| *out@[i]);
            proof {
                assert(self.port_list@.take(i + 1).drop_last() =~= self.port_list@.take(i as int));
                assert(self.port_list@.take(i + 1).last() == *item);
            }
            if !other.holds_port(item) {
                out.push(item);
                assert(Seq::new(out@.len(), |i: int| *out@[i]) =~= before.push(*item));
            }
            i += 1;
        }
        assert(self.port_list@.take(self.port_list@.len() as int) =~= self.port_list@);
        out
    }

    /// The ports of this module that `other` has too, in order.
    pub fn same_ports_with<'a>(&'a self, other: &VerilogModule) -> (r: Vec<
        &'a VerilogData<VerilogPort>,
    >)
        ensures
            Seq::new(r@.len(), |i: int| *r@[i]) == selected(
                self.port_list@,
                |p: VerilogData<VerilogPort>| has_port(other.port_list@, p),
            ),
    {
        let mut out: Vec<&VerilogData<VerilogPort>> = Vec::new();
        let mut i: usize = 0;
        let ghost keep = |p: VerilogData<VerilogPort>| has_port(other.port_list@, p);
        assert(self.port_list@.take(0) =~= Seq::<VerilogData<VerilogPort>>::empty());
        assert(Seq::new(out@.len(), |i: int| *out@[i]) =~= Seq::<
            VerilogData<VerilogPort>,
        >::empty());
        while i < self.port_list.len()
            invariant
                i <= self.port_list@.len(),
                keep == |p: VerilogData<VerilogPort>| has_port(other.port_list@, p),
                Seq::new(out@.len(), |i: int| *out@[i]) == selected(
                    self.port_list@.take(i as int),
                    keep,
                ),
            decreases self.port_list@.len() - i,
        {
            let item = &self.port_list[i];
            let ghost before = Seq::new(out@.len(), |i: int| *out@[i]);
            proof {
                assert(self.port_list@.take(i + 1).drop_last() =~= self.port_list@.take(i as int));
                assert(self.port_list@.take(i + 1).last() == *item);
            }
            if other.holds_port(item) {
                out.push(item);
                assert(Seq::new(out@.len(), |i: int| *out@[i]) =~= before.push(*item));
            }
            i += 1;
        }
        assert(self.port_list@.take(self.port_list@.len() as int) =~= self.port_list@);
        out
    }

    /// The last check of a module. Where signals are enrolled their
    /// equations are solved, and every port of the module, then every
    /// port of every instance, is checked again, which rewrites the
    /// enrolled signals with the widths found. Then the registry is
    /// checked.
    pub fn final_check(&mut self, wires: &mut WireBuilder, collector: &mut UndefineWireCollector)
        -> (r: FinalReport)
        requires
            old(self).wf(),
            old(wires).wf(),
        ensures
            final(self).wf(),
            final(wires).wf(),
            same_identity(old(self).port_list@, final(self).port_list@),
            final(self).module_name == old(self).module_name,
            final(self).inst_name == old(self).inst_name,
            final(self).param_list == old(self).param_list,
            final(self).inst_list@.len() == old(self).inst_list@.len(),
            forall|i: int|
                0 <= i < old(self).inst_list@.len() ==> {
                    &&& (#[trigger] final(self).inst_list@[i]).guards()
                        == old(self).inst_list@[i].guards()
                    &&& final(self).inst_list@[i].raw() == (VerilogModule {
                        port_list: final(self).inst_list@[i].raw().port_list,
                        ..old(self).inst_list@[i].raw()
                    })
                    &&& same_identity(
                        old(self).inst_list@[i].raw().port_list@,
                        final(self).inst_list@[i].raw().port_list@,
                    )
                },
            old(collector).wires@.len() == 0 ==> {
                &&& r.solved is None
                &&& *final(self) == *old(self)
                &&& final(wires)@ == old(wires)@
                &&& *final(collector) == *old(collector)
                &&& r.ports@.len() == 0
                &&& r.instances@.len() == 0
            },
            old(collector).wires@.len() > 0 ==> {
                let w0 = solved_world(world(*old(wires), *old(collector)));
                let (own, w1, found) = checked_each(port_models(old(self).port_list@), w0);
                let (inner, w2, found_inner) = checked_groups(
                    instance_models(old(self).inst_list@),
                    w1,
                );
                &&& r.solved == Some(solved(old(collector).equations()) is Some)
                &&& port_models(final(self).port_list@) == own
                &&& r.ports@ == found
                &&& instance_models(final(self).inst_list@) == inner
                &&& findings(r.instances@) == found_inner
                &&& world(*final(wires), *final(collector)) == w2
            },
            r.wires@.len() == final(wires).names().len(),
            forall|i: int|
                0 <= i < r.wires@.len() ==> reports(
                    #[trigger] r.wires@[i],
                    final(wires).names()[i],
                    final(wires)@[final(wires).names()[i]],
                ),
    {
        let mut ports: Vec<PortHealth> = Vec::new();
        let mut instances: Vec<Vec<PortHealth>> = Vec::new();
        let mut solved_flag: Option<bool> = None;
        if collector.has_wires() {
            let ghost start = world(*wires, *collector);
            let ok = collector.solve_func();
            solved_flag = Some(ok);
            proof {
                let w0 = solved_world(start);
                if ok {
                    let x = solved(old(collector).equations())->0;
                    assert(collector.res@ =~= as_sizes(x)) by {
                        assert(widths(collector.res@) == x);
                        assert forall|i: int| 0 <= i < x.len() implies collector.res@[i]
                            == as_sizes(x)[i] by {
                            assert(widths(collector.res@)[i] == x[i]);
                        }
                    }
                }
                assert(world(*wires, *collector) == w0);
            }
            let ghost w0 = world(*wires, *collector);
            ports = check_ports(&mut self.port_list, wires, collector);
            let ghost w1 = world(*wires, *collector);
            let ghost own_after = self.port_list@;
            let ghost own_found = ports@;
            let ghost before = self.inst_list@;
            let ghost groups = instance_models(before);
            let mut i: usize = 0;
            assert(groups.take(0) =~= Seq::<Seq<PortModel>>::empty());
            assert(instance_models(self.inst_list@).take(0) =~= Seq::<Seq<PortModel>>::empty());
            assert(findings(instances@) =~= Seq::<Seq<PortHealth>>::empty());
            while i < self.inst_list.len()
                invariant
                    i <= self.inst_list@.len(),
                    before == old(self).inst_list@,
                    groups == instance_models(before),
                    self.inst_list@.len() == before.len(),
                    self.port_list@ == own_after,
                    ports@ == own_found,
                    solved_flag == Some(solved(old(collector).equations()) is Some),
                    old(collector).wires@.len() > 0,
                    w0 == solved_world(world(*old(wires), *old(collector))),
                    same_identity(old(self).port_list@, own_after),
                    (port_models(own_after), w1, own_found) == checked_each(
                        port_models(old(self).port_list@),
                        w0,
                    ),
                    wires.wf(),
                    ports_wf(self.port_list@),
                    forall|j: int|
                        0 <= j < self.inst_list@.len() ==> ports_wf(
                            (#[trigger] self.inst_list@[j]).raw().port_list@,
                        ),
                    forall|j: int| i <= j < before.len() ==> self.inst_list@[j] == before[j],
                    forall|j: int|
                        0 <= j < before.len() ==> {
                            &&& (#[trigger] self.inst_list@[j]).guards() == before[j].guards()
                            &&& self.inst_list@[j].raw() == (VerilogModule {
                                port_list: self.inst_list@[j].raw().port_list,
                                ..before[j].raw()
                            })
                            &&& same_identity(
                                before[j].raw().port_list@,
                                self.inst_list@[j].raw().port_list@,
                            )
                        },
                    (
                        instance_models(self.inst_list@).take(i as int),
                        world(*wires, *collector),
                        findings(instances@),
                    ) == checked_groups(groups.take(i as int), w1),
                    *self == (VerilogModule {
                        port_list: self.port_list,
                        inst_list: self.inst_list,
                        ..*old(self)
                    }),
                decreases self.inst_list@.len() - i,
            {
                let ghost prev = self.inst_list@;
                let ghost done = instance_models(self.inst_list@).take(i as int);
                let ghost found = findings(instances@);
                proof {
                    assert(groups.take(i + 1).drop_last() =~= groups.take(i as int));
                    assert(groups.take(i + 1).last() == port_models(before[i as int].raw().port_list@));
                }
                let inst = self.inst_list[i].get_raw_mut();
                let r = check_ports(&mut inst.port_list, wires, collector);
                instances.push(r);
                proof {
                    let list = self.inst_list@;
                    assert(findings(instances@) =~= found.push(r@));
                    assert(instance_models(list).take(i + 1) =~= done.push(
                        port_models(list[i as int].raw().port_list@),
                    )) by {
                        assert forall|j: int| 0 <= j < i implies instance_models(list)[j]
                            == done[j] by {
                            assert(list[j] == prev[j]);
                        }
                    }
                    assert forall|j: int| 0 <= j < list.len() implies ports_wf(
                        (#[trigger] list[j]).raw().port_list@,
                    ) by {
                        if j != i {
                            assert(list[j] == prev[j]);
                        }
                    }
                    assert forall|j: int| 0 <= j < before.len() implies {
                        &&& (#[trigger] list[j]).guards() == before[j].guards()
                        &&& list[j].raw() == (VerilogModule {
                            port_list: list[j].raw().port_list,
                            ..before[j].raw()
                        })
                        &&& same_identity(before[j].raw().port_list@, list[j].raw().port_list@)
                    } by {
                        if j != i {
                            assert(list[j] == prev[j]);
                        }
                    }
                }
                i += 1;
            }
            proof {
                assert(groups.take(groups.len() as int) =~= groups);
                assert(instance_models(self.inst_list@).take(self.inst_list@.len() as int)
                    =~= instance_models(self.inst_list@));
            }
        }
        let reports = wires.check_health();
        proof {
            wires.lemma_names();
        }
        FinalReport { solved: solved_flag, ports, instances, wires: reports }
    }

    /// The lines of the module as an instance.
    pub fn to_inst_string(&self) -> (r: Vec<String>)
        ensures
            views(r@) == self.inst_lines(),
    {
        let mut res: Vec<String> = Vec::new();
        let inst_name = match &self.inst_name {
            Some(s) => s.clone(),
            None => {
                let mut s = String::from_str("u_");
                s.append(self.module_name.as_str());
                s
            },
        };
        let n = self.param_list.len();
        if n == 0 {
            let mut line = self.module_name.clone();
            line.append(" ");
            line.append(inst_name.as_str());
            line.append(" (");
            res.push(line);
            assert(views(res@) =~= seq![self.module_name@ + " "@ + self.instance_name() + " ("@]);
        } else {
            let mut line = self.module_name.clone();
            line.append(" #(");
            res.push(line);
            let ghost lines = param_lines(self.param_list@);
            let ghost head = seq![self.module_name@ + " #("@];
            let mut i: usize = 0;
            assert(views(res@) =~= head + lines.take(0));
            while i < n
                invariant
                    i <= n,
                    n == self.param_list@.len(),
                    lines == param_lines(self.param_list@),
                    head == seq![self.module_name@ + " #("@],
                    views(res@) == head + lines.take(i as int),
                decreases n - i,
            {
                let p = &self.param_list[i];
                let mut line = String::from_str("    .");
                line.append(pad(p.name.as_str(), 20).as_str());
                line.append("(");
                line.append(pad(p.get_name().as_str(), 10).as_str());
                if i == n - 1 {
                    line.append(")");
                } else {
                    line.append("),");
                }
                let ghost before = views(res@);
                res.push(line);
                i += 1;
                assert(views(res@) =~= before.push(lines[i - 1]));
                assert(views(res@) =~= head + lines.take(i as int));
            }
            assert(lines.take(n as int) =~= lines);
            let mut line = String::from_str(") ");
            line.append(inst_name.as_str());
            line.append(" (");
            let ghost before = views(res@);
            res.push(line);
            assert(views(res@) =~= head + lines + seq![") "@ + self.instance_name() + " ("@]);
        }
        let ghost header = views(res@);
        let ghost blocks = binding_blocks(self.port_list@);
        let mut i: usize = 0;
        assert(blocks.take(0) =~= Seq::<Seq<Seq<char>>>::empty());
        assert(views(res@) =~= header + flat(blocks.take(0)));
        while i < self.port_list.len()
            invariant
                i <= self.port_list@.len(),
                blocks == binding_blocks(self.port_list@),
                views(res@) == header + flat(blocks.take(i as int)),
            decreases self.port_list@.len() - i,
        {
            let mut lines = self.port_list[i].to_inst_string(i == self.port_list.len() - 1);
            let ghost before = views(res@);
            let ghost added = views(lines@);
            proof {
                assert(blocks.take(i + 1).drop_last() =~= blocks.take(i as int));
                assert(blocks.take(i + 1).last() == added);
            }
            res.append(&mut lines);
            i += 1;
            assert(views(res@) =~= before + added);
        }
        assert(blocks.take(blocks.len() as int) =~= blocks);
        let ghost before = views(res@);
        res.push(String::from_str(");"));
        assert(views(res@) =~= before + seq![");"@]);
        res
    }

    /// The blocks of the instances in the text of a module: the lines of
    /// each instance between its guards, indented, and an empty block
    /// after them.
    pub open spec fn instance_blocks(self) -> Seq<Seq<Seq<char>>> {
        Seq::new(
            self.inst_list@.len(),
            |i: int|
                indented(
                    guarded(self.inst_list@[i].raw().inst_lines(), self.inst_list@[i].guards()),
                ) + seq!["\n\n"@],
        )
    }

    /// The lines of the module: its name, the declarations of its ports,
    /// the declarations of the wires `internal`, the assignments of
    /// concatenations to ports, the instances, and the closing line.
    pub open spec fn module_lines(self, internal: Seq<(Seq<char>, int)>) -> Seq<Seq<char>> {
        seq!["module "@ + self.module_name@ + " ("@] + flat(declaration_blocks(self.port_list@))
            + seq![");\n"@] + Seq::new(
            internal.len(),
            |i: int| "    "@ + wire_line(internal[i].0, internal[i].1 as usize),
        ) + seq!["\n"@] + flat(assign_blocks(self.port_list@)) + seq!["\n"@] + flat(
            self.instance_blocks(),
        ) + seq!["endmodule"@]
    }

    /// The text of the module, line by line. The wires declared are those
    /// of the registry that are no ports, in the order of their names.
    pub fn to_module_string(&self, wires: &WireBuilder) -> (r: Vec<String>)
        requires
            wires.wf(),
        ensures
            views(r@) == self.module_lines(internal_wires(wires.names(), wires@)),
    {
        let mut res: Vec<String> = Vec::new();
        let mut line = String::from_str("module ");
        line.append(self.module_name.as_str());
        line.append(" (");
        res.push(line);
        let ghost first = seq!["module "@ + self.module_name@ + " ("@];
        assert(views(res@) =~= first);
        // The declarations of the ports.
        let ghost decls = declaration_blocks(self.port_list@);
        let mut i: usize = 0;
        assert(decls.take(0) =~= Seq::<Seq<Seq<char>>>::empty());
        assert(views(res@) =~= first + flat(decls.take(0)));
        while i < self.port_list.len()
            invariant
                i <= self.port_list@.len(),
                decls == declaration_blocks(self.port_list@),
                views(res@) == first + flat(decls.take(i as int)),
            decreases self.port_list@.len() - i,
        {
            let mut lines = self.port_list[i].to_port_string(i == self.port_list.len() - 1);
            let ghost before = views(res@);
            let ghost added = views(lines@);
            proof {
                assert(decls.take(i + 1).drop_last() =~= decls.take(i as int));
                assert(decls.take(i + 1).last() == added);
            }
            res.append(&mut lines);
            i += 1;
            assert(views(res@) =~= before + added);
        }
        assert(decls.take(decls.len() as int) =~= decls);
        let ghost before = views(res@);
        res.push(String::from_str(");\n"));
        assert(views(res@) =~= before + seq![");\n"@]);
        // The declarations of the wires.
        let printers = wires.traverse_unport_wires();
        let ghost internal = internal_wires(wires.names(), wires@);
        let ghost wire_lines = Seq::new(
            internal.len(),
            |i: int| "    "@ + wire_line(internal[i].0, internal[i].1 as usize),
        );
        let ghost part1 = views(res@);
        let mut k: usize = 0;
        assert(views(res@) =~= part1 + wire_lines.take(0));
        while k < printers.len()
            invariant
                k <= printers@.len(),
                printed(printers@) == internal,
                wire_lines == Seq::new(
                    internal.len(),
                    |i: int| "    "@ + wire_line(internal[i].0, internal[i].1 as usize),
                ),
                views(res@) == part1 + wire_lines.take(k as int),
            decreases printers@.len() - k,
        {
            let text = printers[k].to_string();
            let mut line = String::from_str("    ");
            line.append(text[0].as_str());
            let ghost before = views(res@);
            proof {
                assert(printed(printers@)[k as int] == (
                    printers@[k as int].name@,
                    printers@[k as int].width as int,
                ));
                assert(line@ == wire_lines[k as int]);
            }
            res.push(line);
            k += 1;
            assert(views(res@) =~= before.push(wire_lines[k - 1]));
            assert(views(res@) =~= part1 + wire_lines.take(k as int));
        }
        assert(wire_lines.take(wire_lines.len() as int) =~= wire_lines);
        let ghost before = views(res@);
        res.push(String::from_str("\n"));
        assert(views(res@) =~= before + seq!["\n"@]);
        // The assignments.
        let ghost part2 = views(res@);
        let ghost assigns = assign_blocks(self.port_list@);
        i = 0;
        assert(assigns.take(0) =~= Seq::<Seq<Seq<char>>>::empty());
        assert(views(res@) =~= part2 + flat(assigns.take(0)));
        while i < self.port_list.len()
            invariant
                i <= self.port_list@.len(),
                assigns == assign_blocks(self.port_list@),
                views(res@) == part2 + flat(assigns.take(i as int)),
            decreases self.port_list@.len() - i,
        {
            let ghost before = views(res@);
            proof {
                assert(assigns.take(i + 1).drop_last() =~= assigns.take(i as int));
                assert(assigns.take(i + 1).last() == assigns[i as int]);
            }
            match self.port_list[i].to_assign_string() {
                Some(lines) => {
                    let mut lines = lines;
                    let ghost added = views(lines@);
                    res.append(&mut lines);
                    assert(views(res@) =~= before + added);
                },
                None => {
                    assert(before + Seq::<Seq<char>>::empty() =~= before);
                },
            }
            i += 1;
        }
        assert(assigns.take(assigns.len() as int) =~= assigns);
        let ghost before = views(res@);
        res.push(String::from_str("\n"));
        assert(views(res@) =~= before + seq!["\n"@]);
        // The instances.
        let ghost part3 = views(res@);
        let ghost blocks = self.instance_blocks();
        i = 0;
        assert(blocks.take(0) =~= Seq::<Seq<Seq<char>>>::empty());
        assert(views(res@) =~= part3 + flat(blocks.take(0)));
        while i < self.inst_list.len()
            invariant
                i <= self.inst_list@.len(),
                blocks == self.instance_blocks(),
                views(res@) == part3 + flat(blocks.take(i as int)),
            decreases self.inst_list@.len() - i,
        {
            let ghost before = views(res@);
            proof {
                assert(blocks.take(i + 1).drop_last() =~= blocks.take(i as int));
                assert(blocks.take(i + 1).last() == blocks[i as int]);
            }
            let mut lines = indent(self.inst_list[i].to_inst_string());
            let ghost added = views(lines@);
            res.append(&mut lines);
            res.push(String::from_str("\n\n"));
            assert(views(res@) =~= before + (added + seq!["\n\n"@]));
            i += 1;
        }
        assert(blocks.take(blocks.len() as int) =~= blocks);
        let ghost before = views(res@);
        res.push(String::from_str("endmodule"));
        assert(views(res@) =~= before + seq!["endmodule"@]);
        res
    }

    /// The name of the module.
    pub fn get_name(&self) -> (r: String)
        ensures
            r@ == self.module_name@,
    {
        self.module_name.clone()
    }
}

} // verus!
