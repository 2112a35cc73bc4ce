//! Bringing a workbook up to date with the sources: the module that the
//! sheets describe is rebuilt against the instances that the sources
//! define.
//!
//! An instance of the workbook is kept if the sources still define it;
//! it keeps the ports that the sources still declare, with their
//! signals, and gains the ports that the sources declare anew, without
//! any. An instance that only the sources define is added whole. A port
//! of the module is kept if a wire asks for it, or if the registry knows
//! a wire it could stand for; the wires still unbalanced then give the
//! remaining ports.
use crate::collector::UndefineWireCollector;
use crate::data::wrap_as;
use crate::data::VerilogData;
use crate::module::copied;
use crate::module::fresh_copy;
use crate::module::port_models;
use crate::module::ports_wf;
use crate::port::checked;
use crate::port::rebound;
use crate::port::registered_as_wire;
use crate::port::role_of;
use crate::port::world;
use crate::port::Fragment;
use crate::port::PortHealth;
use crate::port::PortModel;
use crate::port::VerilogPort;
use crate::port::World;
use crate::reader::entries_of;
use crate::reader::entry_of;
use crate::reader::PortEntry;
use crate::wire::fragment_found;
use crate::wire::unbalanced;
use crate::wire::WireBuilder;
use vstd::prelude::*;

verus! {

/// The ports that the references point to.
pub open spec fn pointed(list: Seq<&VerilogData<VerilogPort>>) -> Seq<VerilogData<VerilogPort>> {
    Seq::new(list.len(), |i: int| *list[i])
}

/// A new port like `p` with no fragment but the placeholder.
pub open spec fn blank_copy(p: PortModel) -> PortModel {
    PortModel {
        frags: seq![Fragment::NONE],
        pending: 0,
        slots: Seq::empty(),
        checked: false,
        registered: false,
        ..p
    }
}

/// Each port copied without its fragments, and the copy checked.
pub open spec fn blanked(ports: Seq<PortModel>, w: World) -> (
    Seq<PortModel>,
    World,
    Seq<PortHealth>,
)
    decreases ports.len(),
{
    if ports.len() == 0 {
        (Seq::empty(), w, Seq::empty())
    } else {
        let (qs, w1, rs) = blanked(ports.drop_last(), w);
        let (q, w2, r) = checked(blank_copy(ports.last()), w1);
        (qs.push(q), w2, rs.push(r))
    }
}

/// Each port copied with its fragments, the wires of the copy
/// registered, and the copy registered as a port of the module.
pub open spec fn kept(ports: Seq<PortModel>, w: World) -> (
    Seq<PortModel>,
    World,
    Seq<Option<PortHealth>>,
)
    decreases ports.len(),
{
    if ports.len() == 0 {
        (Seq::empty(), w, Seq::empty())
    } else {
        let (qs, w1, rs) = kept(ports.drop_last(), w);
        let p = ports.last();
        let (q, w2, r) = registered_as_wire(
            fresh_copy(p),
            World { wires: rebound(w1.wires, role_of(p.dir, p.top), p.frags), ..w1 },
        );
        (qs.push(q), w2, rs.push(r))
    }
}

/// The registry knows a wire that the port could stand for.
pub open spec fn known(w: World, p: PortModel) -> bool {
    exists|i: int|
        0 <= i < p.frags.len() && #[trigger] fragment_found(
            w.wires,
            p.frags[i],
            p.name,
            p.dir,
            p.declared,
        )
}

/// The ports among `entries` that the registry knows a wire for, each
/// kept as by `kept` in the world that the ports before it left; the
/// others are dropped.
pub open spec fn rescued(entries: Seq<PortEntry>, w: World) -> (
    Seq<PortEntry>,
    World,
    Seq<Option<PortHealth>>,
)
    decreases entries.len(),
{
    if entries.len() == 0 {
        (Seq::empty(), w, Seq::empty())
    } else {
        let (qs, w1, rs) = rescued(entries.drop_last(), w);
        let e = entries.last();
        if known(w1, e.port) {
            let (q, w2, r) = registered_as_wire(
                fresh_copy(e.port),
                World {
                    wires: rebound(w1.wires, role_of(e.port.dir, e.port.top), e.port.frags),
                    ..w1
                },
            );
            (qs.push(PortEntry { port: q, ..e }), w2, rs.push(r))
        } else {
            (qs, w1, rs)
        }
    }
}

/// The entries of the ports of `after` are those of `before` but for the
/// ports themselves.
pub open spec fn entries_follow(before: Seq<VerilogData<VerilogPort>>, after: Seq<
    VerilogData<VerilogPort>,
>) -> bool {
    &&& after.len() == before.len()
    &&& forall|i: int|
        0 <= i < before.len() ==> {
            &&& (#[trigger] after[i]).guards() == before[i].guards()
            &&& after[i].raw().info@ == before[i].raw().info@
            &&& after[i].raw().width == before[i].raw().width
        }
}

/// Copies each port with its fragments, registers the wires of the
/// copy, and checks it. The copies keep the guards of their ports.
pub fn copy_checked(
    list: &Vec<&VerilogData<VerilogPort>>,
    wires: &mut WireBuilder,
    collector: &mut UndefineWireCollector,
) -> (r: (Vec<VerilogData<VerilogPort>>, Vec<PortHealth>))
    requires
        ports_wf(pointed(list@)),
        old(wires).wf(),
    ensures
        final(wires).wf(),
        ports_wf(r.0@),
        entries_follow(pointed(list@), r.0@),
        (port_models(r.0@), world(*final(wires), *final(collector)), r.1@) == copied(
            port_models(pointed(list@)),
            world(*old(wires), *old(collector)),
        ),
{
    let mut out: Vec<VerilogData<VerilogPort>> = Vec::new();
    let mut health: Vec<PortHealth> = Vec::new();
    let ghost source = pointed(list@);
    let ghost models = port_models(source);
    let ghost w0 = world(*wires, *collector);
    let mut i: usize = 0;
    proof {
        assert(models.take(0) =~= Seq::<PortModel>::empty());
        assert(port_models(out@) =~= Seq::<PortModel>::empty());
    }
    while i < list.len()
        invariant
            i <= list@.len(),
            source == pointed(list@),
            models == port_models(source),
            w0 == world(*old(wires), *old(collector)),
            ports_wf(source),
            ports_wf(out@),
            wires.wf(),
            out@.len() == i,
            forall|j: int|
                0 <= j < i ==> {
                    &&& (#[trigger] out@[j]).guards() == source[j].guards()
                    &&& out@[j].raw().info@ == source[j].raw().info@
                    &&& out@[j].raw().width == source[j].raw().width
                },
            (port_models(out@), world(*wires, *collector), health@) == copied(
                models.take(i as int),
                w0,
            ),
        decreases list@.len() - i,
    {
        let ghost done = port_models(out@);
        let ghost prev = out@;
        let p = list[i];
        proof {
            assert(models.take(i + 1).drop_last() =~= models.take(i as int));
            assert(models.take(i + 1).last() == source[i as int].raw()@);
            assert(source[i as int] == *p);
            assert(source[i as int].raw().wf());
        }
        let mut new_port = VerilogPort::copy_port_from(p.get_raw(), wires);
        assert(new_port@ == fresh_copy(p.raw()@));
        let r = new_port.check_health(wires, collector);
        health.push(r);
        let wrapped = wrap_as(new_port, p);
        out.push(wrapped);
        proof {
            let now = out@;
            assert(port_models(now) =~= done.push(wrapped.raw()@));
            assert forall|j: int| 0 <= j < now.len() implies (#[trigger] now[j]).raw().wf() by {
                if j < prev.len() {
                    assert(now[j] == prev[j]);
                }
            }
            assert forall|j: int| 0 <= j < i + 1 implies {
                &&& (#[trigger] now[j]).guards() == source[j].guards()
                &&& now[j].raw().info@ == source[j].raw().info@
                &&& now[j].raw().width == source[j].raw().width
            } by {
                if j < prev.len() {
                    assert(now[j] == prev[j]);
                }
            }
        }
        i += 1;
    }
    proof {
        assert(models.take(models.len() as int) =~= models);
    }
    (out, health)
}

/// Copies each port without its fragments and checks the copy. The
/// copies keep the guards of their ports.
pub fn blank_checked(
    list: &Vec<&VerilogData<VerilogPort>>,
    wires: &mut WireBuilder,
    collector: &mut UndefineWireCollector,
) -> (r: (Vec<VerilogData<VerilogPort>>, Vec<PortHealth>))
    requires
        old(wires).wf(),
    ensures
        final(wires).wf(),
        ports_wf(r.0@),
        entries_follow(pointed(list@), r.0@),
        (port_models(r.0@), world(*final(wires), *final(collector)), r.1@) == blanked(
            port_models(pointed(list@)),
            world(*old(wires), *old(collector)),
        ),
{
    let mut out: Vec<VerilogData<VerilogPort>> = Vec::new();
    let mut health: Vec<PortHealth> = Vec::new();
    let ghost source = pointed(list@);
    let ghost models = port_models(source);
    let ghost w0 = world(*wires, *collector);
    let mut i: usize = 0;
    proof {
        assert(models.take(0) =~= Seq::<PortModel>::empty());
        assert(port_models(out@) =~= Seq::<PortModel>::empty());
    }
    while i < list.len()
        invariant
            i <= list@.len(),
            source == pointed(list@),
            models == port_models(source),
            w0 == world(*old(wires), *old(collector)),
            ports_wf(out@),
            wires.wf(),
            out@.len() == i,
            forall|j: int|
                0 <= j < i ==> {
                    &&& (#[trigger] out@[j]).guards() == source[j].guards()
                    &&& out@[j].raw().info@ == source[j].raw().info@
                    &&& out@[j].raw().width == source[j].raw().width
                },
            (port_models(out@), world(*wires, *collector), health@) == blanked(
                models.take(i as int),
                w0,
            ),
        decreases list@.len() - i,
    {
        let ghost done = port_models(out@);
        let ghost prev = out@;
        let p = list[i];
        proof {
            assert(models.take(i + 1).drop_last() =~= models.take(i as int));
            assert(models.take(i + 1).last() == source[i as int].raw()@);
            assert(source[i as int] == *p);
        }
        let mut new_port = VerilogPort::copy_port_without_wire_from(p.get_raw());
        assert(new_port@ == blank_copy(p.raw()@)) by {
            assert(new_port.undefine_wires_idx@ =~= Seq::<(usize, usize)>::empty());
        }
        let r = new_port.check_health(wires, collector);
        health.push(r);
        let wrapped = wrap_as(new_port, p);
        out.push(wrapped);
        proof {
            let now = out@;
            assert(port_models(now) =~= done.push(wrapped.raw()@));
            assert forall|j: int| 0 <= j < now.len() implies (#[trigger] now[j]).raw().wf() by {
                if j < prev.len() {
                    assert(now[j] == prev[j]);
                }
            }
            assert forall|j: int| 0 <= j < i + 1 implies {
                &&& (#[trigger] now[j]).guards() == source[j].guards()
                &&& now[j].raw().info@ == source[j].raw().info@
                &&& now[j].raw().width == source[j].raw().width
            } by {
                if j < prev.len() {
                    assert(now[j] == prev[j]);
                }
            }
        }
        i += 1;
    }
    proof {
        assert(models.take(models.len() as int) =~= models);
    }
    (out, health)
}

/// Copies each port with its fragments, registers the wires of the
/// copy, and registers the copy as a port of the module. The copies keep
/// the guards of their ports.
pub fn keep_ports(
    list: &Vec<&VerilogData<VerilogPort>>,
    wires: &mut WireBuilder,
    collector: &mut UndefineWireCollector,
) -> (r: (Vec<VerilogData<VerilogPort>>, Vec<Option<PortHealth>>))
    requires
        ports_wf(pointed(list@)),
        old(wires).wf(),
    ensures
        final(wires).wf(),
        ports_wf(r.0@),
        entries_follow(pointed(list@), r.0@),
        (port_models(r.0@), world(*final(wires), *final(collector)), r.1@) == kept(
            port_models(pointed(list@)),
            world(*old(wires), *old(collector)),
        ),
{
    let mut out: Vec<VerilogData<VerilogPort>> = Vec::new();
    let mut health: Vec<Option<PortHealth>> = Vec::new();
    let ghost source = pointed(list@);
    let ghost models = port_models(source);
    let ghost w0 = world(*wires, *collector);
    let mut i: usize = 0;
    proof {
        assert(models.take(0) =~= Seq::<PortModel>::empty());
        assert(port_models(out@) =~= Seq::<PortModel>::empty());
    }
    while i < list.len()
        invariant
            i <= list@.len(),
            source == pointed(list@),
            models == port_models(source),
            w0 == world(*old(wires), *old(collector)),
            ports_wf(source),
            ports_wf(out@),
            wires.wf(),
            out@.len() == i,
            forall|j: int|
                0 <= j < i ==> {
                    &&& (#[trigger] out@[j]).guards() == source[j].guards()
                    &&& out@[j].raw().info@ == source[j].raw().info@
                    &&& out@[j].raw().width == source[j].raw().width
                },
            (port_models(out@), world(*wires, *collector), health@) == kept(
                models.take(i as int),
                w0,
            ),
        decreases list@.len() - i,
    {
        let ghost done = port_models(out@);
        let ghost prev = out@;
        let p = list[i];
        proof {
            assert(models.take(i + 1).drop_last() =~= models.take(i as int));
            assert(models.take(i + 1).last() == source[i as int].raw()@);
            assert(source[i as int] == *p);
            assert(source[i as int].raw().wf());
        }
        let mut new_port = VerilogPort::copy_port_from(p.get_raw(), wires);
        assert(new_port@ == fresh_copy(p.raw()@));
        let r = new_port.register_port_as_wire(wires, collector);
        health.push(r);
        let wrapped = wrap_as(new_port, p);
        out.push(wrapped);
        proof {
            let now = out@;
            assert(port_models(now) =~= done.push(wrapped.raw()@));
            assert forall|j: int| 0 <= j < now.len() implies (#[trigger] now[j]).raw().wf() by {
                if j < prev.len() {
                    assert(now[j] == prev[j]);
                }
            }
            assert forall|j: int| 0 <= j < i + 1 implies {
                &&& (#[trigger] now[j]).guards() == source[j].guards()
                &&& now[j].raw().info@ == source[j].raw().info@
                &&& now[j].raw().width == source[j].raw().width
            } by {
                if j < prev.len() {
                    assert(now[j] == prev[j]);
                }
            }
        }
        i += 1;
    }
    proof {
        assert(models.take(models.len() as int) =~= models);
    }
    (out, health)
}

/// Keeps, of the ports in `list`, those that the registry knows a wire
/// for: each is copied with its fragments and registered as a port of
/// the module. The others are dropped.
pub fn rescue_ports(
    list: &Vec<&VerilogData<VerilogPort>>,
    wires: &mut WireBuilder,
    collector: &mut UndefineWireCollector,
) -> (r: (Vec<VerilogData<VerilogPort>>, Vec<Option<PortHealth>>))
    requires
        ports_wf(pointed(list@)),
        old(wires).wf(),
    ensures
        final(wires).wf(),
        ports_wf(r.0@),
        (entries_of(r.0@), world(*final(wires), *final(collector)), r.1@) == rescued(
            entries_of(pointed(list@)),
            world(*old(wires), *old(collector)),
        ),
        forall|j: int|
            0 <= j < r.0@.len() ==> exists|k: int|
                0 <= k < list@.len() && (#[trigger] r.0@[j]).raw().width == list@[k].raw().width,
{
    let mut out: Vec<VerilogData<VerilogPort>> = Vec::new();
    let mut health: Vec<Option<PortHealth>> = Vec::new();
    let ghost source = pointed(list@);
    let ghost entries = entries_of(source);
    let ghost w0 = world(*wires, *collector);
    let mut i: usize = 0;
    proof {
        assert(entries.take(0) =~= Seq::<PortEntry>::empty());
        assert(entries_of(out@) =~= Seq::<PortEntry>::empty());
    }
    while i < list.len()
        invariant
            i <= list@.len(),
            source == pointed(list@),
            entries == entries_of(source),
            w0 == world(*old(wires), *old(collector)),
            ports_wf(source),
            ports_wf(out@),
            wires.wf(),
            (entries_of(out@), world(*wires, *collector), health@) == rescued(
                entries.take(i as int),
                w0,
            ),
            forall|j: int|
                0 <= j < out@.len() ==> exists|k: int|
                    0 <= k < list@.len() && (#[trigger] out@[j]).raw().width
                        == list@[k].raw().width,
        decreases list@.len() - i,
    {
        let ghost done = entries_of(out@);
        let ghost prev = out@;
        let p = list[i];
        proof {
            assert(entries.take(i + 1).drop_last() =~= entries.take(i as int));
            assert(entries.take(i + 1).last() == entry_of(source[i as int]));
            assert(source[i as int] == *p);
            assert(source[i as int].raw().wf());
        }
        if wires.find_wire_in(p.get_raw()) {
            let mut new_port = VerilogPort::copy_port_from(p.get_raw(), wires);
            assert(new_port@ == fresh_copy(p.raw()@));
            let r = new_port.register_port_as_wire(wires, collector);
            health.push(r);
            let wrapped = wrap_as(new_port, p);
            out.push(wrapped);
            proof {
                let now = out@;
                assert(entries_of(now) =~= done.push(
                    PortEntry { port: wrapped.raw()@, ..entry_of(*p) },
                ));
                assert forall|j: int| 0 <= j < now.len() implies (#[trigger] now[j]).raw().wf() by {
                    if j < prev.len() {
                        assert(now[j] == prev[j]);
                    }
                }
                assert forall|j: int| 0 <= j < now.len() implies exists|k: int|
                    0 <= k < list@.len() && (#[trigger] now[j]).raw().width
                        == list@[k].raw().width by {
                    if j < prev.len() {
                        assert(now[j] == prev[j]);
                        let k = choose|k: int|
                            0 <= k < list@.len() && prev[j].raw().width == list@[k].raw().width;
                        assert(now[j].raw().width == list@[k].raw().width);
                    } else {
                        assert(now[j].raw().width == list@[i as int].raw().width);
                    }
                }
            }
        }
        i += 1;
    }
    proof {
        assert(entries.take(entries.len() as int) =~= entries);
    }
    (out, health)
}

} // verus!
