//! The module of a workbook rebuilt against the sources, phase by phase.
use crate::collector::UndefineWireCollector;
use crate::data::wrap_as;
use crate::data::VerilogData;
use crate::module::copied;
use crate::module::has_port;
use crate::module::module_names;
use crate::module::port_models;
use crate::module::ports_wf;
use crate::module::selected;
use crate::module::VerilogModule;
use crate::parameter::Param;
use crate::port::world;
use crate::port::Fragment;
use crate::port::PortDir;
use crate::port::PortHealth;
use crate::port::PortModel;
use crate::port::VerilogPort;
use crate::port::World;
use crate::reader::entries_of;
use crate::reader::entry_models;
use crate::reader::entry_of;
use crate::reader::facts_of;
use crate::reader::with_ports;
use crate::reader::ModuleFacts;
use crate::reader::PortEntry;
use crate::reconcile::blank_checked;
use crate::reconcile::blanked;
use crate::reconcile::copy_checked;
use crate::reconcile::entries_follow;
use crate::reconcile::keep_ports;
use crate::reconcile::kept;
use crate::reconcile::pointed;
use crate::reconcile::rescue_ports;
use crate::reconcile::rescued;
use crate::text::first_index;
use crate::text::lemma_first_index;
use crate::width::evaluated;
use crate::width::Width;
use crate::wire::sorted_names;
use crate::wire::unbalanced;
use crate::wire::wanted;
use crate::wire::WireBuilder;
use crate::wire::WireReport;
use crate::writer::leftover_ports;
use crate::writer::ExcelWriter;
use vstd::prelude::*;

verus! {

/// What bringing a workbook up to date found.
#[derive(Debug)]
pub struct UpdateReport {
    /// For each instance kept or added what the checks of its ports
    /// found.
    pub instances: Vec<Vec<PortHealth>>,
    /// The names of the instances of the workbook that the sources no
    /// longer define.
    pub dropped_instances: Vec<String>,
    /// For each port of the module kept what its registration found.
    pub ports: Vec<Option<PortHealth>>,
    /// The report of each wire of the registry.
    pub wires: Vec<WireReport>,
}

/// Two ports are the same port: direction, name and number of bits
/// agree.
pub open spec fn same_key(a: PortModel, b: PortModel) -> bool {
    a.dir == b.dir && a.declared == b.declared && a.name == b.name
}

/// Some entry of `list` is the same port as `m`.
pub open spec fn has_key(list: Seq<PortEntry>, m: PortModel) -> bool {
    exists|j: int| 0 <= j < list.len() && same_key((#[trigger] list[j]).port, m)
}

/// A port of the sources as an instance of the workbook sees it: without
/// fragments, its width evaluated under the parameters of the sheet.
pub open spec fn evaluated_entry(p: VerilogData<VerilogPort>, params: Seq<Param>) -> PortEntry {
    PortEntry {
        port: PortModel {
            dir: p.raw().inout,
            top: p.raw().top,
            name: p.raw().name@,
            declared: match p.raw().width {
                Width::RawWidth(x) => x,
                Width::LiteralWidth(s, _) => evaluated(s@, params),
            },
            frags: seq![Fragment::NONE],
            pending: 0,
            slots: Seq::empty(),
            checked: false,
            registered: false,
        },
        guards: p.guards(),
        info: p.raw().info@,
    }
}

/// The ports of the sources as an instance of the workbook sees them.
pub open spec fn evaluated_entries(ports: Seq<VerilogData<VerilogPort>>, params: Seq<Param>)
    -> Seq<PortEntry> {
    Seq::new(ports.len(), |i: int| evaluated_entry(ports[i], params))
}

/// The ports of an instance of the workbook brought up to date with the
/// ports `source` of the sources: those of `sheet` that `source` has too
/// are copied with their fragments, those of `source` that `sheet` has
/// not are copied without, and each copy is checked.
pub open spec fn instance_updated(sheet: Seq<PortEntry>, source: Seq<PortEntry>, w: World) -> (
    Seq<PortEntry>,
    World,
    Seq<PortHealth>,
) {
    let old_ports = selected(sheet, |e: PortEntry| has_key(source, e.port));
    let new_ports = selected(source, |e: PortEntry| !has_key(sheet, e.port));
    let (a, w1, h1) = copied(entry_models(old_ports), w);
    let (b, w2, h2) = blanked(entry_models(new_ports), w1);
    (with_ports(old_ports, a) + with_ports(new_ports, b), w2, h1 + h2)
}

/// Selecting ports and taking their entries is selecting among their
/// entries.
pub proof fn lemma_selected_entries(
    list: Seq<VerilogData<VerilogPort>>,
    keep: spec_fn(VerilogData<VerilogPort>) -> bool,
    keep_entry: spec_fn(PortEntry) -> bool,
)
    requires
        forall|p: VerilogData<VerilogPort>| #[trigger] keep(p) == keep_entry(entry_of(p)),
    ensures
        entries_of(selected(list, keep)) == selected(entries_of(list), keep_entry),
    decreases list.len(),
{
    let entries = entries_of(list);
    if list.len() == 0 {
        assert(entries_of(selected(list, keep)) =~= selected(entries, keep_entry));
    } else {
        lemma_selected_entries(list.drop_last(), keep, keep_entry);
        assert(entries.drop_last() =~= entries_of(list.drop_last()));
        assert(entries.last() == entry_of(list.last()));
        assert(keep(list.last()) == keep_entry(entry_of(list.last())));
        assert(entries_of(selected(list, keep)) =~= selected(entries, keep_entry));
    }
}

/// A port among `others` is the same port as `p` exactly when an entry
/// of `others` has the key of `p`.
pub proof fn lemma_has_port_is_has_key(
    others: Seq<VerilogData<VerilogPort>>,
    p: VerilogData<VerilogPort>,
)
    ensures
        has_port(others, p) == has_key(entries_of(others), entry_of(p).port),
{
    let entries = entries_of(others);
    if has_port(others, p) {
        let j = choose|j: int| 0 <= j < others.len() && (#[trigger] others[j]).same_port(p);
        assert(same_key(entries[j].port, entry_of(p).port));
    }
    if has_key(entries, entry_of(p).port) {
        let j = choose|j: int|
            0 <= j < entries.len() && same_key((#[trigger] entries[j]).port, entry_of(p).port);
        assert(others[j].same_port(p));
    }
}

/// Copies of the ports without their fragments, their widths evaluated
/// under `params`.
pub fn evaluate_ports(source: &Vec<VerilogData<VerilogPort>>, params: &Vec<Param>) -> (r: Vec<
    VerilogData<VerilogPort>,
>)
    ensures
        ports_wf(r@),
        entries_of(r@) == evaluated_entries(source@, params@),
{
    let mut out: Vec<VerilogData<VerilogPort>> = Vec::new();
    let mut i: usize = 0;
    let ghost target = evaluated_entries(source@, params@);
    assert(entries_of(out@) =~= target.take(0));
    while i < source.len()
        invariant
            i <= source@.len(),
            target == evaluated_entries(source@, params@),
            ports_wf(out@),
            entries_of(out@) == target.take(i as int),
        decreases source@.len() - i,
    {
        let p = &source[i];
        let ghost prev = out@;
        let ghost done = entries_of(out@);
        let mut port = VerilogPort::copy_port_without_wire_from(p.get_raw());
        port.update_literal_port_width(params);
        let wrapped = wrap_as(port, p);
        assert(entry_of(wrapped) == evaluated_entry(*p, params@)) by {
            assert(wrapped.raw().undefine_wires_idx@ =~= Seq::<(usize, usize)>::empty());
        }
        out.push(wrapped);
        proof {
            let now = out@;
            assert(entries_of(now) =~= done.push(entry_of(wrapped)));
            assert forall|j: int| 0 <= j < now.len() implies (#[trigger] now[j]).raw().wf() by {
                if j < prev.len() {
                    assert(now[j] == prev[j]);
                }
            }
        }
        i += 1;
        assert(entries_of(out@) =~= target.take(i as int));
    }
    assert(target.take(target.len() as int) =~= target);
    out
}

/// The instances of the workbook that the sources still define, each
/// brought up to date with the first module of the sources that has its
/// name, one after the other; and the names of the others.
pub open spec fn instances_kept(
    sheets: Seq<VerilogData<VerilogModule>>,
    sources: Seq<VerilogData<VerilogModule>>,
    w: World,
) -> (Seq<ModuleFacts>, World, Seq<Seq<PortHealth>>, Seq<Seq<char>>)
    decreases sheets.len(),
{
    if sheets.len() == 0 {
        (Seq::empty(), w, Seq::empty(), Seq::empty())
    } else {
        let (done, w1, found, dropped) = instances_kept(sheets.drop_last(), sources, w);
        let s = sheets.last();
        let at = first_index(module_names(sources), s.raw().module_name@);
        if at < sources.len() {
            let (ports, w2, h) = instance_updated(
                entries_of(s.raw().port_list@),
                evaluated_entries(sources[at].raw().port_list@, s.raw().param_list@),
                w1,
            );
            (
                done.push(
                    ModuleFacts {
                        name: s.raw().module_name@,
                        inst_name: Some(s.raw().instance_name()),
                        params: facts_of(s.raw().param_list@),
                        ports,
                        guards: s.guards(),
                    },
                ),
                w2,
                found.push(h),
                dropped,
            )
        } else {
            (done, w1, found, dropped.push(s.raw().module_name@))
        }
    }
}

/// The instances that only the sources define, each copied with its
/// ports, the wires of the copies registered and the copies checked.
pub open spec fn instances_added(fresh: Seq<VerilogData<VerilogModule>>, w: World) -> (
    Seq<ModuleFacts>,
    World,
    Seq<Seq<PortHealth>>,
)
    decreases fresh.len(),
{
    if fresh.len() == 0 {
        (Seq::empty(), w, Seq::empty())
    } else {
        let (done, w1, found) = instances_added(fresh.drop_last(), w);
        let m = fresh.last();
        let (ports, w2, h) = copied(port_models(m.raw().port_list@), w1);
        (
            done.push(
                ModuleFacts {
                    name: m.raw().module_name@,
                    inst_name: None,
                    params: Seq::empty(),
                    ports: with_ports(entries_of(m.raw().port_list@), ports),
                    guards: m.guards(),
                },
            ),
            w2,
            found.push(h),
        )
    }
}

/// Some wire asks for a port of the direction, the width and the name
/// of `m`.
pub open spec fn asked(list: Seq<(PortDir, int, Seq<char>)>, m: PortModel) -> bool {
    exists|t: int|
        0 <= t < list.len() && (#[trigger] list[t]).0 == m.dir && list[t].1 == m.declared
            && list[t].2 == m.name
}

/// The ports of the workbook's module that stay: first those that an
/// unbalanced wire asks for, then, of the others, those that the registry
/// knows a wire for. Each is copied with its fragments and registered as
/// a port of the module.
pub open spec fn ports_kept(sheet_ports: Seq<VerilogData<VerilogPort>>, w: World) -> (
    Seq<PortEntry>,
    World,
    Seq<Option<PortHealth>>,
) {
    let list = unbalanced(sorted_names(w.wires), w.wires);
    let same = selected(sheet_ports, |p: VerilogData<VerilogPort>| asked(list, p.raw()@));
    let diff = selected(sheet_ports, |p: VerilogData<VerilogPort>| !asked(list, p.raw()@));
    let (a, w1, h1) = kept(port_models(same), w);
    let (b, w2, h2) = rescued(entries_of(diff), w1);
    (with_ports(entries_of(same), a) + b, w2, h1 + h2)
}

/// The module of a workbook brought up to date with the sources.
pub struct Updated {
    pub instances: Seq<ModuleFacts>,
    pub ports: Seq<PortEntry>,
    pub leftover: Seq<PortModel>,
    pub world: World,
    pub health: Seq<Seq<PortHealth>>,
    pub dropped: Seq<Seq<char>>,
    pub port_health: Seq<Option<PortHealth>>,
}

/// The module of the workbook `sheet` brought up to date with the
/// module `source` of the sources, from an empty registry and an empty
/// collector: the instances kept, the instances added, the ports kept,
/// and a port for each wire that is then still unbalanced.
pub open spec fn updated(sheet: VerilogModule, source: VerilogModule) -> Updated {
    let (ia, wa, ha, dropped) = instances_kept(
        sheet.inst_list@,
        source.inst_list@,
        crate::reader::empty_world(),
    );
    let (ib, wb, hb) = instances_added(
        selected(
            source.inst_list@,
            |m: VerilogData<VerilogModule>|
                !module_names(sheet.inst_list@).contains(m.raw().module_name@),
        ),
        wa,
    );
    let (pc, wc, hc) = ports_kept(sheet.port_list@, wb);
    let (pd, wd) = leftover_ports(unbalanced(sorted_names(wc.wires), wc.wires), wc);
    Updated {
        instances: ia + ib,
        ports: pc,
        leftover: pd,
        world: wd,
        health: ha + hb,
        dropped,
        port_health: hc,
    }
}

/// The modules that the references point to.
pub open spec fn pointed_modules(list: Seq<&VerilogData<VerilogModule>>) -> Seq<
    VerilogData<VerilogModule>,
> {
    Seq::new(list.len(), |i: int| *list[i])
}

proof fn lemma_follow_is_entries(
    before: Seq<VerilogData<VerilogPort>>,
    after: Seq<VerilogData<VerilogPort>>,
)
    requires
        after.len() == before.len(),
        forall|i: int|
            0 <= i < before.len() ==> {
                &&& (#[trigger] after[i]).guards() == before[i].guards()
                &&& after[i].raw().info@ == before[i].raw().info@
            },
    ensures
        entries_of(after) == with_ports(entries_of(before), port_models(after)),
{
    assert(entries_of(after) =~= with_ports(entries_of(before), port_models(after)));
}

impl ExcelWriter {
    /// The instances of the workbook that the sources still define,
    /// brought up to date, and the names of the others.
    pub fn keep_instances(
        sheet: &VerilogModule,
        source: &VerilogModule,
        wires: &mut WireBuilder,
        collector: &mut UndefineWireCollector,
    ) -> (r: (Vec<VerilogData<VerilogModule>>, Vec<Vec<PortHealth>>, Vec<String>))
        requires
            sheet.wf(),
            old(wires).wf(),
        ensures
            final(wires).wf(),
            forall|i: int| 0 <= i < r.0@.len() ==> ports_wf((#[trigger] r.0@[i]).raw().port_list@),
            (
                crate::reader::instance_facts(r.0@),
                world(*final(wires), *final(collector)),
                crate::module::findings(r.1@),
                crate::text::views(r.2@),
            ) == instances_kept(
                sheet.inst_list@,
                source.inst_list@,
                world(*old(wires), *old(collector)),
            ),
    {
        let mut out: Vec<VerilogData<VerilogModule>> = Vec::new();
        let mut health: Vec<Vec<PortHealth>> = Vec::new();
        let mut dropped: Vec<String> = Vec::new();
        let ghost sheets = sheet.inst_list@;
        let ghost w0 = world(*wires, *collector);
        let mut i: usize = 0;
        proof {
            assert(sheets.take(0) =~= Seq::<VerilogData<VerilogModule>>::empty());
            assert(crate::reader::instance_facts(out@) =~= Seq::<ModuleFacts>::empty());
            assert(crate::module::findings(health@) =~= Seq::<Seq<PortHealth>>::empty());
            assert(crate::text::views(dropped@) =~= Seq::<Seq<char>>::empty());
        }
        while i < sheet.inst_list.len()
            invariant
                i <= sheet.inst_list@.len(),
                sheets == sheet.inst_list@,
                w0 == world(*old(wires), *old(collector)),
                sheet.wf(),
                wires.wf(),
                forall|k: int|
                    0 <= k < out@.len() ==> ports_wf((#[trigger] out@[k]).raw().port_list@),
                (
                    crate::reader::instance_facts(out@),
                    world(*wires, *collector),
                    crate::module::findings(health@),
                    crate::text::views(dropped@),
                ) == instances_kept(sheets.take(i as int), source.inst_list@, w0),
            decreases sheet.inst_list@.len() - i,
        {
            let inst_excel = &sheet.inst_list[i];
            let ghost prev = out@;
            let ghost done = crate::reader::instance_facts(out@);
            let ghost found = crate::module::findings(health@);
            let ghost gone = crate::text::views(dropped@);
            proof {
                assert(sheets.take(i + 1).drop_last() =~= sheets.take(i as int));
                assert(sheets.take(i + 1).last() == *inst_excel);
                lemma_first_index(
                    module_names(source.inst_list@),
                    inst_excel.raw().module_name@,
                );
            }
            match source.find_inst_module_by_name(inst_excel.get_raw().module_name.as_str()) {
                Some(at) => {
                    let (inst, h) = Self::update_instance(
                        inst_excel,
                        source.inst_list[at].get_raw(),
                        wires,
                        collector,
                    );
                    health.push(h);
                    out.push(inst);
                    proof {
                        let now = out@;
                        assert(crate::reader::instance_facts(now) =~= done.push(
                            crate::reader::plain_facts(inst.raw(), inst.guards()),
                        ));
                        assert(crate::module::findings(health@) =~= found.push(h@));
                        assert forall|k: int| 0 <= k < now.len() implies ports_wf(
                            (#[trigger] now[k]).raw().port_list@,
                        ) by {
                            if k < prev.len() {
                                assert(now[k] == prev[k]);
                            }
                        }
                    }
                },
                None => {
                    dropped.push(inst_excel.get_raw().module_name.clone());
                    assert(crate::text::views(dropped@) =~= gone.push(
                        inst_excel.raw().module_name@,
                    ));
                },
            }
            i += 1;
        }
        proof {
            assert(sheets.take(sheets.len() as int) =~= sheets);
        }
        (out, health, dropped)
    }

    /// Copies of the instances `fresh`, their ports copied with their
    /// fragments and checked.
    pub fn add_instances(
        fresh: &Vec<&VerilogData<VerilogModule>>,
        wires: &mut WireBuilder,
        collector: &mut UndefineWireCollector,
    ) -> (r: (Vec<VerilogData<VerilogModule>>, Vec<Vec<PortHealth>>))
        requires
            forall|i: int|
                0 <= i < fresh@.len() ==> ports_wf((#[trigger] fresh@[i]).raw().port_list@),
            old(wires).wf(),
        ensures
            final(wires).wf(),
            forall|i: int| 0 <= i < r.0@.len() ==> ports_wf((#[trigger] r.0@[i]).raw().port_list@),
            (
                crate::reader::instance_facts(r.0@),
                world(*final(wires), *final(collector)),
                crate::module::findings(r.1@),
            ) == instances_added(pointed_modules(fresh@), world(*old(wires), *old(collector))),
    {
        let mut out: Vec<VerilogData<VerilogModule>> = Vec::new();
        let mut health: Vec<Vec<PortHealth>> = Vec::new();
        let ghost list = pointed_modules(fresh@);
        let ghost w0 = world(*wires, *collector);
        let mut i: usize = 0;
        proof {
            assert(list.take(0) =~= Seq::<VerilogData<VerilogModule>>::empty());
            assert(crate::reader::instance_facts(out@) =~= Seq::<ModuleFacts>::empty());
            assert(crate::module::findings(health@) =~= Seq::<Seq<PortHealth>>::empty());
        }
        while i < fresh.len()
            invariant
                i <= fresh@.len(),
                list == pointed_modules(fresh@),
                w0 == world(*old(wires), *old(collector)),
                forall|k: int|
                    0 <= k < fresh@.len() ==> ports_wf((#[trigger] fresh@[k]).raw().port_list@),
                wires.wf(),
                forall|k: int|
                    0 <= k < out@.len() ==> ports_wf((#[trigger] out@[k]).raw().port_list@),
                (
                    crate::reader::instance_facts(out@),
                    world(*wires, *collector),
                    crate::module::findings(health@),
                ) == instances_added(list.take(i as int), w0),
            decreases fresh@.len() - i,
        {
            let inst = fresh[i];
            let ghost prev = out@;
            let ghost done = crate::reader::instance_facts(out@);
            let ghost found = crate::module::findings(health@);
            proof {
                assert(list.take(i + 1).drop_last() =~= list.take(i as int));
                assert(list.take(i + 1).last() == *inst);
            }
            let (copy, h) = VerilogModule::copy_module_from(inst, wires, collector);
            proof {
                lemma_follow_is_entries(inst.raw().port_list@, copy.raw().port_list@);
                assert(facts_of(copy.raw().param_list@) =~= Seq::<
                    crate::reader::ParamFacts,
                >::empty());
            }
            health.push(h);
            out.push(copy);
            proof {
                let now = out@;
                assert(crate::reader::instance_facts(now) =~= done.push(
                    crate::reader::plain_facts(copy.raw(), copy.guards()),
                ));
                assert(crate::module::findings(health@) =~= found.push(h@));
                assert forall|k: int| 0 <= k < now.len() implies ports_wf(
                    (#[trigger] now[k]).raw().port_list@,
                ) by {
                    if k < prev.len() {
                        assert(now[k] == prev[k]);
                    }
                }
            }
            i += 1;
        }
        proof {
            assert(list.take(list.len() as int) =~= list);
        }
        (out, health)
    }

    /// The ports of the workbook's module that stay, copied and
    /// registered as ports of the module.
    pub fn keep_module_ports(
        sheet: &VerilogModule,
        wires: &mut WireBuilder,
        collector: &mut UndefineWireCollector,
    ) -> (r: (Vec<VerilogData<VerilogPort>>, Vec<Option<PortHealth>>))
        requires
            sheet.wf(),
            old(wires).wf(),
        ensures
            final(wires).wf(),
            ports_wf(r.0@),
            (entries_of(r.0@), world(*final(wires), *final(collector)), r.1@) == ports_kept(
                sheet.port_list@,
                world(*old(wires), *old(collector)),
            ),
    {
        let list = wires.traverse_unload_undriven();
        proof {
            wires.lemma_names_sorted();
        }
        let ghost asking = unbalanced(sorted_names(wires@), wires@);
        let mut temp_module = VerilogModule::new(String::from_str("temp"));
        let mut t: usize = 0;
        while t < list.len()
            invariant
                t <= list@.len(),
                wanted(list@) == asking,
                temp_module.wf(),
                temp_module.port_list@.len() == t,
                forall|k: int|
                    0 <= k < t ==> {
                        &&& (#[trigger] temp_module.port_list@[k]).raw().inout == list@[k].0
                        &&& temp_module.port_list@[k].raw().width.value() == list@[k].1
                        &&& temp_module.port_list@[k].raw().name@ == list@[k].2@
                    },
            decreases list@.len() - t,
        {
            let ghost prev = temp_module.port_list@;
            temp_module.add_port(list[t].0, list[t].2.as_str(), list[t].1);
            proof {
                let now = temp_module.port_list@;
                assert(now.drop_last() == prev);
                assert forall|k: int| 0 <= k < t + 1 implies {
                    &&& (#[trigger] now[k]).raw().inout == list@[k].0
                    &&& now[k].raw().width.value() == list@[k].1
                    &&& now[k].raw().name@ == list@[k].2@
                } by {
                    if k < t {
                        assert(now[k] == now.drop_last()[k]);
                    } else {
                        assert(now[k] == now.last());
                    }
                }
            }
            t += 1;
        }
        let ghost temp_ports = temp_module.port_list@;
        let ghost keep_same = |p: VerilogData<VerilogPort>| has_port(temp_ports, p);
        let ghost keep_asked = |p: VerilogData<VerilogPort>| asked(asking, p.raw()@);
        let ghost keep_diff = |p: VerilogData<VerilogPort>| !has_port(temp_ports, p);
        let ghost keep_unasked = |p: VerilogData<VerilogPort>| !asked(asking, p.raw()@);
        proof {
            assert forall|p: VerilogData<VerilogPort>| #[trigger]
                keep_same(p) == keep_asked(p) by {
                if has_port(temp_ports, p) {
                    let j = choose|j: int|
                        0 <= j < temp_ports.len() && (#[trigger] temp_ports[j]).same_port(p);
                    assert(wanted(list@)[j].0 == p.raw()@.dir);
                    assert(asking[j].1 == p.raw()@.declared);
                    assert(asking[j].2 == p.raw()@.name);
                }
                if asked(asking, p.raw()@) {
                    let j = choose|j: int|
                        0 <= j < asking.len() && (#[trigger] asking[j]).0 == p.raw()@.dir
                            && asking[j].1 == p.raw()@.declared && asking[j].2 == p.raw()@.name;
                    assert(wanted(list@)[j] == asking[j]);
                    assert(temp_ports[j].same_port(p));
                }
            }
            lemma_selected_same(sheet.port_list@, keep_same, keep_asked);
            assert forall|p: VerilogData<VerilogPort>| #[trigger]
                keep_diff(p) == keep_unasked(p) by {
                assert(keep_same(p) == keep_asked(p));
            }
            lemma_selected_same(sheet.port_list@, keep_diff, keep_unasked);
        }
        let same = sheet.same_ports_with(&temp_module);
        let diff = sheet.diff_ports_with(&temp_module);
        let ghost same_ports = pointed(same@);
        let ghost diff_ports = pointed(diff@);
        proof {
            lemma_selected_members(sheet.port_list@, keep_same);
            lemma_selected_members(sheet.port_list@, keep_diff);
            assert forall|j: int| 0 <= j < same_ports.len() implies (
            #[trigger] same_ports[j]).raw().wf() by {
                let k = choose|k: int|
                    0 <= k < sheet.port_list@.len() && sheet.port_list@[k] == same_ports[j];
                assert(sheet.port_list@[k].raw().wf());
            }
            assert forall|j: int| 0 <= j < diff_ports.len() implies (
            #[trigger] diff_ports[j]).raw().wf() by {
                let k = choose|k: int|
                    0 <= k < sheet.port_list@.len() && sheet.port_list@[k] == diff_ports[j];
                assert(sheet.port_list@[k].raw().wf());
            }
        }
        let (mut first, mut health) = keep_ports(&same, wires, collector);
        let (mut second, mut more) = rescue_ports(&diff, wires, collector);
        let ghost a = first@;
        let ghost b = second@;
        let ghost h1 = health@;
        let ghost h2 = more@;
        proof {
            lemma_entries_with_ports(same_ports, a);
        }
        first.append(&mut second);
        health.append(&mut more);
        proof {
            let ports = first@;
            assert(ports =~= a + b);
            assert(entries_of(ports) =~= entries_of(a) + entries_of(b));
            assert(health@ =~= h1 + h2);
            assert forall|j: int| 0 <= j < ports.len() implies (#[trigger] ports[j]).raw().wf() by {
                if j < a.len() {
                    assert(ports[j] == a[j]);
                } else {
                    assert(ports[j] == b[j - a.len()]);
                }
            }
        }
        (first, health)
    }

    /// The module of the workbook `module_xlsx` brought up to date with
    /// the module `module_v` of the sources. The registry and the
    /// collector are emptied first. The module keeps the parameters of
    /// the workbook; its instances are those kept and those added, its
    /// ports those kept and then one for each wire still unbalanced.
    pub fn update(
        &self,
        module_name: &str,
        module_v: &VerilogModule,
        module_xlsx: &VerilogModule,
        wires: &mut WireBuilder,
        collector: &mut UndefineWireCollector,
    ) -> (r: (VerilogModule, UpdateReport))
        requires
            module_xlsx.wf(),
            module_v.wf(),
        ensures
            final(wires).wf(),
            r.0.wf(),
            r.0.module_name@ == module_name@,
            r.0.inst_name is None,
            r.0.param_list@ == module_xlsx.param_list@,
            ({
                let u = updated(*module_xlsx, *module_v);
                &&& crate::reader::instance_facts(r.0.inst_list@) == u.instances
                &&& r.0.port_list@.len() == u.ports.len() + u.leftover.len()
                &&& entries_of(r.0.port_list@.take(u.ports.len() as int)) == u.ports
                &&& port_models(r.0.port_list@.skip(u.ports.len() as int)) == u.leftover
                &&& world(*final(wires), *final(collector)) == u.world
                &&& crate::module::findings(r.1.instances@) == u.health
                &&& crate::text::views(r.1.dropped_instances@) == u.dropped
                &&& r.1.ports@ == u.port_health
            }),
            r.1.wires@.len() == final(wires).names().len(),
            forall|i: int|
                0 <= i < r.1.wires@.len() ==> crate::wire::reports(
                    #[trigger] r.1.wires@[i],
                    final(wires).names()[i],
                    final(wires)@[final(wires).names()[i]],
                ),
    {
        collector.clear();
        wires.clear();
        proof {
            assert(world(*wires, *collector) == crate::reader::empty_world()) by {
                assert(collector.names() =~= Seq::<Seq<char>>::empty());
                assert(collector.groups() =~= Seq::<Seq<usize>>::empty());
                assert(collector.value@ =~= Seq::<i64>::empty());
                assert(collector.res@ =~= Seq::<usize>::empty());
            }
        }
        let mut module = VerilogModule::new(String::from_str(module_name));
        module.add_param_list(VerilogModule::copy_parameter_from(module_xlsx));
        assert(module.param_list@ =~= module_xlsx.param_list@);
        let (mut instances, mut health, dropped) = Self::keep_instances(
            module_xlsx,
            module_v,
            wires,
            collector,
        );
        let fresh = module_v.diff_inst_with(module_xlsx);
        proof {
            lemma_selected_members(
                module_v.inst_list@,
                |m: VerilogData<VerilogModule>|
                    !module_names(module_xlsx.inst_list@).contains(m.raw().module_name@),
            );
            assert forall|i: int| 0 <= i < fresh@.len() implies ports_wf(
                (#[trigger] fresh@[i]).raw().port_list@,
            ) by {
                let list = pointed_modules(fresh@);
                assert(list[i] == *fresh@[i]);
                let k = choose|k: int|
                    0 <= k < module_v.inst_list@.len() && module_v.inst_list@[k] == list[i];
                assert(ports_wf(module_v.inst_list@[k].raw().port_list@));
            }
            assert(pointed_modules(fresh@) =~= Seq::new(fresh@.len(), |i: int| *fresh@[i]));
        }
        let (mut added, mut more) = Self::add_instances(&fresh, wires, collector);
        let ghost ia = instances@;
        let ghost ib = added@;
        let ghost ha = health@;
        let ghost hb = more@;
        instances.append(&mut added);
        health.append(&mut more);
        let (mut ports, port_health) = Self::keep_module_ports(module_xlsx, wires, collector);
        let ghost pc = ports@;
        module.inst_list = instances;
        module.port_list = ports;
        proof {
            let list = module.inst_list@;
            assert(list =~= ia + ib);
            assert(crate::reader::instance_facts(list) =~= crate::reader::instance_facts(ia)
                + crate::reader::instance_facts(ib));
            assert(crate::module::findings(health@) =~= crate::module::findings(ha)
                + crate::module::findings(hb));
            assert forall|k: int| 0 <= k < list.len() implies ports_wf(
                (#[trigger] list[k]).raw().port_list@,
            ) by {
                if k < ia.len() {
                    assert(list[k] == ia[k]);
                } else {
                    assert(list[k] == ib[k - ia.len()]);
                }
            }
        }
        Self::add_leftover_ports(&mut module, wires, collector);
        let reports = wires.check_health();
        proof {
            wires.lemma_names();
            assert(module.port_list@.take(pc.len() as int) == pc);
        }
        (
            module,
            UpdateReport { instances: health, dropped_instances: dropped, ports: port_health, wires: reports },
        )
    }
}

/// A workbook made or brought up to date.
#[derive(Debug)]
pub struct Outcome {
    /// The module that the workbook describes.
    pub module: VerilogData<VerilogModule>,
    /// The sheets of the workbook: that of the module, then one for each
    /// instance.
    pub layouts: Vec<crate::writer::SheetLayout>,
    /// The report of each wire of the registry.
    pub wires: Vec<WireReport>,
    /// What the checks of the ports of the sources found.
    pub health: Vec<Vec<PortHealth>>,
    /// The module that the sources make, where a workbook was brought up
    /// to date.
    pub source: Option<VerilogData<VerilogModule>>,
    /// The module that the workbook described before, where one was
    /// brought up to date.
    pub sheet: Option<VerilogModule>,
    /// What bringing the workbook up to date found.
    pub update: Option<UpdateReport>,
}

/// The world that making a module from the sources `parsed` leaves.
pub open spec fn source_world(parsed: Seq<VerilogModule>) -> World {
    let (insts, w1, found) = crate::writer::sourced(
        Seq::new(parsed.len(), |i: int| port_models(parsed[i].port_list@)),
        crate::reader::empty_world(),
    );
    leftover_ports(unbalanced(sorted_names(w1.wires), w1.wires), w1).1
}

/// `m` is the module that the sources `parsed` make under the name
/// `name`, reached with the findings `health`: an instance for each
/// source, every port of it bound to a signal of its own name and
/// checked, and a port of the module for each wire that is then
/// unbalanced.
pub open spec fn made_from(
    m: VerilogData<VerilogModule>,
    health: Seq<Seq<PortHealth>>,
    name: Seq<char>,
    parsed: Seq<VerilogModule>,
) -> bool {
    let (insts, w1, found) = crate::writer::sourced(
        Seq::new(parsed.len(), |i: int| port_models(parsed[i].port_list@)),
        crate::reader::empty_world(),
    );
    &&& m is Raw
    &&& m.raw().wf()
    &&& m.raw().module_name@ == name
    &&& m.raw().inst_name is None
    &&& m.raw().param_list@.len() == 0
    &&& m.raw().inst_list@.len() == parsed.len()
    &&& forall|i: int|
        0 <= i < parsed.len() ==> {
            let inst = (#[trigger] m.raw().inst_list@[i]);
            &&& inst is Raw
            &&& inst.raw().module_name == parsed[i].module_name
            &&& inst.raw().param_list == parsed[i].param_list
            &&& inst.raw().inst_name is Some
            &&& inst.raw().instance_name() == parsed[i].instance_name()
            &&& crate::module::same_identity(parsed[i].port_list@, inst.raw().port_list@)
        }
    &&& crate::module::instance_models(m.raw().inst_list@) == insts
    &&& health == found
    &&& port_models(m.raw().port_list@) == leftover_ports(
        unbalanced(sorted_names(w1.wires), w1.wires),
        w1,
    ).0
}

impl ExcelWriter {
    /// Makes the workbook of the module that the sources `parsed` make.
    pub fn generate(
        &self,
        module_name: &str,
        parsed: Vec<VerilogModule>,
        wires: &mut WireBuilder,
        collector: &mut UndefineWireCollector,
    ) -> (r: Outcome)
        requires
            forall|i: int| 0 <= i < parsed@.len() ==> (#[trigger] parsed@[i]).wf(),
        ensures
            final(wires).wf(),
            made_from(r.module, crate::module::findings(r.health@), module_name@, parsed@),
            world(*final(wires), *final(collector)) == source_world(parsed@),
            r.source is None,
            r.sheet is None,
            r.update is None,
            r.layouts@.len() == 1 + r.module.raw().inst_list@.len(),
            crate::writer::cell_views(r.layouts@[0].cells@) == crate::writer::sheet_cells(
                r.module,
            ),
            forall|i: int|
                0 <= i < r.module.raw().inst_list@.len() ==> crate::writer::cell_views(
                    (#[trigger] r.layouts@[i + 1]).cells@,
                ) == crate::writer::sheet_cells(r.module.raw().inst_list@[i]),
            r.wires@.len() == final(wires).names().len(),
            forall|i: int|
                0 <= i < r.wires@.len() ==> crate::wire::reports(
                    #[trigger] r.wires@[i],
                    final(wires).names()[i],
                    final(wires)@[final(wires).names()[i]],
                ),
    {
        let (module, health) = self.get_module_from_v(module_name, parsed, wires, collector);
        let reports = wires.check_health();
        let layouts = self.write_excel(&module);
        proof {
            wires.lemma_names();
        }
        Outcome {
            module,
            layouts,
            wires: reports,
            health,
            source: None,
            sheet: None,
            update: None,
        }
    }

    /// Makes the workbook of the module that the sources make, or, where
    /// there is a workbook already, brings that one up to date with
    /// them: `existing` holds its sheets.
    pub fn generate_or_update(
        &self,
        module_name: &str,
        parsed: Vec<VerilogModule>,
        existing: Option<&Vec<crate::reader::Sheet>>,
        wires: &mut WireBuilder,
        collector: &mut UndefineWireCollector,
    ) -> (r: Result<Outcome, crate::reader::SheetError>)
        requires
            forall|i: int| 0 <= i < parsed@.len() ==> (#[trigger] parsed@[i]).wf(),
        ensures
            final(wires).wf(),
            existing is None ==> r is Ok && r->Ok_0.source is None && made_from(
                r->Ok_0.module,
                crate::module::findings(r->Ok_0.health@),
                module_name@,
                parsed@,
            ) && world(*final(wires), *final(collector)) == source_world(parsed@),
            existing matches Some(sheets) ==> match crate::reader::book_read(sheets@) {
                Err(e) => r is Err && r->Err_0@ == e,
                Ok(b) => {
                    &&& r is Ok
                    &&& r->Ok_0.source is Some
                    &&& r->Ok_0.sheet is Some
                    &&& r->Ok_0.update is Some
                    &&& made_from(
                        r->Ok_0.source->0,
                        crate::module::findings(r->Ok_0.health@),
                        module_name@,
                        parsed@,
                    )
                    &&& crate::reader::plain_facts(r->Ok_0.sheet->0, Seq::empty()) == b.top
                    &&& crate::reader::instance_facts(r->Ok_0.sheet->0.inst_list@)
                        == b.instances
                    &&& r->Ok_0.module is Raw
                    &&& r->Ok_0.module.raw().module_name@ == module_name@
                    &&& r->Ok_0.module.raw().param_list@ == r->Ok_0.sheet->0.param_list@
                    &&& ({
                        let u = updated(r->Ok_0.sheet->0, r->Ok_0.source->0.raw());
                        let m = r->Ok_0.module.raw();
                        &&& crate::reader::instance_facts(m.inst_list@) == u.instances
                        &&& m.port_list@.len() == u.ports.len() + u.leftover.len()
                        &&& entries_of(m.port_list@.take(u.ports.len() as int)) == u.ports
                        &&& port_models(m.port_list@.skip(u.ports.len() as int)) == u.leftover
                        &&& world(*final(wires), *final(collector)) == u.world
                        &&& crate::module::findings(r->Ok_0.update->0.instances@) == u.health
                        &&& crate::text::views(r->Ok_0.update->0.dropped_instances@)
                            == u.dropped
                        &&& r->Ok_0.update->0.ports@ == u.port_health
                    })
                },
            },
            r matches Ok(o) ==> {
                &&& o.layouts@.len() == 1 + o.module.raw().inst_list@.len()
                &&& crate::writer::cell_views(o.layouts@[0].cells@) == crate::writer::sheet_cells(
                    o.module,
                )
                &&& forall|i: int|
                    0 <= i < o.module.raw().inst_list@.len() ==> crate::writer::cell_views(
                        (#[trigger] o.layouts@[i + 1]).cells@,
                    ) == crate::writer::sheet_cells(o.module.raw().inst_list@[i])
            },
    {
        match existing {
            None => Ok(self.generate(module_name, parsed, wires, collector)),
            Some(sheets) => {
                let (module_v, health) = self.get_module_from_v(
                    module_name,
                    parsed,
                    wires,
                    collector,
                );
                let reader = crate::reader::ExcelReader::new(String::new());
                let (module_xlsx, _read) = match reader.get_excel_info(sheets, wires, collector) {
                    Ok(x) => x,
                    Err(e) => {
                        return Err(e);
                    },
                };
                let (module, report) = self.update(
                    module_name,
                    module_v.get_raw(),
                    &module_xlsx,
                    wires,
                    collector,
                );
                let wrapped = VerilogData::Raw(module);
                let layouts = self.write_excel(&wrapped);
                let ghost found = crate::module::findings(health@);
                proof {
                    assert(made_from(module_v, found, module_name@, parsed@));
                }
                let wire_reports = Self::copy_reports(&report.wires);
                Ok(
                    Outcome {
                        module: wrapped,
                        layouts,
                        wires: wire_reports,
                        health,
                        source: Some(module_v),
                        sheet: Some(module_xlsx),
                        update: Some(report),
                    },
                )
            },
        }
    }

    fn copy_reports(reports: &Vec<WireReport>) -> (r: Vec<WireReport>)
        ensures
            r@.len() == reports@.len(),
            forall|i: int|
                0 <= i < r@.len() ==> {
                    &&& (#[trigger] r@[i]).name@ == reports@[i].name@
                    &&& r@[i].undriven@ == reports@[i].undriven@
                    &&& r@[i].unloaded@ == reports@[i].unloaded@
                    &&& r@[i].multi_driven@ == reports@[i].multi_driven@
                },
    {
        let mut out: Vec<WireReport> = Vec::new();
        let mut i: usize = 0;
        while i < reports.len()
            invariant
                i <= reports@.len(),
                out@.len() == i,
                forall|k: int|
                    0 <= k < i ==> {
                        &&& (#[trigger] out@[k]).name@ == reports@[k].name@
                        &&& out@[k].undriven@ == reports@[k].undriven@
                        &&& out@[k].unloaded@ == reports@[k].unloaded@
                        &&& out@[k].multi_driven@ == reports@[k].multi_driven@
                    },
            decreases reports@.len() - i,
        {
            let r = &reports[i];
            out.push(
                WireReport {
                    name: r.name.clone(),
                    undriven: Self::copy_bits(&r.undriven),
                    unloaded: Self::copy_bits(&r.unloaded),
                    multi_driven: Self::copy_bits(&r.multi_driven),
                },
            );
            i += 1;
        }
        out
    }

    fn copy_bits(bits: &Vec<usize>) -> (r: Vec<usize>)
        ensures
            r@ == bits@,
    {
        let mut out: Vec<usize> = Vec::new();
        let mut i: usize = 0;
        while i < bits.len()
            invariant
                i <= bits@.len(),
                out@ == bits@.take(i as int),
            decreases bits@.len() - i,
        {
            out.push(bits[i]);
            i += 1;
            assert(out@ =~= bits@.take(i as int));
        }
        assert(bits@.take(bits@.len() as int) =~= bits@);
        out
    }
}

/// Selecting with two tests that agree gives the same entries.
pub proof fn lemma_selected_same<A>(
    list: Seq<A>,
    keep: spec_fn(A) -> bool,
    other: spec_fn(A) -> bool,
)
    requires
        forall|a: A| #[trigger] keep(a) == other(a),
    ensures
        selected(list, keep) == selected(list, other),
    decreases list.len(),
{
    if list.len() > 0 {
        lemma_selected_same(list.drop_last(), keep, other);
        assert(keep(list.last()) == other(list.last()));
    }
}

/// Every entry selected from a list is an entry of the list.
pub proof fn lemma_selected_members<A>(list: Seq<A>, keep: spec_fn(A) -> bool)
    ensures
        forall|j: int|
            0 <= j < selected(list, keep).len() ==> exists|k: int|
                0 <= k < list.len() && list[k] == #[trigger] selected(list, keep)[j],
    decreases list.len(),
{
    if list.len() > 0 {
        lemma_selected_members(list.drop_last(), keep);
        let rest = selected(list.drop_last(), keep);
        let all = selected(list, keep);
        assert forall|j: int| 0 <= j < all.len() implies exists|k: int|
            0 <= k < list.len() && list[k] == #[trigger] all[j] by {
            if j < rest.len() {
                let k = choose|k: int|
                    0 <= k < list.drop_last().len() && list.drop_last()[k] == rest[j];
                assert(list[k] == all[j]);
            } else {
                assert(list[list.len() - 1] == all[j]);
            }
        }
    }
}

proof fn lemma_entries_with_ports(
    before: Seq<VerilogData<VerilogPort>>,
    after: Seq<VerilogData<VerilogPort>>,
)
    requires
        entries_follow(before, after),
    ensures
        entries_of(after) == with_ports(entries_of(before), port_models(after)),
        entry_models(entries_of(before)) == port_models(before),
{
    assert(entries_of(after) =~= with_ports(entries_of(before), port_models(after)));
    assert(entry_models(entries_of(before)) =~= port_models(before));
}

impl ExcelWriter {
    /// The instance `sheet` of the workbook brought up to date with
    /// `source`, the module that the sources define under its name. The
    /// instance keeps its names, its parameters and its guards. Of its
    /// ports it keeps those that `source` has too, with their fragments,
    /// and it gains those that only `source` has, without any; the widths
    /// of `source` are taken under the parameters of the sheet.
    pub fn update_instance(
        sheet: &VerilogData<VerilogModule>,
        source: &VerilogModule,
        wires: &mut WireBuilder,
        collector: &mut UndefineWireCollector,
    ) -> (r: (VerilogData<VerilogModule>, Vec<PortHealth>))
        requires
            ports_wf(sheet.raw().port_list@),
            old(wires).wf(),
        ensures
            final(wires).wf(),
            r.0.guards() == sheet.guards(),
            r.0.raw().module_name@ == sheet.raw().module_name@,
            r.0.raw().inst_name is Some,
            r.0.raw().inst_name->0@ == sheet.raw().instance_name(),
            r.0.raw().param_list@ == sheet.raw().param_list@,
            r.0.raw().inst_list@.len() == 0,
            ports_wf(r.0.raw().port_list@),
            (entries_of(r.0.raw().port_list@), world(*final(wires), *final(collector)), r.1@)
                == instance_updated(
                entries_of(sheet.raw().port_list@),
                evaluated_entries(source.port_list@, sheet.raw().param_list@),
                world(*old(wires), *old(collector)),
            ),
    {
        let inst_excel = sheet.get_raw();
        let params = VerilogModule::copy_parameter_from(inst_excel);
        let mut seen = VerilogModule::new(String::new());
        seen.add_ports(evaluate_ports(&source.port_list, &params));
        let ghost sheet_entries = entries_of(inst_excel.port_list@);
        let ghost source_entries = evaluated_entries(source.port_list@, params@);
        assert(entries_of(seen.port_list@) == source_entries) by {
            assert(seen.port_list@ =~= Seq::<VerilogData<VerilogPort>>::empty() + seen.port_list@);
        }
        let mut inst_module = VerilogModule::new(inst_excel.module_name.clone());
        let name = match &inst_excel.inst_name {
            Some(s) => s.clone(),
            None => {
                let mut s = String::from_str("u_");
                s.append(inst_excel.module_name.as_str());
                s
            },
        };
        inst_module.fix_inst_name(name.as_str());
        inst_module.add_param_list(params);
        assert(inst_module.param_list@ =~= inst_excel.param_list@);
        let same = inst_excel.same_ports_with(&seen);
        let ghost old_ports = pointed(same@);
        let ghost keep_old = |p: VerilogData<VerilogPort>| has_port(seen.port_list@, p);
        let ghost keep_old_entry = |e: PortEntry| has_key(source_entries, e.port);
        proof {
            lemma_selected_members(inst_excel.port_list@, keep_old);
            assert forall|j: int| 0 <= j < old_ports.len() implies (
            #[trigger] old_ports[j]).raw().wf() by {
                let k = choose|k: int|
                    0 <= k < inst_excel.port_list@.len() && inst_excel.port_list@[k]
                        == old_ports[j];
                assert(inst_excel.port_list@[k].raw().wf());
            }
            assert forall|p: VerilogData<VerilogPort>| #[trigger]
                keep_old(p) == keep_old_entry(entry_of(p)) by {
                lemma_has_port_is_has_key(seen.port_list@, p);
            }
            lemma_selected_entries(inst_excel.port_list@, keep_old, keep_old_entry);
        }
        let (mut first, mut health) = copy_checked(&same, wires, collector);
        let diff = seen.diff_ports_with(inst_excel);
        let ghost new_ports = pointed(diff@);
        let ghost keep_new = |p: VerilogData<VerilogPort>| !has_port(inst_excel.port_list@, p);
        let ghost keep_new_entry = |e: PortEntry| !has_key(sheet_entries, e.port);
        proof {
            assert forall|p: VerilogData<VerilogPort>| #[trigger]
                keep_new(p) == keep_new_entry(entry_of(p)) by {
                lemma_has_port_is_has_key(inst_excel.port_list@, p);
            }
            lemma_selected_entries(seen.port_list@, keep_new, keep_new_entry);
        }
        let (mut second, mut more) = blank_checked(&diff, wires, collector);
        let ghost a = first@;
        let ghost b = second@;
        let ghost h1 = health@;
        let ghost h2 = more@;
        proof {
            lemma_entries_with_ports(old_ports, a);
            lemma_entries_with_ports(new_ports, b);
        }
        first.append(&mut second);
        health.append(&mut more);
        inst_module.add_ports(first);
        proof {
            let ports = inst_module.port_list@;
            assert(ports =~= a + b);
            assert(entries_of(ports) =~= entries_of(a) + entries_of(b));
            assert(health@ =~= h1 + h2);
            assert forall|j: int| 0 <= j < ports.len() implies (#[trigger] ports[j]).raw().wf() by {
                if j < a.len() {
                    assert(ports[j] == a[j]);
                } else {
                    assert(ports[j] == b[j - a.len()]);
                }
            }
        }
        (wrap_as(inst_module, sheet), health)
    }
}

} // verus!
