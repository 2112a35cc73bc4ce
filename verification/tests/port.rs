use verilog_sheet::collector::UndefineWireCollector;
use verilog_sheet::port::PortDir;
use verilog_sheet::port::PortHealth;
use verilog_sheet::port::VerilogPort;
use verilog_sheet::port::VerilogValue;
use verilog_sheet::width::Width;
use verilog_sheet::wire::WireBuilder;

fn slice_of(v: &VerilogValue) -> Option<(String, usize, usize)> {
    match v {
        VerilogValue::Wire(w, r) => Some((w.name.clone(), r.start, r.end)),
        _ => None,
    }
}

#[test]
fn test_port() {
    let mut wires = WireBuilder::new();
    let mut collector = UndefineWireCollector::new();
    let mut port1 = VerilogPort::new(PortDir::InPort, "port1", Width::RawWidth(6));
    port1.connect_undefined_signal("wire1");
    let mut port2 = VerilogPort::new(PortDir::OutPort, "port2", Width::RawWidth(6));
    port2.connect_partial_signal(&mut wires, "wire1", &(0..3));

    println!("{:#?}", wires);
    let reports = wires.check_health();
    assert_eq!(reports.len(), 1);
    assert_eq!(reports[0].unloaded, vec![0, 1, 2]);

    println!("{:#?}", port1);
    println!("{:#?}", port2);
    assert_eq!(port1.has_undefine, 1);
    assert_eq!(port1.check_health(&mut wires, &mut collector), PortHealth::Connected);
    assert_eq!(slice_of(&port1.signals[1]), Some(("wire1".to_string(), 0, 6)));
    assert_eq!(
        port2.check_health(&mut wires, &mut collector),
        PortHealth::UnderConnected { declared: 6, actual: 3 }
    );
}

#[test]
fn new_port_holds_the_placeholder_only() {
    let port = VerilogPort::new(PortDir::Unknown, "p", Width::RawWidth(3));
    assert_eq!(port.signals.len(), 1);
    assert!(port.signals[0].is_none());
    assert_eq!(port.has_undefine, 0);
    assert!(!port.health_checked);
    assert_eq!(port.get_signal_string(), "");
    assert_eq!(port.get_connected_width(), 0);
    assert_eq!(port.get_name(), "p");
}

#[test]
fn one_undefined_signal_takes_what_is_left() {
    let mut wires = WireBuilder::new();
    let mut collector = UndefineWireCollector::new();
    let mut x = VerilogPort::new(PortDir::InPort, "x", Width::RawWidth(8));
    x.connect_undefined_signal("b");
    x.connect_partial_signal(&mut wires, "c", &(0..4));
    assert_eq!(x.check_health(&mut wires, &mut collector), PortHealth::Connected);
    assert_eq!(slice_of(&x.signals[1]), Some(("b".to_string(), 0, 4)));
    assert_eq!(x.has_undefine, 0);
    assert_eq!(x.get_connected_width(), 8);
    assert_eq!(x.get_signal_string(), "{b[3:0], c[3:0]}");
    assert_eq!(
        wires.traverse_unload_undriven(),
        vec![(PortDir::InPort, 4, "b".to_string()), (PortDir::InPort, 4, "c".to_string())]
    );
    assert!(!collector.has_wires());
}

#[test]
fn check_health_is_idempotent() {
    let mut wires = WireBuilder::new();
    let mut collector = UndefineWireCollector::new();
    let mut x = VerilogPort::new(PortDir::OutPort, "x", Width::RawWidth(4));
    x.connect_undefined_signal("y");
    assert_eq!(x.check_health(&mut wires, &mut collector), PortHealth::Connected);
    assert_eq!(x.check_health(&mut wires, &mut collector), PortHealth::Connected);
    let reports = wires.check_health();
    assert_eq!(reports.len(), 1);
    assert!(reports[0].multi_driven.is_empty());
    assert_eq!(reports[0].unloaded, vec![0, 1, 2, 3]);
}

#[test]
fn full_port_leaves_nothing_for_an_undefined_signal() {
    let mut wires = WireBuilder::new();
    let mut collector = UndefineWireCollector::new();
    let mut x = VerilogPort::new(PortDir::InPort, "x", Width::RawWidth(4));
    x.connect_partial_signal(&mut wires, "a", &(0..4));
    x.connect_undefined_signal("b");
    assert_eq!(
        x.check_health(&mut wires, &mut collector),
        PortHealth::OverConnected { declared: 4, actual: 4 }
    );
    assert!(x.signals[2].is_undefine());
    assert!(!x.health_checked);
    assert!(!wires.contains("b"));
}

#[test]
fn mismatch_is_reported() {
    let mut wires = WireBuilder::new();
    let mut collector = UndefineWireCollector::new();
    let mut under = VerilogPort::new(PortDir::InPort, "u", Width::RawWidth(8));
    under.connect_partial_signal(&mut wires, "a", &(0..4));
    assert_eq!(
        under.check_health(&mut wires, &mut collector),
        PortHealth::UnderConnected { declared: 8, actual: 4 }
    );
    assert!(under.health_checked);
    let mut over = VerilogPort::new(PortDir::InPort, "o", Width::RawWidth(2));
    over.connect_partial_signal(&mut wires, "a", &(0..4));
    assert_eq!(
        over.check_health(&mut wires, &mut collector),
        PortHealth::OverConnected { declared: 2, actual: 4 }
    );
    assert_eq!(over.health(), PortHealth::OverConnected { declared: 2, actual: 4 });
}

#[test]
fn several_undefined_signals_wait_for_the_solver() {
    let mut wires = WireBuilder::new();
    let mut collector = UndefineWireCollector::new();
    let mut pa = VerilogPort::new(PortDir::InPort, "pa", Width::RawWidth(10));
    pa.connect_undefined_signal("x");
    pa.connect_undefined_signal("y");
    pa.connect_number_signal(1, 2);
    let mut pb = VerilogPort::new(PortDir::InPort, "pb", Width::RawWidth(5));
    pb.connect_undefined_signal("y");
    pb.connect_undefined_signal("z");
    let mut pc = VerilogPort::new(PortDir::OutPort, "pc", Width::RawWidth(7));
    pc.connect_undefined_signal("z");
    pc.connect_undefined_signal("x");
    assert_eq!(pa.check_health(&mut wires, &mut collector), PortHealth::Deferred);
    assert_eq!(pb.check_health(&mut wires, &mut collector), PortHealth::Deferred);
    assert_eq!(pc.check_health(&mut wires, &mut collector), PortHealth::Deferred);
    assert_eq!(collector.wires, vec!["x", "y", "z"]);
    assert_eq!(collector.func_groups, vec![vec![0, 1], vec![1, 2], vec![2, 0]]);
    assert_eq!(collector.value, vec![8, 5, 7]);
    assert_eq!(pa.undefine_wires_idx, vec![(1, 0), (2, 1)]);
    assert!(pa.undefine_registered);
    assert!(!pa.health_checked);
    assert!(collector.solve_func());
    assert_eq!(collector.res, vec![5, 3, 2]);
    assert_eq!(pa.check_health(&mut wires, &mut collector), PortHealth::Connected);
    assert_eq!(pb.check_health(&mut wires, &mut collector), PortHealth::Connected);
    assert_eq!(pc.check_health(&mut wires, &mut collector), PortHealth::Connected);
    assert_eq!(slice_of(&pa.signals[1]), Some(("x".to_string(), 0, 5)));
    assert_eq!(slice_of(&pa.signals[2]), Some(("y".to_string(), 0, 3)));
    assert_eq!(slice_of(&pb.signals[2]), Some(("z".to_string(), 0, 2)));
    assert_eq!(slice_of(&pc.signals[2]), Some(("x".to_string(), 0, 5)));
    assert_eq!(pa.has_undefine, 0);
    let reports = wires.check_health();
    assert!(reports.iter().all(|r| r.multi_driven.is_empty()));
    assert_eq!(reports[0].name, "x");
    assert!(reports[0].undriven.is_empty() && reports[0].unloaded.is_empty());
    assert_eq!(reports[1].undriven, vec![0, 1, 2]);
    // Solving again changes nothing.
    assert!(collector.solve_func());
    assert_eq!(collector.res, vec![5, 3, 2]);
}

#[test]
fn unsolvable_widths_leave_the_ports_untouched() {
    let mut wires = WireBuilder::new();
    let mut collector = UndefineWireCollector::new();
    let mut pa = VerilogPort::new(PortDir::InPort, "pa", Width::RawWidth(10));
    pa.connect_undefined_signal("x");
    pa.connect_undefined_signal("y");
    let mut pb = VerilogPort::new(PortDir::InPort, "pb", Width::RawWidth(6));
    pb.connect_undefined_signal("x");
    pb.connect_undefined_signal("y");
    pb.connect_undefined_signal("y");
    assert_eq!(pa.check_health(&mut wires, &mut collector), PortHealth::Deferred);
    assert_eq!(pb.check_health(&mut wires, &mut collector), PortHealth::Deferred);
    assert_eq!(collector.func_groups, vec![vec![0, 1], vec![0, 1, 1]]);
    assert_eq!(collector.value, vec![10, 6]);
    assert!(!collector.solve_func());
    assert!(collector.res.is_empty());
    assert_eq!(pa.check_health(&mut wires, &mut collector), PortHealth::Deferred);
    assert_eq!(pb.check_health(&mut wires, &mut collector), PortHealth::Deferred);
    assert!(pa.signals[1].is_undefine() && pa.signals[2].is_undefine());
    assert!(pb.signals[1].is_undefine() && pb.signals[3].is_undefine());
    assert_eq!(pb.has_undefine, 3);
    assert!(wires.check_health().is_empty());
}

#[test]
fn constant_takes_its_width_and_registers_nothing() {
    let mut wires = WireBuilder::new();
    let mut collector = UndefineWireCollector::new();
    let mut p = VerilogPort::new(PortDir::InPort, "p", Width::RawWidth(8));
    p.connect_number_signal(43, 8);
    assert_eq!(p.get_connected_width(), 8);
    assert_eq!(p.check_health(&mut wires, &mut collector), PortHealth::Connected);
    assert!(wires.check_health().is_empty());
    assert_eq!(p.get_signal_string(), "8'd43");
    assert_eq!(p.to_inst_string(true), vec!["    .p(8'd43)".to_string()]);
    assert_eq!(p.to_assign_string(), None);
}

#[test]
fn width_one_is_written_without_a_range() {
    let mut wires = WireBuilder::new();
    let mut p = VerilogPort::new(PortDir::OutPort, "ready", Width::RawWidth(1));
    p.connect_partial_signal(&mut wires, "rdy", &(0..1));
    assert_eq!(p.to_port_string(false), vec!["    output wire ready,".to_string()]);
    assert_eq!(p.to_port_string(true), vec!["    output wire ready".to_string()]);
    assert_eq!(p.to_inst_string(false), vec!["    .ready(rdy),".to_string()]);
    let wide = VerilogPort::new(PortDir::InPort, "data", Width::RawWidth(8));
    assert_eq!(wide.to_port_string(true), vec!["    input wire [7:0] data".to_string()]);
    let symbolic = VerilogPort::new(
        PortDir::InOutPort,
        "bus",
        Width::LiteralWidth("K".to_string(), 12),
    );
    assert_eq!(symbolic.to_port_string(false), vec!["    inout wire [K-1:0] bus,".to_string()]);
    let unknown = VerilogPort::new(PortDir::Unknown, "z", Width::LiteralWidth("K".to_string(), 0));
    assert_eq!(unknown.to_port_string(true), vec!["    unknown wire z".to_string()]);
}

#[test]
fn port_without_fragments_binds_nothing_and_assigns_nothing() {
    let p = VerilogPort::new(PortDir::InPort, "name", Width::RawWidth(4));
    assert_eq!(p.to_inst_string(false), vec!["    .name(),".to_string()]);
    assert_eq!(p.to_inst_string(true), vec!["    .name()".to_string()]);
    assert_eq!(p.to_port_string(true), vec!["    input wire [3:0] name".to_string()]);
    assert_eq!(p.to_assign_string(), None);
}

#[test]
fn concatenation_is_assigned() {
    let mut wires = WireBuilder::new();
    let mut p = VerilogPort::new(PortDir::OutPort, "o", Width::RawWidth(6));
    p.connect_partial_signal(&mut wires, "a", &(2..6));
    p.connect_number_signal(1, 2);
    assert_eq!(p.get_signal_string(), "{a[5:2], 2'd1}");
    assert_eq!(p.to_assign_string(), Some(vec!["    assign o = {a[5:2], 2'd1};".to_string()]));
    assert_eq!(p.to_inst_string(true), vec!["    .o({a[5:2], 2'd1})".to_string()]);
}

#[test]
fn fragments_are_written_as_they_are_bound() {
    let mut wires = WireBuilder::new();
    let mut p = VerilogPort::new(PortDir::InPort, "p", Width::RawWidth(1));
    p.connect_partial_signal(&mut wires, "w", &(0..1));
    assert_eq!(p.signals[1].to_string(), "w");
    assert_eq!(p.signals[1].get_name(), "w");
    p.connect_partial_signal(&mut wires, "v", &(3..9));
    assert_eq!(p.signals[2].to_string(), "v[8:3]");
    p.connect_undefined_signal("u");
    assert_eq!(p.signals[3].to_string(), "u");
    p.connect_number_signal(255, 8);
    assert_eq!(p.signals[4].to_string(), "8'd255");
    assert_eq!(p.signals[4].get_name(), "");
    assert_eq!(p.signals[0].to_string(), "");
    let copy = p.signals[2].duplicate();
    assert_eq!(slice_of(&copy), Some(("v".to_string(), 3, 9)));
}

#[test]
fn ports_are_equal_by_direction_name_and_width() {
    let mut wires = WireBuilder::new();
    let mut a = VerilogPort::new(PortDir::InPort, "p", Width::RawWidth(12));
    a.connect_partial_signal(&mut wires, "w", &(0..12));
    let b = VerilogPort::new(PortDir::InPort, "p", Width::LiteralWidth("K".to_string(), 12));
    assert!(a == b);
    assert!(a != VerilogPort::new(PortDir::OutPort, "p", Width::RawWidth(12)));
    assert!(a != VerilogPort::new(PortDir::InPort, "q", Width::RawWidth(12)));
    assert!(a != VerilogPort::new(PortDir::InPort, "p", Width::RawWidth(11)));
}

#[test]
fn copies_carry_fragments_or_leave_them() {
    let mut wires = WireBuilder::new();
    let mut p = VerilogPort::new(PortDir::OutPort, "p", Width::RawWidth(8));
    p.set_info_msg("a comment");
    p.connect_partial_signal(&mut wires, "w", &(0..4));
    p.connect_undefined_signal("u");
    p.connect_number_signal(0, 1);
    let mut fresh = WireBuilder::new();
    let copy = VerilogPort::copy_port_from(&p, &mut fresh);
    assert_eq!(copy.get_signal_string(), "{w[3:0], u, 1'd0}");
    assert_eq!(copy.info, "a comment");
    assert_eq!(copy.has_undefine, 1);
    assert!(copy == p);
    assert_eq!(fresh.check_health()[0].unloaded, vec![0, 1, 2, 3]);
    let bare = VerilogPort::copy_port_without_wire_from(&p);
    assert_eq!(bare.signals.len(), 1);
    assert_eq!(bare.info, "a comment");
    assert!(bare == p);
}

#[test]
fn directions_and_keywords() {
    assert_eq!(PortDir::InPort.to_string(), "input");
    assert_eq!(PortDir::OutPort.to_string(), "output");
    assert_eq!(PortDir::InOutPort.to_string(), "inout");
    assert_eq!(PortDir::Unknown.to_string(), "unknown");
    assert_eq!(PortDir::from_keyword(&"input".to_string()), PortDir::InPort);
    assert_eq!(PortDir::from_keyword(&"output".to_string()), PortDir::OutPort);
    assert_eq!(PortDir::from_keyword(&"inout".to_string()), PortDir::InOutPort);
    assert_eq!(PortDir::from_keyword(&"Input".to_string()), PortDir::Unknown);
    assert_eq!(PortDir::default(), PortDir::OutPort);
    assert!(PortDir::InPort.is_in() && !PortDir::InPort.is_out());
    assert!(!PortDir::OutPort.is_in() && PortDir::OutPort.is_out());
    assert!(PortDir::InOutPort.is_in() && PortDir::InOutPort.is_out());
}

#[test]
fn inout_and_unknown_ports_read_their_wires() {
    let mut wires = WireBuilder::new();
    let mut a = VerilogPort::new(PortDir::InOutPort, "a", Width::RawWidth(2));
    a.connect_partial_signal(&mut wires, "w", &(0..2));
    let mut b = VerilogPort::new(PortDir::Unknown, "b", Width::RawWidth(2));
    b.connect_partial_signal(&mut wires, "v", &(0..2));
    let reports = wires.check_health();
    assert_eq!(reports[0].undriven, vec![0, 1]);
    assert_eq!(reports[1].undriven, vec![0, 1]);
}

#[test]
fn port_of_the_module_registers_its_own_name() {
    let mut wires = WireBuilder::new();
    let mut collector = UndefineWireCollector::new();
    let mut clk = VerilogPort::new(PortDir::InPort, "clk", Width::RawWidth(1));
    assert_eq!(clk.register_port_as_wire(&mut wires, &mut collector), None);
    assert!(clk.health_checked);
    let mut q = VerilogPort::new(PortDir::OutPort, "q", Width::RawWidth(4));
    assert_eq!(q.register_port_as_wire(&mut wires, &mut collector), None);
    let reports = wires.check_health();
    assert_eq!(reports[0].name, "clk");
    assert_eq!(reports[0].unloaded, vec![0]);
    assert_eq!(reports[1].undriven, vec![0, 1, 2, 3]);
    assert!(wires.traverse_unport_wires().is_empty());
    let mut bound = VerilogPort::new(PortDir::InPort, "d", Width::RawWidth(2));
    bound.set_top(true);
    bound.connect_undefined_signal("d_in");
    assert_eq!(
        bound.register_port_as_wire(&mut wires, &mut collector),
        Some(PortHealth::Connected)
    );
    let reports = wires.check_health();
    assert_eq!(reports[1].name, "d_in");
    assert_eq!(reports[1].unloaded, vec![0, 1]);
    assert!(wires.traverse_unport_wires().is_empty());
}

#[test]
fn registry_finds_the_wire_of_a_port() {
    let mut wires = WireBuilder::new();
    wires.add_load_wire("a", &(0..4));
    wires.add_driver_wire("b", &(0..4));
    let a = VerilogPort::new(PortDir::InPort, "a", Width::RawWidth(4));
    assert!(wires.find_wire_in(&a));
    let narrow = VerilogPort::new(PortDir::InPort, "a", Width::RawWidth(3));
    assert!(!wires.find_wire_in(&narrow));
    let wrong = VerilogPort::new(PortDir::OutPort, "a", Width::RawWidth(4));
    assert!(!wires.find_wire_in(&wrong));
    let b = VerilogPort::new(PortDir::OutPort, "b", Width::RawWidth(4));
    assert!(wires.find_wire_in(&b));
    let mut named = VerilogPort::new(PortDir::OutPort, "other", Width::RawWidth(4));
    named.connect_undefined_signal("b");
    assert!(wires.find_wire_in(&named));
    let mut constant = VerilogPort::new(PortDir::InOutPort, "k", Width::RawWidth(1));
    assert!(!wires.find_wire_in(&constant));
    constant.connect_number_signal(0, 1);
    assert!(wires.find_wire_in(&constant));
}

#[test]
fn port_of_the_module_is_a_port_wire_though_an_instance_bound_it_first() {
    let mut wires = WireBuilder::new();
    let mut collector = UndefineWireCollector::new();
    let mut inner = VerilogPort::new(PortDir::InPort, "clk_i", Width::RawWidth(1));
    inner.connect_partial_signal(&mut wires, "clk", &(0..1));
    let mut out = VerilogPort::new(PortDir::OutPort, "q", Width::RawWidth(4));
    out.connect_partial_signal(&mut wires, "q", &(0..4));
    assert_eq!(wires.traverse_unport_wires().len(), 2);
    let mut clk = VerilogPort::new(PortDir::InPort, "clk", Width::RawWidth(1));
    clk.set_top(true);
    assert_eq!(clk.register_port_as_wire(&mut wires, &mut collector), None);
    let mut q = VerilogPort::new(PortDir::OutPort, "q", Width::RawWidth(4));
    q.set_top(true);
    assert_eq!(q.register_port_as_wire(&mut wires, &mut collector), None);
    assert!(wires.traverse_unport_wires().is_empty());
    let reports = wires.check_health();
    assert!(reports
        .iter()
        .all(|w| w.undriven.is_empty() && w.unloaded.is_empty() && w.multi_driven.is_empty()));
}
