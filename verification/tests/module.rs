use verilog_sheet::collector::UndefineWireCollector;
use verilog_sheet::data::VerilogData;
use verilog_sheet::data::WrapMacro;
use verilog_sheet::inst::VerilogInst;
use verilog_sheet::module::VerilogModule;
use verilog_sheet::parameter::Param;
use verilog_sheet::parameter::ParamValue;
use verilog_sheet::port::PortDir;
use verilog_sheet::port::PortHealth;
use verilog_sheet::port::VerilogPort;
use verilog_sheet::port::VerilogValue;
use verilog_sheet::width::Width;
use verilog_sheet::wire::WireBuilder;

#[test]
fn test_inst_string() {
    let mut wires = WireBuilder::new();
    let mut module = VerilogModule::new("test".to_string());
    module.fix_inst_name("u_test_module");
    let mut port1 = VerilogPort::new(PortDir::InPort, "port1", 12.into());
    port1.set_info_msg("test1 info message");
    port1.connect_partial_signal(&mut wires, "wire1", &(0..4));
    port1.connect_partial_signal(&mut wires, "wire2", &(0..5));
    port1.connect_partial_signal(&mut wires, "wire3", &(0..3));
    println!("{:?}", port1.signals);
    let mut port2 = VerilogPort::new(PortDir::InPort, "port2", 12.into());
    port2.connect_undefined_signal("undefined-wires");
    let mut port3 = VerilogPort::new(
        PortDir::OutPort,
        "pordddddddddddddddddddddddddddddddddddddddddddddddddddddddddddddddddt3",
        12.into(),
    );
    port3.connect_number_signal(43, 8);
    module.add_ports(vec![port1.wrap_raw(), port2.wrap_raw(), port3.wrap_raw()]);
    println!("{}", module.to_inst_string().join("\n"));
    assert_eq!(
        module.to_inst_string(),
        vec![
            "test u_test_module (".to_string(),
            "    .port1({wire1[3:0], wire2[4:0], wire3[2:0]}),".to_string(),
            "    .port2(undefined-wires),".to_string(),
            "    .pordddddddddddddddddddddddddddddddddddddddddddddddddddddddddddddddddt3(8'd43)"
                .to_string(),
            ");".to_string(),
        ]
    );
}

#[test]
fn instance_with_parameters() {
    let mut module = VerilogModule::new("fifo".to_string());
    module.add_param_list(vec![
        Param::new("DEPTH".to_string(), 16),
        Param::new_with_param(
            "WIDTH".to_string(),
            ParamValue::Param(Param::new("TOP_W".to_string(), 8)),
        ),
    ]);
    module.add_port(PortDir::InPort, "clk", 1);
    assert_eq!(
        module.to_inst_string(),
        vec![
            "fifo #(".to_string(),
            "    .DEPTH               (16        ),".to_string(),
            "    .WIDTH               (TOP_W     )".to_string(),
            ") u_fifo (".to_string(),
            "    .clk()".to_string(),
            ");".to_string(),
        ]
    );
    module.set_default_inst_name();
    assert_eq!(module.inst_name, Some("u_fifo".to_string()));
    assert_eq!(module.get_name(), "fifo");
}

#[test]
fn instance_without_ports_is_closed() {
    let module = VerilogModule::new("empty".to_string());
    assert_eq!(module.to_inst_string(), vec!["empty u_empty (".to_string(), ");".to_string()]);
}

#[test]
fn parameters_know_their_value_and_how_they_are_written() {
    let plain = Param::new("W".to_string(), 8);
    assert_eq!(plain.get_value(), 8);
    assert_eq!(plain.get_name(), "8");
    let alias = Param::new_with_param("K".to_string(), ParamValue::Param(plain.duplicate()));
    assert_eq!(alias.get_value(), 8);
    assert_eq!(alias.get_name(), "W");
    let params = vec![plain, alias];
    match ParamValue::gen_from_params(&params, "K".to_string()) {
        ParamValue::Param(p) => {
            assert_eq!(p.name, "K");
            assert_eq!(p.get_value(), 8);
        }
        ParamValue::Value(_) => panic!("K is a parameter"),
    }
    assert!(matches!(ParamValue::gen_from_params(&params, "Z".to_string()), ParamValue::Value(0)));
    assert!(matches!(ParamValue::from(3usize), ParamValue::Value(3)));
    assert!(matches!(ParamValue::from(Param::new("A".to_string(), 1)), ParamValue::Param(_)));
}

fn child(name: &str, wires: &mut WireBuilder, out_wire: &str) -> VerilogData<VerilogModule> {
    let mut m = VerilogModule::new(name.to_string());
    m.set_default_inst_name();
    let mut o = VerilogPort::new(PortDir::OutPort, "o", Width::RawWidth(4));
    o.connect_partial_signal(wires, out_wire, &(0..4));
    m.add_port_inst(o.wrap_raw());
    m.wrap_raw()
}

#[test]
fn two_drivers_of_one_wire_are_reported_bit_by_bit() {
    let mut wires = WireBuilder::new();
    let mut collector = UndefineWireCollector::new();
    let mut top = VerilogModule::new("top".to_string());
    let a = child("a", &mut wires, "n");
    let b = child("b", &mut wires, "n");
    top.add_inst_module(a);
    top.add_inst_module(b);
    let report = top.final_check(&mut wires, &mut collector);
    assert_eq!(report.solved, None);
    assert_eq!(report.wires.len(), 1);
    assert_eq!(report.wires[0].name, "n");
    assert_eq!(report.wires[0].multi_driven, vec![0, 1, 2, 3]);
    assert_eq!(report.wires[0].unloaded, vec![0, 1, 2, 3]);
}

#[test]
fn final_check_solves_and_rewrites_every_port() {
    let mut wires = WireBuilder::new();
    let mut collector = UndefineWireCollector::new();
    let mut top = VerilogModule::new("top".to_string());
    let mut u = VerilogModule::new("u".to_string());
    let mut pa = VerilogPort::new(PortDir::InPort, "pa", Width::RawWidth(10));
    pa.connect_undefined_signal("x");
    pa.connect_undefined_signal("y");
    let mut pb = VerilogPort::new(PortDir::OutPort, "pb", Width::RawWidth(16));
    pb.connect_undefined_signal("x");
    pb.connect_undefined_signal("y");
    pb.connect_undefined_signal("y");
    assert_eq!(pa.check_health(&mut wires, &mut collector), PortHealth::Deferred);
    assert_eq!(pb.check_health(&mut wires, &mut collector), PortHealth::Deferred);
    u.add_ports(vec![pa.wrap_raw(), pb.wrap_raw()]);
    top.add_inst_module(u.wrap_macro_with(vec!["HAS_U".to_string()]));
    let report = top.final_check(&mut wires, &mut collector);
    assert_eq!(report.solved, Some(true));
    assert_eq!(report.instances, vec![vec![PortHealth::Connected, PortHealth::Connected]]);
    assert_eq!(collector.res, vec![4, 6]);
    let ports = &top.inst_list[0].get_raw().port_list;
    assert_eq!(ports[0].get_raw().get_signal_string(), "{x[3:0], y[5:0]}");
    assert_eq!(ports[1].get_raw().get_signal_string(), "{x[3:0], y[5:0], y[5:0]}");
    assert_eq!(report.wires.len(), 2);
    assert!(report.wires[0].undriven.is_empty() && report.wires[0].unloaded.is_empty());
    assert_eq!(report.wires[1].multi_driven, vec![0, 1, 2, 3, 4, 5]);
    // Checking again repeats the solving and leaves everything as it is.
    let again = top.final_check(&mut wires, &mut collector);
    assert_eq!(again.solved, Some(true));
    assert_eq!(collector.res, vec![4, 6]);
    assert_eq!(
        top.inst_list[0].get_raw().port_list[0].get_raw().get_signal_string(),
        "{x[3:0], y[5:0]}"
    );
    assert_eq!(again.wires[1].multi_driven, vec![0, 1, 2, 3, 4, 5]);
}

#[test]
fn unsolvable_system_is_reported_and_ports_stay() {
    let mut wires = WireBuilder::new();
    let mut collector = UndefineWireCollector::new();
    let mut top = VerilogModule::new("top".to_string());
    let mut u = VerilogModule::new("u".to_string());
    let mut pa = VerilogPort::new(PortDir::InPort, "pa", Width::RawWidth(10));
    pa.connect_undefined_signal("x");
    pa.connect_undefined_signal("y");
    let mut pb = VerilogPort::new(PortDir::InPort, "pb", Width::RawWidth(6));
    pb.connect_undefined_signal("x");
    pb.connect_undefined_signal("y");
    pb.connect_undefined_signal("y");
    pa.check_health(&mut wires, &mut collector);
    pb.check_health(&mut wires, &mut collector);
    u.add_ports(vec![pa.wrap_raw(), pb.wrap_raw()]);
    top.add_inst_module(u.wrap_raw());
    let report = top.final_check(&mut wires, &mut collector);
    assert_eq!(report.solved, Some(false));
    assert_eq!(report.instances, vec![vec![PortHealth::Deferred, PortHealth::Deferred]]);
    let ports = &top.inst_list[0].get_raw().port_list;
    assert_eq!(ports[0].get_raw().get_signal_string(), "{x, y}");
    assert_eq!(ports[1].get_raw().get_signal_string(), "{x, y, y}");
    assert!(matches!(ports[0].get_raw().signals[1], VerilogValue::UndefinedWire(_)));
    assert!(report.wires.is_empty());
}

#[test]
fn module_text() {
    let mut wires = WireBuilder::new();
    let mut collector = UndefineWireCollector::new();
    let mut top = VerilogModule::new("top".to_string());
    let mut clk = VerilogPort::new(PortDir::InPort, "clk", Width::RawWidth(1));
    clk.register_port_as_wire(&mut wires, &mut collector);
    let mut bus = VerilogPort::new(PortDir::OutPort, "bus", Width::RawWidth(8));
    bus.set_top(true);
    bus.connect_partial_signal(&mut wires, "hi", &(0..4));
    bus.connect_partial_signal(&mut wires, "lo", &(0..4));
    top.add_ports(vec![clk.wrap_raw(), bus.wrap_macro_with(vec!["WITH_BUS".to_string()])]);
    let mut u = VerilogModule::new("core".to_string());
    u.set_default_inst_name();
    let mut c = VerilogPort::new(PortDir::InPort, "clk", Width::RawWidth(1));
    c.connect_partial_signal(&mut wires, "clk", &(0..1));
    let mut h = VerilogPort::new(PortDir::OutPort, "h", Width::RawWidth(4));
    h.connect_partial_signal(&mut wires, "hi", &(0..4));
    let mut l = VerilogPort::new(PortDir::OutPort, "l", Width::RawWidth(4));
    l.connect_partial_signal(&mut wires, "lo", &(0..4));
    let mut t = VerilogPort::new(PortDir::OutPort, "t", Width::RawWidth(2));
    t.connect_partial_signal(&mut wires, "tmp", &(0..2));
    let mut s = VerilogPort::new(PortDir::InPort, "s", Width::RawWidth(2));
    s.connect_partial_signal(&mut wires, "tmp", &(0..2));
    u.add_ports(vec![c.wrap_raw(), h.wrap_raw(), l.wrap_raw(), t.wrap_raw(), s.wrap_raw()]);
    top.add_inst_module(u.wrap_raw());
    let report = top.final_check(&mut wires, &mut collector);
    assert!(report
        .wires
        .iter()
        .all(|w| w.undriven.is_empty() && w.unloaded.is_empty() && w.multi_driven.is_empty()));
    assert_eq!(
        top.to_module_string(&wires),
        vec![
            "module top (".to_string(),
            "    input wire clk,".to_string(),
            "`ifdef WITH_BUS".to_string(),
            "    output wire [7:0] bus".to_string(),
            "`endif  // WITH_BUS".to_string(),
            ");\n".to_string(),
            "    wire [1   :0] tmp                 ;".to_string(),
            "\n".to_string(),
            "`ifdef WITH_BUS".to_string(),
            "    assign bus = {hi[3:0], lo[3:0]};".to_string(),
            "`endif  // WITH_BUS".to_string(),
            "\n".to_string(),
            "    core u_core (".to_string(),
            "        .clk(clk),".to_string(),
            "        .h(hi[3:0]),".to_string(),
            "        .l(lo[3:0]),".to_string(),
            "        .t(tmp[1:0]),".to_string(),
            "        .s(tmp[1:0])".to_string(),
            "    );".to_string(),
            "\n\n".to_string(),
            "endmodule".to_string(),
        ]
    );
}

#[test]
fn modules_are_compared_port_by_port_and_instance_by_instance() {
    let mut a = VerilogModule::new("a".to_string());
    a.add_port(PortDir::InPort, "x", 4);
    a.add_port(PortDir::OutPort, "y", 1);
    a.add_port(PortDir::InPort, "z", 2);
    let mut b = VerilogModule::new("b".to_string());
    b.add_port(PortDir::InPort, "z", 2);
    b.add_port(PortDir::InPort, "x", 5);
    b.add_port_inst(
        VerilogPort::new(PortDir::OutPort, "y", Width::RawWidth(1))
            .wrap_macro_with(vec!["G".to_string()]),
    );
    let names = |v: Vec<&VerilogData<VerilogPort>>| -> Vec<String> {
        v.iter().map(|p| p.get_raw().name.clone()).collect()
    };
    assert_eq!(names(a.same_ports_with(&b)), vec!["y", "z"]);
    assert_eq!(names(a.diff_ports_with(&b)), vec!["x"]);
    assert_eq!(names(b.diff_ports_with(&a)), vec!["x"]);
    a.add_inst_module(VerilogModule::new("one".to_string()).wrap_raw());
    a.add_inst_module(VerilogModule::new("two".to_string()).wrap_raw());
    b.add_inst_module(VerilogModule::new("two".to_string()).wrap_raw());
    assert_eq!(a.find_inst_module_by_name("two"), Some(1));
    assert_eq!(a.find_inst_module_by_name("three"), None);
    let only: Vec<String> =
        a.diff_inst_with(&b).iter().map(|m| m.get_raw().module_name.clone()).collect();
    assert_eq!(only, vec!["one"]);
    assert!(b.diff_inst_with(&a).is_empty());
}

#[test]
fn default_wiring_binds_each_port_to_its_own_name() {
    let mut wires = WireBuilder::new();
    let mut collector = UndefineWireCollector::new();
    let mut m = VerilogModule::new("m".to_string());
    m.add_port(PortDir::InPort, "d", 8);
    m.add_port(PortDir::OutPort, "q", 8);
    let found = m.set_default_port_wires(&mut wires, &mut collector);
    assert_eq!(found, vec![PortHealth::Connected, PortHealth::Connected]);
    assert_eq!(m.port_list[0].get_raw().get_signal_string(), "d[7:0]");
    assert_eq!(m.port_list[1].get_raw().get_signal_string(), "q[7:0]");
    assert_eq!(
        wires.traverse_unload_undriven(),
        vec![(PortDir::InPort, 8, "d".to_string()), (PortDir::OutPort, 8, "q".to_string())]
    );
}

#[test]
fn copied_module_keeps_guards_and_registers_its_wires() {
    let mut wires = WireBuilder::new();
    let mut collector = UndefineWireCollector::new();
    let mut m = VerilogModule::new("m".to_string());
    let mut d = VerilogPort::new(PortDir::InPort, "d", Width::RawWidth(8));
    d.connect_partial_signal(&mut wires, "data", &(0..8));
    m.add_port_inst(d.wrap_macro_with(vec!["G".to_string()]));
    m.add_param_list(vec![Param::new("W".to_string(), 8)]);
    let wrapped = m.wrap_macro_with(vec!["OUTER".to_string()]);
    let mut fresh = WireBuilder::new();
    let (copy, found) = VerilogModule::copy_module_from(&wrapped, &mut fresh, &mut collector);
    assert_eq!(found, vec![PortHealth::Connected]);
    assert_eq!(copy.get_macro_name(), "OUTER, ");
    assert_eq!(copy.get_raw().module_name, "m");
    assert_eq!(copy.get_raw().port_list[0].get_macro_name(), "G, ");
    assert_eq!(copy.get_raw().port_list[0].get_raw().get_signal_string(), "data[7:0]");
    assert!(copy.get_raw().param_list.is_empty());
    assert_eq!(fresh.check_health()[0].undriven, vec![0, 1, 2, 3, 4, 5, 6, 7]);
    let params = VerilogModule::copy_parameter_from(wrapped.get_raw());
    assert_eq!(params.len(), 1);
    assert_eq!(params[0].name, "W");
}

#[test]
fn symbolic_widths_follow_the_parameters() {
    let mut m = VerilogModule::new("m".to_string());
    m.add_port_inst(
        VerilogPort::new(PortDir::InPort, "d", Width::LiteralWidth("K".to_string(), 0)).wrap_raw(),
    );
    m.add_port(PortDir::InPort, "e", 3);
    let params = vec![Param::new("W".to_string(), 8), Param::new("K".to_string(), 12)];
    m.update_literal_port(&params);
    assert_eq!(m.port_list[0].get_raw().width.width(), 12);
    assert_eq!(m.port_list[0].get_raw().width.to_string(), "K");
    assert_eq!(m.port_list[1].get_raw().width.width(), 3);
    assert_eq!(
        m.port_list[0].to_port_string(false),
        vec!["    input wire [K-1:0] d,".to_string()]
    );
}

#[test]
fn plain_instance() {
    let mut inst = VerilogInst::new("alu");
    assert_eq!(inst.inst_name, "u_alu");
    inst.add_port(PortDir::InPort, "a", 8);
    inst.add_port(PortDir::OutPort, "y", 1);
    inst.fix_inst_name("alu0");
    assert_eq!(
        inst.to_string(),
        vec![
            "alu alu0 (".to_string(),
            "    .a(),".to_string(),
            "    .y()".to_string(),
            ");".to_string()
        ]
    );
}

#[test]
fn default_instance_name_leaves_a_given_name() {
    let mut m = VerilogModule::new("uart".to_string());
    m.fix_inst_name("my_uart");
    m.set_default_inst_name();
    assert_eq!(m.inst_name, Some("my_uart".to_string()));
    assert_eq!(m.module_name, "uart");
    let mut fresh = VerilogModule::new("uart".to_string());
    assert_eq!(fresh.inst_name, None);
    fresh.set_default_inst_name();
    assert_eq!(fresh.inst_name, Some("u_uart".to_string()));
    fresh.set_default_inst_name();
    assert_eq!(fresh.inst_name, Some("u_uart".to_string()));
}
