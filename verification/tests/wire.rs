use verilog_sheet::error::WireError;
use verilog_sheet::port::PortDir;
use verilog_sheet::wire::VerilogWire;
use verilog_sheet::wire::WireBuilder;
use verilog_sheet::wire::WirePrinter;

#[test]
fn test_builder() {
    let mut wires = WireBuilder::new();
    wires.add_load_wire("testwire1", &(0..1));
    wires.add_driver_wire("testwire1", &(0..1));
    wires.add_driver_wire("testwire2", &(0..6));
    wires.add_load_wire("testwire3", &(0..2));
    println!("{:#?}", wires);
    println!("wire1 width is {}", wires.get_width("testwire1").unwrap());
    println!("wire2 width is {}", wires.get_width("testwire2").unwrap());
    println!("wire3 width is {}", wires.get_width("testwire3").unwrap());
    assert_eq!(wires.get_width("testwire1").unwrap(), 1);
    assert_eq!(wires.get_width("testwire2").unwrap(), 6);
    assert_eq!(wires.get_width("testwire3").unwrap(), 2);

    wires.add_driver_wire("testwire2", &(0..1));
    let reports = wires.check_health();
    assert_eq!(reports.len(), 3);
    assert_eq!(reports[0].name, "testwire1");
    assert!(reports[0].undriven.is_empty());
    assert!(reports[0].unloaded.is_empty());
    assert!(reports[0].multi_driven.is_empty());
    assert_eq!(reports[1].name, "testwire2");
    assert!(reports[1].undriven.is_empty());
    assert_eq!(reports[1].unloaded, vec![0, 1, 2, 3, 4, 5]);
    assert_eq!(reports[1].multi_driven, vec![0]);
    assert_eq!(reports[2].name, "testwire3");
    assert_eq!(reports[2].undriven, vec![0, 1]);
    assert!(reports[2].unloaded.is_empty());
}

#[test]
fn unknown_wire_has_no_width() {
    let wires = WireBuilder::new();
    assert!(matches!(wires.get_width("nowhere"), Err(WireError::UnknownWire(n)) if n == "nowhere"));
    assert!(!wires.contains("nowhere"));
}

#[test]
fn width_is_one_more_than_the_highest_bit() {
    let mut wires = WireBuilder::new();
    wires.add_load_wire("a", &(4..8));
    wires.add_driver_wire("a", &(0..2));
    assert_eq!(wires.get_width("a").unwrap(), 8);
    wires.add_driver_wire("b", &(3..3));
    assert_eq!(wires.get_width("b").unwrap(), 1);
    assert!(wires.contains("b"));
}

#[test]
fn second_driver_of_a_bit_is_recorded() {
    let mut wires = WireBuilder::new();
    wires.add_driver_wire("n", &(0..4));
    assert!(wires.check_health()[0].multi_driven.is_empty());
    wires.add_driver_wire("n", &(0..4));
    let reports = wires.check_health();
    assert_eq!(reports[0].multi_driven, vec![0, 1, 2, 3]);
    let errors = reports[0].errors();
    let multi: Vec<usize> = errors
        .iter()
        .filter_map(|e| match e {
            WireError::MultiDriver(n, b) if n == "n" => Some(*b),
            _ => None,
        })
        .collect();
    assert_eq!(multi, vec![0, 1, 2, 3]);
}

#[test]
fn overlapping_drivers_record_only_the_overlap() {
    let mut wires = WireBuilder::new();
    wires.add_driver_wire("n", &(0..4));
    wires.add_driver_wire("n", &(2..6));
    wires.add_load_wire("n", &(0..6));
    wires.add_load_wire("n", &(0..6));
    let reports = wires.check_health();
    assert_eq!(reports[0].multi_driven, vec![2, 3]);
    assert!(reports[0].undriven.is_empty());
    assert!(reports[0].unloaded.is_empty());
}

#[test]
fn undriven_is_reported_exactly_when_a_load_lacks_its_driver() {
    let mut wires = WireBuilder::new();
    wires.add_load_wire("w", &(0..4));
    wires.add_driver_wire("w", &(0..2));
    let reports = wires.check_health();
    assert_eq!(reports[0].undriven, vec![2, 3]);
    assert!(reports[0].unloaded.is_empty());
    let errors = reports[0].errors();
    assert_eq!(errors.len(), 2);
    assert!(matches!(&errors[0], WireError::UnDriver(n, 2) if n == "w"));
    assert!(matches!(&errors[1], WireError::UnDriver(n, 3) if n == "w"));
    wires.add_driver_wire("w", &(2..5));
    let reports = wires.check_health();
    assert!(reports[0].undriven.is_empty());
    assert_eq!(reports[0].unloaded, vec![4]);
    assert!(matches!(&reports[0].errors()[0], WireError::Unload(n, 4) if n == "w"));
}

#[test]
fn wires_are_listed_by_name() {
    let mut wires = WireBuilder::new();
    wires.add_driver_wire("zeta", &(0..2));
    wires.add_driver_wire("alpha", &(0..1));
    wires.add_load_wire("Mid", &(0..3));
    wires.add_driver_wire_asport("clk", &(0..1));
    wires.add_load_wire_asport("q", &(0..8));
    let names: Vec<String> = wires.check_health().iter().map(|r| r.name.clone()).collect();
    assert_eq!(names, vec!["Mid", "alpha", "clk", "q", "zeta"]);
    let internal = wires.traverse_unport_wires();
    let listed: Vec<(String, usize)> =
        internal.iter().map(|p| (p.name.clone(), p.width)).collect();
    assert_eq!(
        listed,
        vec![("Mid".to_string(), 3), ("alpha".to_string(), 1), ("zeta".to_string(), 2)]
    );
}

#[test]
fn port_registration_marks_the_wire_as_a_port() {
    let mut wires = WireBuilder::new();
    let a = wires.add_driver_wire_asport("a", &(0..1));
    assert!(!a.need_declaration());
    let again = wires.add_load_wire("a", &(0..1));
    assert!(!again.need_declaration());
    let b = wires.add_load_wire("b", &(0..1));
    assert!(b.need_declaration());
    let again = wires.add_driver_wire_asport("b", &(0..1));
    assert!(!again.need_declaration());
    assert_eq!(again.to_string(), "b");
    let c = wires.add_driver_wire("c", &(0..2));
    assert!(c.need_declaration());
    let again = wires.add_load_wire_asport("c", &(0..2));
    assert!(!again.need_declaration());
    assert!(wires.traverse_unport_wires().is_empty());
}

#[test]
fn port_registered_after_its_load_is_not_declared_as_a_wire() {
    let mut wires = WireBuilder::new();
    wires.clear();
    wires.add_load_wire("a", &(0..4));
    let listed: Vec<String> =
        wires.traverse_unport_wires().iter().flat_map(|w| w.to_string()).collect();
    assert_eq!(listed.len(), 1);
    wires.add_driver_wire_asport("a", &(0..4));
    assert!(wires.traverse_unport_wires().is_empty());
    assert_eq!(wires.get_width("a").unwrap(), 4);
    let reports = wires.check_health();
    assert_eq!(reports.len(), 1);
    assert_eq!(reports[0].name, "a");
    assert!(reports[0].undriven.is_empty());
    assert!(reports[0].unloaded.is_empty());
    assert!(reports[0].multi_driven.is_empty());
    assert!(wires.traverse_unload_undriven().is_empty());
}

#[test]
fn unbalanced_wires_ask_for_ports() {
    let mut wires = WireBuilder::new();
    wires.add_load_wire("b", &(0..4));
    wires.add_driver_wire("done", &(0..1));
    wires.add_driver_wire("ok", &(0..2));
    wires.add_load_wire("ok", &(0..2));
    wires.add_load_wire("mixed", &(0..3));
    wires.add_driver_wire("mixed", &(2..5));
    assert_eq!(
        wires.traverse_unload_undriven(),
        vec![
            (PortDir::InPort, 4, "b".to_string()),
            (PortDir::OutPort, 1, "done".to_string()),
            (PortDir::InPort, 2, "mixed".to_string()),
        ]
    );
    wires.clear();
    assert!(wires.traverse_unload_undriven().is_empty());
    assert!(wires.check_health().is_empty());
}

#[test]
fn wire_declaration_text() {
    assert_eq!(
        WirePrinter::new("n".to_string(), 4).to_string(),
        vec!["wire [3   :0] n                   ;".to_string()]
    );
    assert_eq!(
        WirePrinter::new("flag".to_string(), 1).to_string(),
        vec!["wire          flag                ;".to_string()]
    );
    assert_eq!(
        WirePrinter::new("a_very_long_name_of_a_wire".to_string(), 100000).to_string(),
        vec!["wire [99999:0] a_very_long_name_of_a_wire;".to_string()]
    );
}

#[test]
fn wires_compare_by_name() {
    let a = VerilogWire::new("a".to_string());
    let mut port = VerilogWire::new_port("a".to_string());
    assert!(a.same_name(&port));
    assert!(a.need_declaration());
    assert!(!port.need_declaration());
    port.set_port_tag(false);
    assert!(port.need_declaration());
    assert!(!a.same_name(&VerilogWire::new("b".to_string())));
}
