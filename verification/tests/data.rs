use verilog_sheet::data::VerilogData;
use verilog_sheet::data::WrapMacro;
use verilog_sheet::module::VerilogModule;
use verilog_sheet::port::PortDir;
use verilog_sheet::port::VerilogPort;
use verilog_sheet::width::Width;

#[test]
fn test_data_type() {
    let module = VerilogModule::new(String::from("test_module"));
    let data = VerilogData::Raw(module);
    let macro_data = VerilogData::Macro { name: "test_macro".into(), value: Box::new(data) };
    println!("{:#?}", &macro_data);
    assert_eq!(macro_data.get_raw().module_name, "test_module");
    assert_eq!(macro_data.get_macro_name(), "test_macro, ");
}

#[test]
fn first_guard_is_outermost() {
    let port = VerilogPort::new(PortDir::InPort, "p", Width::RawWidth(1));
    let wrapped = port.wrap_macro_with(vec!["A".to_string(), "B".to_string()]);
    assert_eq!(wrapped.guard_names(), vec!["A".to_string(), "B".to_string()]);
    assert_eq!(wrapped.get_macro_name(), "A, B, ");
    match &wrapped {
        VerilogData::Macro { name, value } => {
            assert_eq!(name, "A");
            match &**value {
                VerilogData::Macro { name, .. } => assert_eq!(name, "B"),
                VerilogData::Raw(_) => panic!("one guard only"),
            }
        }
        VerilogData::Raw(_) => panic!("no guard"),
    }
    assert_eq!(
        wrapped.to_inst_string(false),
        vec![
            "`ifdef A".to_string(),
            "`ifdef B".to_string(),
            "    .p(),".to_string(),
            "`endif  // B".to_string(),
            "`endif  // A".to_string(),
        ]
    );
}

#[test]
fn guards_do_not_change_what_a_port_is() {
    let plain = VerilogPort::new(PortDir::OutPort, "q", Width::RawWidth(4)).wrap_raw();
    let guarded = VerilogPort::new(PortDir::OutPort, "q", Width::RawWidth(4))
        .wrap_macro_with(vec!["EN_X".to_string()]);
    assert!(guarded.same(&plain));
    assert!(plain.same(&guarded));
    let other = VerilogPort::new(PortDir::OutPort, "q", Width::RawWidth(5)).wrap_raw();
    assert!(!guarded.same(&other));
    let again = VerilogPort::new(PortDir::InPort, "r", Width::RawWidth(1)).wrap_macro_as(&guarded);
    assert_eq!(again.get_macro_name(), "EN_X, ");
    assert_eq!(again.get_raw().name, "r");
}

#[test]
fn guarded_port_renders_between_ifdef_and_endif() {
    let mut wires = verilog_sheet::wire::WireBuilder::new();
    let mut port = VerilogPort::new(PortDir::InPort, "p", Width::RawWidth(1));
    port.connect_partial_signal(&mut wires, "sig", &(0..1));
    let guarded = port.wrap_macro_with(vec!["EN_X".to_string()]);
    assert_eq!(
        guarded.to_inst_string(false),
        vec!["`ifdef EN_X".to_string(), "    .p(sig),".to_string(), "`endif  // EN_X".to_string()]
    );
    assert_eq!(
        guarded.to_port_string(true),
        vec![
            "`ifdef EN_X".to_string(),
            "    input wire p".to_string(),
            "`endif  // EN_X".to_string()
        ]
    );
    assert_eq!(guarded.to_assign_string(), None);
}

#[test]
fn guarded_values_of_any_type_compare_by_what_they_guard() {
    let a = 5u32.wrap_macro_with(vec!["A".to_string(), "B".to_string()]);
    let b = 5u32.wrap_macro_with(vec!["C".to_string()]);
    let c = 6u32.wrap_macro_with(vec!["A".to_string(), "B".to_string()]);
    assert!(a == b);
    assert!(a == VerilogData::Raw(5u32));
    assert!(VerilogData::Raw(5u32) == a);
    assert!(a != c);
    assert!(c != VerilogData::Raw(5u32));
    let s = "x".to_string().wrap_macro_with(vec![]);
    let u = "u".to_string().wrap_macro_with(vec!["A".to_string(), "B".to_string()]);
    let t = "x".to_string().wrap_macro_as(&u);
    assert!(s == t);
    assert!(t != u);
    assert_eq!(t.guard_names(), vec!["A".to_string(), "B".to_string()]);
    assert!(t != "y".to_string().wrap_raw());
}
