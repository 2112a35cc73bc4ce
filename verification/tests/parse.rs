use verilog_sheet::parse::ConstExpr;
use verilog_sheet::parse::DeclDirection;
use verilog_sheet::parse::Literal;
use verilog_sheet::parse::ModuleDecl;
use verilog_sheet::parse::ParamDecl;
use verilog_sheet::parse::PortDecl;
use verilog_sheet::parse::VerilogParser;
use verilog_sheet::port::PortDir;
use verilog_sheet::width::Width;
use verilog_sheet::writer::CellValue;
use verilog_sheet::writer::ExcelWriter;
use verilog_sheet::data::WrapMacro;

fn dec(s: &str) -> ConstExpr {
    ConstExpr::Primary(Literal::Decimal(s.to_string()))
}

fn id(s: &str) -> ConstExpr {
    ConstExpr::Primary(Literal::Identifier(s.to_string()))
}

fn bin(l: ConstExpr, op: &str, r: ConstExpr) -> ConstExpr {
    ConstExpr::Binary(Box::new(l), Some(op.to_string()), Box::new(r))
}

fn shown(w: &Width) -> (String, usize, bool) {
    (w.to_string(), w.width(), w.is_literal())
}

#[test]
fn literals_are_lowered() {
    let p = |l: Literal| VerilogParser::get_literal_string(&l).map(|w| shown(&w));
    assert_eq!(p(Literal::Decimal("12".to_string())), Some(("12".to_string(), 12, false)));
    assert_eq!(p(Literal::Decimal("x".to_string())), None);
    assert_eq!(p(Literal::Binary("101".to_string())), Some(("5".to_string(), 5, false)));
    assert_eq!(p(Literal::Binary("1x1".to_string())), Some(("1".to_string(), 1, false)));
    assert_eq!(p(Literal::Hex("fF".to_string())), Some(("255".to_string(), 255, false)));
    assert_eq!(p(Literal::Hex("zz".to_string())), Some(("1".to_string(), 1, false)));
    assert_eq!(p(Literal::Octal), None);
    assert_eq!(p(Literal::Unknown), None);
    assert_eq!(p(Literal::Identifier("W".to_string())), Some(("W".to_string(), 0, true)));
    assert_eq!(VerilogParser::get_bin_number_string(&"11".to_string()).width(), 3);
    assert_eq!(VerilogParser::get_hex_number_string(&"10".to_string()).width(), 16);
    assert!(VerilogParser::get_dec_number_string(&"-1".to_string()).is_none());
}

#[test]
fn expressions_are_lowered() {
    let e = |x: ConstExpr| shown(&VerilogParser::extract_expr(&x));
    assert_eq!(e(dec("7")), ("7".to_string(), 7, false));
    assert_eq!(e(bin(dec("7"), "+", dec("2"))), ("9".to_string(), 9, false));
    assert_eq!(e(bin(dec("7"), "-", dec("2"))), ("5".to_string(), 5, false));
    assert_eq!(e(bin(dec("2"), "-", dec("7"))), ("0".to_string(), 0, false));
    assert_eq!(e(bin(dec("7"), "*", dec("2"))), ("7*2".to_string(), 0, true));
    assert_eq!(e(bin(id("W"), "-", dec("1"))), ("W-1".to_string(), 0, true));
    assert_eq!(
        e(bin(bin(id("A"), "+", id("B")), "*", dec("2"))),
        ("A+B*2".to_string(), 0, true)
    );
    assert_eq!(e(ConstExpr::Unary), ("".to_string(), 0, true));
    assert_eq!(e(ConstExpr::Ternary), ("".to_string(), 0, true));
    assert_eq!(e(ConstExpr::Unsupported), ("".to_string(), 0, true));
    assert_eq!(e(ConstExpr::Primary(Literal::Octal)), ("".to_string(), 0, true));
    assert_eq!(
        e(ConstExpr::Binary(Box::new(id("A")), None, Box::new(dec("1")))),
        ("A1".to_string(), 0, true)
    );
}

#[test]
fn ranges_give_widths() {
    let w = |r: Option<(ConstExpr, ConstExpr)>| shown(&VerilogParser::get_port_width(&r));
    assert_eq!(w(None), ("1".to_string(), 1, false));
    assert_eq!(w(Some((dec("7"), dec("0")))), ("8".to_string(), 8, false));
    assert_eq!(w(Some((dec("15"), dec("8")))), ("8".to_string(), 8, false));
    assert_eq!(w(Some((bin(dec("8"), "-", dec("1")), dec("0")))), ("8".to_string(), 8, false));
    assert_eq!(w(Some((bin(id("K"), "-", dec("1")), dec("0")))), ("K".to_string(), 0, true));
    assert_eq!(
        w(Some((bin(id("K"), "-", dec("1")), dec("4")))),
        ("K-1 - 4 + 1".to_string(), 0, true)
    );
    assert_eq!(w(Some((id("MSB"), id("LSB")))), ("MSB - LSB + 1".to_string(), 0, true));
}

#[test]
fn directions_are_lowered() {
    assert_eq!(VerilogParser::get_direction(&Some(DeclDirection::Input)), PortDir::InPort);
    assert_eq!(VerilogParser::get_direction(&Some(DeclDirection::Output)), PortDir::OutPort);
    assert_eq!(VerilogParser::get_direction(&Some(DeclDirection::Inout)), PortDir::InOutPort);
    assert_eq!(VerilogParser::get_direction(&Some(DeclDirection::Ref)), PortDir::Unknown);
    assert_eq!(VerilogParser::get_direction(&Some(DeclDirection::Interface)), PortDir::Unknown);
    assert_eq!(VerilogParser::get_direction(&None), PortDir::Unknown);
    assert_eq!(VerilogParser::get_ansi_direction(&DeclDirection::Input), PortDir::InPort);
    assert_eq!(VerilogParser::get_ansi_direction(&DeclDirection::Ref), PortDir::Unknown);
}

fn declared_module() -> ModuleDecl {
    ModuleDecl {
        name: Some("m".to_string()),
        params: vec![
            ParamDecl { name: Some("W".to_string()), value: Some(dec("8")) },
            ParamDecl { name: None, value: Some(dec("1")) },
            ParamDecl { name: Some("K".to_string()), value: Some(bin(id("W"), "+", dec("4"))) },
            ParamDecl { name: Some("N".to_string()), value: None },
        ],
        ports: vec![
            PortDecl {
                direction: Some(DeclDirection::Input),
                range: Some((bin(id("K"), "-", dec("1")), dec("0"))),
                names: vec![Some("d".to_string())],
            },
            PortDecl {
                direction: Some(DeclDirection::Output),
                range: None,
                names: vec![Some("a".to_string()), None, Some("b".to_string())],
            },
            PortDecl { direction: None, range: Some((dec("3"), dec("0"))), names: vec![] },
        ],
    }
}

#[test]
fn parameters_take_their_values_from_those_before() {
    let m = declared_module();
    let params = VerilogParser::extract_params(&m.params);
    let seen: Vec<(String, usize)> = params.iter().map(|p| (p.name.clone(), p.get_value())).collect();
    assert_eq!(seen, vec![("W".to_string(), 8), ("K".to_string(), 12)]);
}

#[test]
fn declarations_are_lowered_into_a_module() {
    let parser = VerilogParser::new("m.v".to_string())
        .add_includes(vec!["..".to_string()])
        .with_tree(vec![declared_module(), ModuleDecl { name: None, params: vec![], ports: vec![] }])
        .solve();
    assert_eq!(parser.includes, vec![".."]);
    let modules = parser.get_module_info();
    assert_eq!(modules.len(), 2);
    assert_eq!(modules[1].module_name, "");
    let m = &modules[0];
    assert_eq!(m.module_name, "m");
    assert_eq!(m.param_list.len(), 2);
    let ports: Vec<(PortDir, String, String, usize)> = m
        .port_list
        .iter()
        .map(|p| {
            let p = p.get_raw();
            (p.inout, p.name.clone(), p.width.to_string(), p.width.width())
        })
        .collect();
    assert_eq!(
        ports,
        vec![
            (PortDir::InPort, "d".to_string(), "K".to_string(), 12),
            (PortDir::OutPort, "a".to_string(), "1".to_string(), 1),
            (PortDir::OutPort, "".to_string(), "1".to_string(), 1),
            (PortDir::OutPort, "b".to_string(), "1".to_string(), 1),
        ]
    );
    // The source keeps the expression of the width, the sheet shows its value.
    assert_eq!(
        m.port_list[0].to_port_string(false),
        vec!["    input wire [K-1:0] d,".to_string()]
    );
    let lowered = VerilogParser::lower_module(&declared_module());
    let layout = ExcelWriter::new("m".to_string()).add_inst_sheet(&lowered.wrap_raw());
    let width_cell = layout.cells.iter().find(|c| c.row == 5 && c.col == 2).unwrap();
    assert!(matches!(width_cell.value, CellValue::Number(12)));
    let parser = VerilogParser::new("m.v".to_string()).solve();
    assert!(parser.get_module_info().is_empty());
}
