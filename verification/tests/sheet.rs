use verilog_sheet::collector::UndefineWireCollector;
use verilog_sheet::data::VerilogData;
use verilog_sheet::data::WrapMacro;
use verilog_sheet::module::VerilogModule;
use verilog_sheet::parameter::Param;
use verilog_sheet::parameter::ParamValue;
use verilog_sheet::port::PortDir;
use verilog_sheet::port::PortHealth;
use verilog_sheet::port::VerilogPort;
use verilog_sheet::port::VerilogValue;
use verilog_sheet::reader::Cell;
use verilog_sheet::reader::ExcelReader;
use verilog_sheet::reader::Sheet;
use verilog_sheet::reader::SheetError;
use verilog_sheet::reader::WireToken;
use verilog_sheet::width::Width;
use verilog_sheet::wire::WireBuilder;
use verilog_sheet::writer::CellStyle;
use verilog_sheet::writer::CellValue;
use verilog_sheet::writer::EntryKind;
use verilog_sheet::writer::ExcelWriter;
use verilog_sheet::writer::SheetLayout;

fn t(s: &str) -> Cell {
    Cell::Text(s.to_string())
}

fn port_row(name: &str, dir: &str, width: usize, wires: &str, info: &str, guards: &str) -> Vec<Cell> {
    let cell = |s: &str| if s.is_empty() { Cell::Empty } else { t(s) };
    vec![t(name), t(dir), Cell::Number(width), cell(wires), cell(info), cell(guards)]
}

fn header(guards: &str) -> Vec<Cell> {
    let last = if guards.is_empty() { Cell::Empty } else { t(guards) };
    vec![t("Port-name"), t("InOut"), t("Width"), t("Wire-name"), t("Port-comment"), last]
}

fn sheet(name: &str, inst: &str, params: Vec<(&str, Cell)>, guards: &str, ports: Vec<Vec<Cell>>) -> Sheet {
    let mut rows = vec![
        vec![t("Module Inst Name"), if inst.is_empty() { Cell::Empty } else { t(inst) }],
        vec![t("Parameter:")],
    ];
    for (n, v) in params {
        rows.push(vec![Cell::Empty, t(n), v]);
    }
    rows.push(header(guards));
    rows.extend(ports);
    rows.push(vec![t("Assing-Logic")]);
    Sheet { name: name.to_string(), rows }
}

/// The sheet that a workbook would hold after the layout is written: an
/// empty text leaves its cell empty.
fn written(layout: &SheetLayout) -> Sheet {
    let mut rows: Vec<Vec<Cell>> = Vec::new();
    for cell in &layout.cells {
        let r = cell.row as usize;
        let c = cell.col as usize;
        while rows.len() <= r {
            rows.push(Vec::new());
        }
        while rows[r].len() <= c {
            rows[r].push(Cell::Empty);
        }
        rows[r][c] = match &cell.value {
            CellValue::Text(s) if s.is_empty() => Cell::Empty,
            CellValue::Text(s) => Cell::Text(s.clone()),
            CellValue::Number(n) => Cell::Number(*n),
        };
    }
    Sheet { name: layout.name.clone(), rows }
}

fn texts(layout: &SheetLayout) -> Vec<(u128, u16, String)> {
    layout
        .cells
        .iter()
        .map(|c| {
            let v = match &c.value {
                CellValue::Text(s) => s.clone(),
                CellValue::Number(n) => format!("#{}", n),
            };
            (c.row, c.col, v)
        })
        .collect()
}

fn normal(text: &str) -> Vec<String> {
    text.split_whitespace().map(|s| s.to_string()).collect()
}

#[test]
fn cells_split_into_names() {
    assert_eq!(ExcelReader::split("a, b[3:0],\n c\td"), vec!["a", "b[3:0]", "c", "d"]);
    assert_eq!(ExcelReader::split(" ,, "), Vec::<String>::new());
    assert_eq!(ExcelReader::split(""), Vec::<String>::new());
    assert_eq!(ExcelReader::split("one"), vec!["one"]);
    assert_eq!(ExcelReader::split("A, B, "), vec!["A", "B"]);
    let row = vec![t("x"), Cell::Number(3), Cell::Empty];
    assert_eq!(ExcelReader::extract_wires(&row, 0), vec!["x"]);
    assert!(ExcelReader::extract_wires(&row, 1).is_empty());
    assert!(ExcelReader::extract_wires(&row, 7).is_empty());
}

#[test]
fn cells_give_texts_numbers_and_directions() {
    let row = vec![t("input"), Cell::Number(12), t("34"), t("x4"), Cell::Empty];
    assert_eq!(ExcelReader::extract_string(&row, 0), Some("input".to_string()));
    assert_eq!(ExcelReader::extract_string(&row, 1), None);
    assert_eq!(ExcelReader::extract_string(&row, 9), None);
    assert_eq!(ExcelReader::extract_width(&row, 1), 12);
    assert_eq!(ExcelReader::extract_width(&row, 2), 34);
    assert_eq!(ExcelReader::extract_width(&row, 3), 0);
    assert_eq!(ExcelReader::extract_width(&row, 4), 0);
    assert_eq!(ExcelReader::extract_width(&row, 9), 0);
    assert_eq!(ExcelReader::extract_inout(&row, 0), PortDir::InPort);
    assert_eq!(ExcelReader::extract_inout(&row, 1), PortDir::Unknown);
    assert_eq!(ExcelReader::extract_inout(&row, 3), PortDir::Unknown);
    let params = vec![Param::new("W".to_string(), 8)];
    assert!(matches!(ExcelReader::extract_param(&row, 1, &params), ParamValue::Value(12)));
    assert!(matches!(ExcelReader::extract_param(&row, 4, &params), ParamValue::Value(0)));
    assert!(matches!(ExcelReader::extract_param(&row, 0, &params), ParamValue::Value(0)));
    let named = vec![t("W")];
    match ExcelReader::extract_param(&named, 0, &params) {
        ParamValue::Param(p) => assert_eq!(p.name, "W"),
        ParamValue::Value(_) => panic!("W is a parameter"),
    }
}

#[test]
fn identifiers_are_told_from_other_names() {
    let first_bad = |names: &[&str]| {
        ExcelReader::check_name_chars(&names.iter().map(|s| s.to_string()).collect())
    };
    assert_eq!(first_bad(&["clk", "_a9", "A_b_1"]), None);
    assert_eq!(first_bad(&["9a"]), Some("9a".to_string()));
    assert_eq!(first_bad(&["ok", "a-b", "9"]), Some("a-b".to_string()));
    assert_eq!(first_bad(&["a b"]), Some("a b".to_string()));
    assert_eq!(first_bad(&[""]), Some("".to_string()));
    assert_eq!(ExcelReader::check_name_chars(&vec!["a".to_string(), "b1".to_string()]), None);
    assert_eq!(
        ExcelReader::check_name_chars(&vec!["a".to_string(), "1b".to_string(), "-".to_string()]),
        Some("1b".to_string())
    );
}

#[test]
fn names_stand_for_slices_constants_and_signals() {
    assert!(matches!(
        ExcelReader::token("testwire2[3:0]"),
        WireToken::Slice { name, lo: 0, hi: 4 } if name == "testwire2"
    ));
    assert!(matches!(
        ExcelReader::token("a[7:4]"),
        WireToken::Slice { name, lo: 4, hi: 8 } if name == "a"
    ));
    assert!(matches!(ExcelReader::token("testwire1"), WireToken::Name(n) if n == "testwire1"));
    assert!(matches!(ExcelReader::token("3'b101"), WireToken::Number { width: 3, value: 5 }));
    assert!(matches!(ExcelReader::token("10'd34"), WireToken::Number { width: 10, value: 34 }));
    assert!(matches!(ExcelReader::token("8'ha9"), WireToken::Number { width: 8, value: 169 }));
    assert!(matches!(ExcelReader::token("6'o17"), WireToken::Number { width: 6, value: 15 }));
    assert!(matches!(ExcelReader::token("8'hzz"), WireToken::Bad));
    assert!(matches!(ExcelReader::token("300'd1"), WireToken::Bad));
    assert!(matches!(
        ExcelReader::token("a[99999999999999999999999:0]"),
        WireToken::Bad
    ));
    assert!(matches!(ExcelReader::token("123"), WireToken::Nothing));
    assert!(matches!(ExcelReader::token("--"), WireToken::Nothing));
}

#[test]
fn port_is_bound_to_the_names_of_its_cell() {
    let mut wires = WireBuilder::new();
    let mut port = VerilogPort::new(PortDir::InPort, "test_port", Width::RawWidth(32));
    let names: Vec<String> =
        ["testwire1", "testwire2[3:0]", "testwire3[1:0]", "3'b101", "10'd34", "8'ha9"]
            .iter()
            .map(|s| s.to_string())
            .collect();
    assert!(ExcelReader::match_wires_by_re(&mut port, &mut wires, &names).is_ok());
    assert_eq!(
        port.to_inst_string(false),
        vec![
            "    .test_port({testwire1, testwire2[3:0], testwire3[1:0], 3'd5, 10'd34, 8'd169}),"
                .to_string()
        ]
    );
    assert_eq!(port.has_undefine, 1);
    assert_eq!(wires.get_width("testwire2").unwrap(), 4);
    let mut bad = VerilogPort::new(PortDir::InPort, "p", Width::RawWidth(1));
    let names = vec!["a".to_string(), "4'b12".to_string(), "b".to_string()];
    assert!(matches!(
        ExcelReader::match_wires_by_re(&mut bad, &mut wires, &names),
        Err(SheetError::BadLiteral(t)) if t == "4'b12"
    ));
}

#[test]
fn empty_workbook_is_refused() {
    let mut wires = WireBuilder::new();
    let mut collector = UndefineWireCollector::new();
    let reader = ExcelReader::new("top.xlsx".to_string());
    assert!(matches!(
        reader.get_excel_info(&vec![], &mut wires, &mut collector),
        Err(SheetError::EmptyWorkbook)
    ));
    assert!(matches!(
        reader.generate_v(&vec![], &mut wires, &mut collector),
        Err(SheetError::EmptyWorkbook)
    ));
}

#[test]
fn illegal_names_are_refused() {
    let mut wires = WireBuilder::new();
    let mut collector = UndefineWireCollector::new();
    let reader = ExcelReader::new("top.xlsx".to_string());
    let bad_port = sheet("top", "", vec![], "", vec![port_row("9p", "input", 1, "", "", "")]);
    assert!(matches!(
        reader.get_excel_info(&vec![bad_port], &mut wires, &mut collector),
        Err(SheetError::IllegalIdentifier(n)) if n == "9p"
    ));
    let bad_param = sheet("top", "", vec![("W-1", Cell::Number(3))], "", vec![]);
    assert!(matches!(
        reader.get_excel_info(&vec![bad_param], &mut wires, &mut collector),
        Err(SheetError::IllegalIdentifier(n)) if n == "W-1"
    ));
    let good = sheet("top", "", vec![], "", vec![]);
    let bad_guard = sheet("u", "u0", vec![], "A, 1B", vec![]);
    assert!(matches!(
        reader.get_excel_info(&vec![good, bad_guard], &mut wires, &mut collector),
        Err(SheetError::IllegalIdentifier(n)) if n == "1B"
    ));
    let bad_literal =
        sheet("top", "", vec![], "", vec![port_row("p", "input", 1, "1'bx", "", "")]);
    assert!(matches!(
        reader.get_excel_info(&vec![bad_literal], &mut wires, &mut collector),
        Err(SheetError::BadLiteral(n)) if n == "1'bx"
    ));
}

fn uart_book() -> Vec<Sheet> {
    vec![
        sheet(
            "uart",
            "",
            vec![("W", Cell::Number(8))],
            "",
            vec![
                port_row("clk", "input", 1, "clk", "the clock", ""),
                port_row("txd", "output", 1, "txd", "", ""),
                port_row("din", "input", 8, "din", "", "WITH_DIN"),
            ],
        ),
        sheet(
            "uart_tx",
            "u_tx",
            vec![("WIDTH", t("W"))],
            "",
            vec![
                port_row("clk", "input", 1, "clk", "", ""),
                port_row("data", "input", 8, "din", "payload", ""),
                port_row("baud", "input", 4, "tick, 3'd0", "", ""),
                port_row("txd", "output", 1, "txd", "", ""),
            ],
        ),
        sheet(
            "baud_gen",
            "u_baud",
            vec![],
            "HAS_BAUD",
            vec![
                port_row("clk", "input", 1, "clk", "", ""),
                port_row("tick", "output", 1, "tick", "", ""),
            ],
        ),
    ]
}

#[test]
fn workbook_is_read_into_a_module() {
    let mut wires = WireBuilder::new();
    let mut collector = UndefineWireCollector::new();
    let reader = ExcelReader::new("uart.xlsx".to_string());
    let (module, report) = reader.get_excel_info(&uart_book(), &mut wires, &mut collector).unwrap();
    assert_eq!(module.module_name, "uart");
    assert_eq!(module.inst_name, None);
    assert_eq!(module.param_list.len(), 1);
    assert_eq!(module.param_list[0].get_value(), 8);
    assert_eq!(module.port_list.len(), 3);
    assert_eq!(module.port_list[0].get_raw().info, "the clock");
    assert_eq!(module.port_list[2].get_macro_name(), "WITH_DIN, ");
    assert!(module.port_list[0].get_raw().top);
    assert_eq!(
        report.top,
        vec![
            Some(PortHealth::Connected),
            Some(PortHealth::Connected),
            Some(PortHealth::Connected)
        ]
    );
    assert_eq!(module.inst_list.len(), 2);
    let tx = module.inst_list[0].get_raw();
    assert_eq!(tx.module_name, "uart_tx");
    assert_eq!(tx.inst_name, Some("u_tx".to_string()));
    assert_eq!(tx.param_list[0].name, "WIDTH");
    assert_eq!(tx.param_list[0].get_name(), "W");
    assert_eq!(tx.param_list[0].get_value(), 8);
    assert_eq!(tx.port_list[1].get_raw().get_signal_string(), "din[7:0]");
    assert_eq!(tx.port_list[1].get_raw().info, "payload");
    assert_eq!(tx.port_list[2].get_raw().get_signal_string(), "{tick, 3'd0}");
    assert!(matches!(tx.port_list[2].get_raw().signals[1], VerilogValue::Wire(..)));
    assert_eq!(module.inst_list[1].get_macro_name(), "HAS_BAUD, ");
    assert_eq!(
        report.instances,
        vec![
            vec![
                PortHealth::Connected,
                PortHealth::Connected,
                PortHealth::Connected,
                PortHealth::Connected
            ],
            vec![PortHealth::Connected, PortHealth::Connected]
        ]
    );
    let reports = wires.check_health();
    assert!(reports
        .iter()
        .all(|w| w.undriven.is_empty() && w.unloaded.is_empty() && w.multi_driven.is_empty()));
    let internal: Vec<String> =
        wires.traverse_unport_wires().iter().map(|w| w.name.clone()).collect();
    assert_eq!(internal, vec!["tick"]);
}

#[test]
fn workbook_is_rendered_as_a_module() {
    let mut wires = WireBuilder::new();
    let mut collector = UndefineWireCollector::new();
    let reader = ExcelReader::new("uart.xlsx".to_string());
    let (_, _, last, text) = reader.generate_v(&uart_book(), &mut wires, &mut collector).unwrap();
    assert_eq!(last.solved, None);
    let expected = "module uart (
    input wire clk,
    output wire txd,
`ifdef WITH_DIN
    input wire [7:0] din
`endif  // WITH_DIN
);

    wire          tick                ;


    uart_tx #(
        .WIDTH               (W         )
    ) u_tx (
        .clk(clk),
        .data(din[7:0]),
        .baud({tick, 3'd0}),
        .txd(txd)
    );


    `ifdef HAS_BAUD
    baud_gen u_baud (
        .clk(clk),
        .tick(tick)
    );
    `endif  // HAS_BAUD


endmodule";
    assert_eq!(normal(&text), normal(expected));
    assert_eq!(text.lines().next(), Some("module uart ("));
    assert!(text.ends_with("endmodule"));
}

#[test]
fn sheet_layout() {
    let mut wires = WireBuilder::new();
    let mut m = VerilogModule::new("core".to_string());
    m.fix_inst_name("u_core");
    m.add_param_list(vec![
        Param::new("W".to_string(), 8),
        Param::new_with_param("K".to_string(), ParamValue::Param(Param::new("W".to_string(), 8))),
    ]);
    let mut d = VerilogPort::new(PortDir::InPort, "d", Width::LiteralWidth("W".to_string(), 8));
    d.set_info_msg("data in");
    d.connect_partial_signal(&mut wires, "a", &(0..4));
    d.connect_number_signal(0, 4);
    let mut q = VerilogPort::new(PortDir::OutPort, "q", Width::RawWidth(1));
    q.connect_undefined_signal("q");
    m.add_ports(vec![d.wrap_macro_with(vec!["G1".to_string(), "G2".to_string()]), q.wrap_raw()]);
    let writer = ExcelWriter::new("core".to_string());
    let layout = writer.add_inst_sheet(&m.wrap_macro_with(vec!["M".to_string()]));
    assert_eq!(layout.name, "core");
    assert_eq!(layout.freeze_row, 5);
    assert_eq!(layout.row_heights, vec![(0, 18), (1, 20), (5, 16), (6, 16)]);
    assert_eq!(
        layout.column_widths,
        vec![(0, 30), (1, 10), (2, 10), (3, 30), (4, 40), (5, 20)]
    );
    let s = |r: u128, c: u16, v: &str| (r, c, v.to_string());
    assert_eq!(
        texts(&layout),
        vec![
            s(0, 0, "Module Inst Name"),
            s(0, 1, "u_core"),
            s(1, 0, "Parameter:"),
            s(2, 1, "W"),
            s(2, 2, "8"),
            s(3, 1, "K"),
            s(3, 2, "W"),
            s(4, 0, "Port-name"),
            s(4, 1, "InOut"),
            s(4, 2, "Width"),
            s(4, 3, "Wire-name"),
            s(4, 4, "Port-comment"),
            s(4, 5, "M, "),
            s(5, 0, "d"),
            s(5, 1, "input"),
            s(5, 2, "#8"),
            s(5, 3, "a[3:0], 4'd0"),
            s(5, 4, "data in"),
            s(5, 5, "G1, G2, "),
            s(6, 0, "q"),
            s(6, 1, "output"),
            s(6, 2, "#1"),
            s(6, 3, "q"),
            s(6, 4, ""),
            s(6, 5, ""),
            s(7, 0, "Assing-Logic"),
        ]
    );
    let styles: Vec<CellStyle> = layout.cells.iter().map(|c| c.style).collect();
    assert_eq!(styles[0], CellStyle::Bold);
    assert_eq!(styles[1], CellStyle::Plain);
    assert_eq!(styles[2], CellStyle::Bold);
    assert!(styles[7..13].iter().all(|s| *s == CellStyle::Header));
    // `d` is bound to two fragments, `q` to the one signal of its own name.
    assert_eq!(styles[16], CellStyle::Plain);
    assert_eq!(styles[22], CellStyle::Underline);
    assert_eq!(styles[25], CellStyle::Header);
}

#[test]
fn only_a_port_bound_to_its_own_name_is_underlined() {
    let mut wires = WireBuilder::new();
    let style_of = |p: VerilogPort| {
        let row = ExcelWriter::port_row(&p.wrap_raw(), 7, &Some("q".to_string()));
        (row[3].style, row[3].row)
    };
    let mut own = VerilogPort::new(PortDir::OutPort, "q", Width::RawWidth(4));
    own.connect_partial_signal(&mut wires, "q", &(0..4));
    let mut other = VerilogPort::new(PortDir::OutPort, "p", Width::RawWidth(4));
    other.connect_partial_signal(&mut wires, "q", &(0..4));
    let mut two = VerilogPort::new(PortDir::OutPort, "q", Width::RawWidth(4));
    two.connect_partial_signal(&mut wires, "q", &(0..2));
    two.connect_number_signal(0, 2);
    assert_eq!(style_of(own), (CellStyle::Underline, 7));
    assert_eq!(style_of(other), (CellStyle::Plain, 7));
    assert_eq!(style_of(two), (CellStyle::Plain, 7));
    let mut m = VerilogModule::new("m".to_string());
    let mut sliced = VerilogPort::new(PortDir::OutPort, "q", Width::RawWidth(4));
    sliced.connect_partial_signal(&mut wires, "q", &(0..4));
    let mut renamed = VerilogPort::new(PortDir::OutPort, "r", Width::RawWidth(4));
    renamed.connect_partial_signal(&mut wires, "q", &(0..4));
    let bare = VerilogPort::new(PortDir::OutPort, "s", Width::RawWidth(4));
    m.add_ports(vec![sliced.wrap_raw(), renamed.wrap_raw(), bare.wrap_raw()]);
    let layout = ExcelWriter::new("m".to_string()).add_inst_sheet(&m.wrap_raw());
    let signal_styles: Vec<CellStyle> =
        layout.cells.iter().filter(|c| c.col == 3 && c.row > 2).map(|c| c.style).collect();
    assert_eq!(signal_styles, vec![CellStyle::Underline, CellStyle::Plain, CellStyle::Plain]);
}

#[test]
fn entries_of_a_directory() {
    assert_eq!(ExcelWriter::classify_entry(true, ""), EntryKind::Directory);
    assert_eq!(ExcelWriter::classify_entry(true, "v"), EntryKind::Directory);
    assert_eq!(ExcelWriter::classify_entry(false, "v"), EntryKind::Source);
    assert_eq!(ExcelWriter::classify_entry(false, "sv"), EntryKind::Source);
    assert_eq!(ExcelWriter::classify_entry(false, "xlsx"), EntryKind::Workbook);
    assert_eq!(ExcelWriter::classify_entry(false, "txt"), EntryKind::Other);
    assert_eq!(ExcelWriter::classify_entry(false, ""), EntryKind::Other);
}

fn source_modules() -> Vec<VerilogModule> {
    let mut tx = VerilogModule::new("uart_tx".to_string());
    tx.add_port(PortDir::InPort, "clk", 1);
    tx.add_port(PortDir::InPort, "tick", 1);
    tx.add_port(PortDir::InPort, "din", 8);
    tx.add_port(PortDir::OutPort, "txd", 1);
    let mut baud = VerilogModule::new("baud_gen".to_string());
    baud.add_port(PortDir::InPort, "clk", 1);
    baud.add_port(PortDir::OutPort, "tick", 1);
    vec![tx, baud]
}

#[test]
fn sources_make_a_module_with_the_leftover_wires_as_ports() {
    let mut wires = WireBuilder::new();
    let mut collector = UndefineWireCollector::new();
    let writer = ExcelWriter::new("uart".to_string());
    let (module, health) =
        writer.get_module_from_v("uart", source_modules(), &mut wires, &mut collector);
    assert_eq!(health.len(), 2);
    assert!(health.iter().flatten().all(|h| *h == PortHealth::Connected));
    let m = module.get_raw();
    assert_eq!(m.module_name, "uart");
    assert_eq!(m.inst_list[0].get_raw().inst_name, Some("u_uart_tx".to_string()));
    assert_eq!(m.inst_list[1].get_raw().inst_name, Some("u_baud_gen".to_string()));
    assert_eq!(m.inst_list[0].get_raw().port_list[2].get_raw().get_signal_string(), "din[7:0]");
    let ports: Vec<(PortDir, String, usize)> = m
        .port_list
        .iter()
        .map(|p| (p.get_raw().inout, p.get_raw().name.clone(), p.get_raw().width.width()))
        .collect();
    assert_eq!(
        ports,
        vec![
            (PortDir::InPort, "clk".to_string(), 1),
            (PortDir::InPort, "din".to_string(), 8),
            (PortDir::OutPort, "txd".to_string(), 1),
        ]
    );
    let reports = wires.check_health();
    assert!(reports
        .iter()
        .all(|w| w.undriven.is_empty() && w.unloaded.is_empty() && w.multi_driven.is_empty()));
    // The wires that became ports of the module are marked as ports, though
    // the instances registered them first: only `tick` is left to declare.
    let internal: Vec<String> =
        wires.traverse_unport_wires().iter().map(|w| w.name.clone()).collect();
    assert_eq!(internal, vec!["tick"]);
    let text = m.to_module_string(&wires);
    let declared: Vec<&String> = text.iter().filter(|l| l.starts_with("    wire")).collect();
    assert_eq!(declared.len(), 1);
    assert!(declared[0].contains("tick"));
    assert!(text.iter().any(|l| l.starts_with("    input") && l.contains("clk")));
}

#[test]
fn sheet_to_module_to_sheet_is_a_fixed_point() {
    let mut wires = WireBuilder::new();
    let mut collector = UndefineWireCollector::new();
    let writer = ExcelWriter::new("uart".to_string());
    let reader = ExcelReader::new("uart.xlsx".to_string());
    let first = writer.generate("uart", source_modules(), &mut wires, &mut collector);
    let sheets: Vec<Sheet> = first.layouts.iter().map(written).collect();
    let (module, _, _, _) = reader.generate_v(&sheets, &mut wires, &mut collector).unwrap();
    let second = writer.write_excel(&module.wrap_raw());
    assert_eq!(first.layouts.len(), 3);
    assert_eq!(second.len(), 3);
    for (a, b) in first.layouts.iter().zip(second.iter()) {
        assert_eq!(a.name, b.name);
        assert_eq!(texts(a), texts(b));
        assert_eq!(a.row_heights, b.row_heights);
        assert_eq!(a.freeze_row, b.freeze_row);
    }
    let again: Vec<Sheet> = second.iter().map(written).collect();
    let (module, _, _, _) = reader.generate_v(&again, &mut wires, &mut collector).unwrap();
    let third = writer.write_excel(&module.wrap_raw());
    for (a, b) in second.iter().zip(third.iter()) {
        assert_eq!(texts(a), texts(b));
    }
}

#[test]
fn source_to_sheet_to_source_gives_the_same_text() {
    let mut wires = WireBuilder::new();
    let mut collector = UndefineWireCollector::new();
    let writer = ExcelWriter::new("uart".to_string());
    let reader = ExcelReader::new("uart.xlsx".to_string());
    let first = writer.generate("uart", source_modules(), &mut wires, &mut collector);
    let sheets: Vec<Sheet> = first.layouts.iter().map(written).collect();
    let (_, _, _, text1) = reader.generate_v(&sheets, &mut wires, &mut collector).unwrap();
    // The emitted module is a source of its own: a workbook made from it and
    // read back gives the same text again.
    let mut wires2 = WireBuilder::new();
    let mut collector2 = UndefineWireCollector::new();
    let (module, _) = reader.get_excel_info(&sheets, &mut wires2, &mut collector2).unwrap();
    let layouts = writer.write_excel(&module.wrap_raw());
    let sheets2: Vec<Sheet> = layouts.iter().map(written).collect();
    let (_, _, _, text2) = reader.generate_v(&sheets2, &mut wires2, &mut collector2).unwrap();
    assert_eq!(normal(&text1), normal(&text2));
    assert!(text1.contains(".din(din[7:0])"));
    assert!(text1.contains("input wire [7:0] din"));
    assert!(text1.contains("wire          tick"));
}

#[test]
fn workbook_is_brought_up_to_date() {
    let mut wires = WireBuilder::new();
    let mut collector = UndefineWireCollector::new();
    let writer = ExcelWriter::new("uart".to_string());
    // The workbook knows `uart_tx` with an old port and a gone instance.
    let book = vec![
        sheet(
            "uart",
            "",
            vec![],
            "",
            vec![
                port_row("clk", "input", 1, "clk", "the clock", ""),
                port_row("gone", "input", 2, "gone", "", ""),
                port_row("txd", "output", 1, "txd", "", "TXD_GUARD"),
            ],
        ),
        sheet(
            "uart_tx",
            "tx0",
            vec![],
            "TX",
            vec![
                port_row("clk", "input", 1, "clk", "", ""),
                port_row("din", "input", 8, "payload[7:0]", "kept", ""),
                port_row("old", "input", 1, "x", "", ""),
                port_row("txd", "output", 1, "txd", "", ""),
            ],
        ),
        sheet("removed", "u_removed", vec![], "", vec![]),
    ];
    let outcome = writer
        .generate_or_update("uart", source_modules(), Some(&book), &mut wires, &mut collector)
        .unwrap();
    let report = outcome.update.as_ref().unwrap();
    assert_eq!(report.dropped_instances, vec!["removed"]);
    let m = outcome.module.get_raw();
    assert_eq!(m.module_name, "uart");
    let names: Vec<String> = m.inst_list.iter().map(|i| i.get_raw().module_name.clone()).collect();
    assert_eq!(names, vec!["uart_tx", "baud_gen"]);
    let tx = &m.inst_list[0];
    assert_eq!(tx.get_macro_name(), "TX, ");
    assert_eq!(tx.get_raw().inst_name, Some("tx0".to_string()));
    let tx_ports: Vec<(String, String)> = tx
        .get_raw()
        .port_list
        .iter()
        .map(|p| (p.get_raw().name.clone(), p.get_raw().get_signal_string()))
        .collect();
    assert_eq!(
        tx_ports,
        vec![
            ("clk".to_string(), "clk".to_string()),
            ("din".to_string(), "payload[7:0]".to_string()),
            ("txd".to_string(), "txd".to_string()),
            ("tick".to_string(), "".to_string()),
        ]
    );
    assert_eq!(tx.get_raw().port_list[1].get_raw().info, "kept");
    let baud_ports: Vec<String> = m.inst_list[1]
        .get_raw()
        .port_list
        .iter()
        .map(|p| p.get_raw().get_signal_string())
        .collect();
    assert_eq!(baud_ports, vec!["clk", "tick"]);
    let top: Vec<(PortDir, String, usize, String)> = m
        .port_list
        .iter()
        .map(|p| {
            (
                p.get_raw().inout,
                p.get_raw().name.clone(),
                p.get_raw().width.width(),
                p.get_macro_name(),
            )
        })
        .collect();
    assert_eq!(
        top,
        vec![
            (PortDir::InPort, "clk".to_string(), 1, "".to_string()),
            (PortDir::OutPort, "txd".to_string(), 1, "TXD_GUARD, ".to_string()),
            (PortDir::InPort, "payload".to_string(), 8, "".to_string()),
            (PortDir::OutPort, "tick".to_string(), 1, "".to_string()),
        ]
    );
    assert_eq!(m.port_list[0].get_raw().info, "the clock");
    assert_eq!(outcome.layouts.len(), 3);
    assert_eq!(outcome.layouts[1].name, "uart_tx");
    let made = writer
        .generate_or_update("uart", source_modules(), None, &mut wires, &mut collector)
        .unwrap();
    assert!(made.update.is_none());
    assert_eq!(made.layouts.len(), 3);
    let bad = vec![sheet("uart", "", vec![], "", vec![port_row("0", "input", 1, "", "", "")])];
    assert!(matches!(
        writer.generate_or_update("uart", source_modules(), Some(&bad), &mut wires, &mut collector),
        Err(SheetError::IllegalIdentifier(n)) if n == "0"
    ));
}

#[test]
fn guarded_instance_of_the_workbook_keeps_its_guard() {
    let mut wires = WireBuilder::new();
    let mut collector = UndefineWireCollector::new();
    let reader = ExcelReader::new("x.xlsx".to_string());
    let book = vec![
        sheet("top", "", vec![], "", vec![]),
        sheet(
            "u",
            "u0",
            vec![],
            "EN_X",
            vec![port_row("p", "input", 1, "sig", "", "EN_P")],
        ),
    ];
    let (module, _) = reader.get_excel_info(&book, &mut wires, &mut collector).unwrap();
    let inst: &VerilogData<VerilogModule> = &module.inst_list[0];
    assert_eq!(
        inst.to_inst_string(),
        vec![
            "`ifdef EN_X".to_string(),
            "u u0 (".to_string(),
            "`ifdef EN_P".to_string(),
            "    .p(sig)".to_string(),
            "`endif  // EN_P".to_string(),
            ");".to_string(),
            "`endif  // EN_X".to_string(),
        ]
    );
}

#[test]
fn widths_left_open_in_a_workbook_are_solved() {
    let mut wires = WireBuilder::new();
    let mut collector = UndefineWireCollector::new();
    let reader = ExcelReader::new("top.xlsx".to_string());
    let book = vec![
        sheet("top", "", vec![], "", vec![]),
        sheet(
            "a",
            "u_a",
            vec![],
            "",
            vec![
                port_row("pa", "output", 10, "x, y", "", ""),
                port_row("pb", "output", 7, "y, z, 2'd0", "", ""),
            ],
        ),
        sheet(
            "b",
            "u_b",
            vec![],
            "",
            vec![port_row("q", "input", 9, "z, x", "", ""), port_row("r", "input", 6, "y", "", "")],
        ),
    ];
    let (module, read, last, text) =
        reader.generate_v(&book, &mut wires, &mut collector).unwrap();
    assert_eq!(
        read.instances,
        vec![
            vec![PortHealth::Deferred, PortHealth::Deferred],
            vec![PortHealth::Deferred, PortHealth::Connected]
        ]
    );
    assert_eq!(last.solved, Some(true));
    assert_eq!(collector.wires, vec!["x", "y", "z"]);
    assert_eq!(collector.res, vec![7, 3, 2]);
    assert_eq!(
        last.instances,
        vec![
            vec![PortHealth::Connected, PortHealth::Connected],
            vec![PortHealth::Connected, PortHealth::Connected]
        ]
    );
    assert!(last.ports.is_empty());
    let a = module.inst_list[0].get_raw();
    assert_eq!(a.port_list[0].get_raw().get_signal_string(), "{x[6:0], y[2:0]}");
    assert_eq!(a.port_list[1].get_raw().get_signal_string(), "{y[2:0], z[1:0], 2'd0}");
    let b = module.inst_list[1].get_raw();
    assert_eq!(b.port_list[0].get_raw().get_signal_string(), "{z[1:0], x[6:0]}");
    assert_eq!(b.port_list[1].get_raw().get_signal_string(), "y[5:0]");
    let y = last.wires.iter().find(|w| w.name == "y").unwrap();
    assert_eq!(y.undriven, vec![3, 4, 5]);
    assert_eq!(y.multi_driven, vec![0, 1, 2]);
    assert!(text.contains("    wire [6   :0] x                   ;"));
    assert!(text.contains("    wire [5   :0] y                   ;"));
    assert!(text.contains("    wire [1   :0] z                   ;"));
    assert!(text.contains("        .pa({x[6:0], y[2:0]}),"));
}

#[test]
fn unsolvable_workbook_still_gives_its_module() {
    let mut wires = WireBuilder::new();
    let mut collector = UndefineWireCollector::new();
    let reader = ExcelReader::new("top.xlsx".to_string());
    let book = vec![
        sheet("top", "", vec![], "", vec![]),
        sheet(
            "u",
            "u0",
            vec![],
            "",
            vec![
                port_row("pa", "input", 10, "x, y", "", ""),
                port_row("pb", "input", 6, "x, y, y", "", ""),
            ],
        ),
    ];
    let (module, _, last, text) = reader.generate_v(&book, &mut wires, &mut collector).unwrap();
    assert_eq!(last.solved, Some(false));
    assert_eq!(last.instances, vec![vec![PortHealth::Deferred, PortHealth::Deferred]]);
    let u = module.inst_list[0].get_raw();
    assert_eq!(u.port_list[0].get_raw().get_signal_string(), "{x, y}");
    assert_eq!(u.port_list[1].get_raw().get_signal_string(), "{x, y, y}");
    assert!(last.wires.is_empty());
    assert!(text.contains(".pb({x, y, y})"));
}

#[test]
fn rows_outside_the_layout_are_passed_over() {
    let mut wires = WireBuilder::new();
    let mut collector = UndefineWireCollector::new();
    let reader = ExcelReader::new("top.xlsx".to_string());
    let rows = vec![
        vec![t("Module Inst Name"), Cell::Number(3)],
        vec![t("Parameter:"), t("ignored"), t("too")],
        vec![Cell::Empty, t("A"), t("12")],
        vec![t("a note"), t("B"), Cell::Number(1)],
        vec![Cell::Empty, Cell::Empty, Cell::Number(9)],
        vec![],
        header(""),
        vec![Cell::Empty, t("input"), Cell::Number(4)],
        port_row("first", "input", 4, "", "", ""),
        vec![t("second")],
        vec![t("Assing-Logic")],
        port_row("after", "input", 1, "", "", ""),
        vec![t("9 not a name")],
    ];
    let book = vec![Sheet { name: "top".to_string(), rows }];
    let (module, _) = reader.get_excel_info(&book, &mut wires, &mut collector).unwrap();
    assert_eq!(module.inst_name, None);
    let params: Vec<(String, usize)> =
        module.param_list.iter().map(|p| (p.name.clone(), p.get_value())).collect();
    assert_eq!(params, vec![("A".to_string(), 12)]);
    let ports: Vec<(String, PortDir, usize)> = module
        .port_list
        .iter()
        .map(|p| (p.get_raw().name.clone(), p.get_raw().inout, p.get_raw().width.width()))
        .collect();
    assert_eq!(
        ports,
        vec![
            ("first".to_string(), PortDir::InPort, 4),
            ("second".to_string(), PortDir::Unknown, 0)
        ]
    );
}

#[test]
fn port_of_the_module_bound_to_a_concatenation_is_assigned() {
    let mut wires = WireBuilder::new();
    let mut collector = UndefineWireCollector::new();
    let reader = ExcelReader::new("top.xlsx".to_string());
    let book = vec![
        sheet(
            "top",
            "",
            vec![],
            "",
            vec![port_row("bus", "output", 8, "hi[3:0], lo[3:0]", "", "")],
        ),
        sheet(
            "u",
            "u0",
            vec![],
            "",
            vec![
                port_row("h", "output", 4, "hi[3:0]", "", ""),
                port_row("l", "output", 4, "lo[3:0]", "", ""),
            ],
        ),
    ];
    let (_, _, last, text) = reader.generate_v(&book, &mut wires, &mut collector).unwrap();
    assert!(last
        .wires
        .iter()
        .all(|w| w.undriven.is_empty() && w.unloaded.is_empty() && w.multi_driven.is_empty()));
    assert!(text.contains("    output wire [7:0] bus\n"));
    assert!(text.contains("    assign bus = {hi[3:0], lo[3:0]};"));
}

#[test]
fn what_a_cell_lists_is_read_back_name_by_name() {
    let port = VerilogPort::new(PortDir::InPort, "d", Width::RawWidth(8));
    let guarded = port.wrap_macro_with(vec!["SYNTH".to_string(), "FAST_2".to_string()]);
    let cell = guarded.get_macro_name();
    assert_eq!(cell, "SYNTH, FAST_2, ");
    assert_eq!(ExcelReader::split(&cell), guarded.guard_names());
    let names = vec!["hi[7:4]".to_string(), "mid".to_string(), "2'd0".to_string()];
    assert_eq!(ExcelReader::split(&names.join(", ")), names);
    assert!(ExcelReader::split("").is_empty());
    for dir in [PortDir::InPort, PortDir::OutPort, PortDir::InOutPort, PortDir::Unknown] {
        assert_eq!(PortDir::from_keyword(&dir.to_string()), dir);
    }
}

#[test]
fn written_port_row_is_read_back_as_the_port() {
    let mut wires = WireBuilder::new();
    let mut collector = UndefineWireCollector::new();
    let mut bus = VerilogPort::new(PortDir::OutPort, "bus", Width::RawWidth(9));
    bus.connect_partial_signal(&mut wires, "hi", &(0..4));
    bus.connect_undefined_signal("mid");
    bus.connect_number_signal(0, 2);
    bus.connect_partial_signal(&mut wires, "bit", &(0..1));
    bus.set_info_msg("the bus");
    let mut module = VerilogModule::new("m".to_string());
    module.fix_inst_name("u_m");
    module.add_port_inst(bus.wrap_macro_with(vec!["SYNTH".to_string()]));
    let writer = ExcelWriter::new("m".to_string());
    let layout = writer.add_inst_sheet(&module.wrap_raw());
    let shown = written(&layout);
    let top = Sheet { name: "top".to_string(), rows: vec![] };
    let reader = ExcelReader::new("m.xlsx".to_string());
    wires.clear();
    let (read, _) =
        reader.get_excel_info(&vec![top, shown], &mut wires, &mut collector).unwrap();
    let inst = read.inst_list[0].get_raw();
    assert_eq!(inst.inst_name, Some("u_m".to_string()));
    assert_eq!(inst.port_list.len(), 1);
    let back = &inst.port_list[0];
    assert_eq!(back.guard_names(), vec!["SYNTH".to_string()]);
    let port = back.get_raw();
    assert_eq!(port.name, "bus");
    assert_eq!(port.inout, PortDir::OutPort);
    assert_eq!(port.width.width(), 9);
    assert_eq!(port.info, "the bus");
    assert_eq!(port.signals.len(), 5);
    assert!(matches!(&port.signals[1], VerilogValue::Wire(w, r) if w.name == "hi" && *r == (0..4)));
    assert!(matches!(&port.signals[3], VerilogValue::Number { width: 2, value: 0 }));
    // The slice that is bit 0 alone was written as its bare name, and so is
    // a signal without a width when it is read; with `mid` that makes two.
    assert!(matches!(&port.signals[2], VerilogValue::UndefinedWire(s) if s == "mid"));
    assert!(matches!(&port.signals[4], VerilogValue::UndefinedWire(s) if s == "bit"));
    assert_eq!(port.has_undefine, 2);
}
