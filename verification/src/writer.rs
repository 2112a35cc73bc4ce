//! Writing a workbook: the cells of the sheet of a module, and the module
//! that a set of parsed sources makes.
use crate::collector::UndefineWireCollector;
use crate::data::guard_list;
use crate::data::VerilogData;
use crate::module::defaulted;
use crate::module::port_models;
use crate::module::ports_wf;
use crate::module::registered_each;
use crate::module::VerilogModule;
use crate::parameter::Param;
use crate::pattern::find;
use crate::pattern::found_view;
use crate::pattern::regex_found;
use crate::pattern::regex_matches;
use crate::port::rebound;
use crate::port::role_of;
use crate::port::lemma_direction_read_back;
use crate::port::signal_text;
use crate::port::undefined_count;
use crate::port::world;
use crate::port::Fragment;
use crate::port::PortDir;
use crate::port::PortHealth;
use crate::port::PortModel;
use crate::port::VerilogPort;
use crate::port::World;
use crate::reader::blank_sheet;
use crate::reader::cell_text;
use crate::reader::as_read;
use crate::reader::class_of;
use crate::reader::connected_all;
use crate::reader::first_illegal;
use crate::reader::identifier_pattern;
use crate::reader::lemma_guards_read_back;
use crate::reader::lemma_fragments_read_back;
use crate::reader::lemma_names_read_back;
use crate::reader::name_pattern;
use crate::reader::plain_name;
use crate::reader::read_fragments;
use crate::reader::row_param;
use crate::reader::row_read;
use crate::reader::rows_read;
use crate::reader::sheet_port;
use crate::reader::split_names;
use crate::reader::token_class;
use crate::reader::Cell;
use crate::reader::ParamFacts;
use crate::reader::PortEntry;
use crate::reader::SheetIssue;
use crate::reader::SheetModel;
use crate::text::free_of;
use crate::text::join_spec;
use crate::text::lemma_join_free;
use crate::text::lemma_replace_absent;
use crate::text::lemma_replace_first;
use crate::text::lemma_replace_last;
use crate::text::replace;
use crate::text::replace_all;
use crate::width::Width;
use crate::wire::sorted_names;
use crate::wire::unbalanced;
use crate::wire::wanted;
use crate::wire::WireBuilder;
use crate::wire::WireState;
use vstd::prelude::*;

verus! {

/// How a cell is set.
#[derive(Debug, Clone, Copy, PartialEq, Eq, Structural)]
pub enum CellStyle {
    Plain,
    /// Bold and centred.
    Bold,
    /// The style of the title row: bold, large, centred, on grey, between
    /// two lines.
    Header,
    /// Underlined: the port is bound to a signal of its own name.
    Underline,
}

/// What is written into a cell.
#[derive(Debug)]
pub enum CellValue {
    Text(String),
    Number(usize),
}

/// A cell to write.
#[derive(Debug)]
pub struct SheetCell {
    pub row: u128,
    pub col: u16,
    pub value: CellValue,
    pub style: CellStyle,
}

/// A `SheetCell` as plain values.
pub struct CellFacts {
    pub row: int,
    pub col: int,
    pub text: Option<Seq<char>>,
    pub number: Option<usize>,
    pub style: CellStyle,
}

impl View for SheetCell {
    type V = CellFacts;

    open spec fn view(&self) -> CellFacts {
        CellFacts {
            row: self.row as int,
            col: self.col as int,
            text: match self.value {
                CellValue::Text(s) => Some(s@),
                CellValue::Number(_) => None,
            },
            number: match self.value {
                CellValue::Text(_) => None,
                CellValue::Number(n) => Some(n),
            },
            style: self.style,
        }
    }
}

/// The cells as plain values.
pub open spec fn cell_views(cells: Seq<SheetCell>) -> Seq<CellFacts> {
    Seq::new(cells.len(), |i: int| cells[i]@)
}

/// A cell of text.
pub open spec fn text_at(row: int, col: int, text: Seq<char>, style: CellStyle) -> CellFacts {
    CellFacts { row, col, text: Some(text), number: None, style }
}

/// The sheet of one module: its name, its cells in the order in which
/// they are written, the heights of rows, the widths of columns, and the
/// row above which the panes are frozen.
#[derive(Debug)]
pub struct SheetLayout {
    pub name: String,
    pub cells: Vec<SheetCell>,
    pub row_heights: Vec<(u128, u32)>,
    pub column_widths: Vec<(u16, u32)>,
    pub freeze_row: u128,
}

/// The title of column `c`; the last column is titled with the guards of
/// the module.
pub open spec fn title(c: int, guards: Seq<char>) -> Seq<char> {
    if c == 0 {
        "Port-name"@
    } else if c == 1 {
        "InOut"@
    } else if c == 2 {
        "Width"@
    } else if c == 3 {
        "Wire-name"@
    } else if c == 4 {
        "Port-comment"@
    } else {
        guards
    }
}

/// The width of column `c`.
pub open spec fn column_width(c: int) -> u32 {
    if c == 0 {
        30
    } else if c == 1 {
        10
    } else if c == 2 {
        10
    } else if c == 3 {
        30
    } else if c == 4 {
        40
    } else {
        20
    }
}

/// The signals of a port as the sheet shows them: without braces.
pub open spec fn shown_signals(frags: Seq<Fragment>) -> Seq<char> {
    replace_all(replace_all(signal_text(frags), "{"@, ""@), "}"@, ""@)
}

/// How the fragments after the placeholder are written, one by one.
pub open spec fn fragment_texts(frags: Seq<Fragment>) -> Seq<Seq<char>> {
    Seq::new((frags.len() - 1) as nat, |i: int| frags[i + 1].text())
}

/// The signals that a sheet shows are read back, name by name, as the
/// fragments are written: where the text of each fragment is not empty
/// and holds no comma, no white space and no brace.
pub proof fn lemma_signals_read_back(frags: Seq<Fragment>)
    requires
        frags.len() >= 1,
        forall|i: int|
            1 <= i < frags.len() ==> {
                &&& plain_name((#[trigger] frags[i]).text())
                &&& free_of(frags[i].text(), '{')
                &&& free_of(frags[i].text(), '}')
            },
    ensures
        split_names(shown_signals(frags)) == fragment_texts(frags),
{
    reveal_strlit("{");
    reveal_strlit("}");
    reveal_strlit("");
    reveal_strlit(", ");
    let open = seq!['{'];
    let close = seq!['}'];
    let none = Seq::<char>::empty();
    assert("{"@ =~= open);
    assert("}"@ =~= close);
    assert(""@ =~= none);
    let texts = fragment_texts(frags);
    assert forall|i: int| 0 <= i < texts.len() implies plain_name(#[trigger] texts[i])
        && free_of(texts[i], '{') && free_of(texts[i], '}') by {
        assert(texts[i] == frags[i + 1].text());
    }
    lemma_names_read_back(texts);
    let joined = join_spec(texts, ", "@);
    assert(free_of(", "@, '{') && free_of(", "@, '}'));
    lemma_join_free(texts, ", "@, '{');
    lemma_join_free(texts, ", "@, '}');
    if frags.len() <= 1 {
        assert(free_of(none, '{') && free_of(none, '}'));
        lemma_replace_absent(none, '{');
        lemma_replace_absent(none, '}');
    } else if frags.len() == 2 {
        assert(joined == texts[0]);
        lemma_replace_absent(joined, '{');
        lemma_replace_absent(joined, '}');
    } else {
        let tail = joined + close;
        assert(free_of(tail, '{'));
        assert(signal_text(frags) =~= open + tail);
        lemma_replace_first(tail, '{');
        lemma_replace_last(joined, '}');
    }
}

/// The signals that a sheet shows for a port bind a new port, when they
/// are read, to the fragments that were shown, as a sheet gives them
/// back, and register their slices: where the text of each fragment is
/// not empty, holds no comma, no white space and no brace, and the
/// patterns read it as what the fragment comes back as.
pub proof fn lemma_port_signals_read_back(
    shown: Seq<Fragment>,
    dir: PortDir,
    top: bool,
    name: Seq<char>,
    width: usize,
    wires: Map<Seq<char>, WireState>,
)
    requires
        undefined_count(read_fragments(shown)) <= usize::MAX,
        forall|i: int|
            0 <= i < shown.len() ==> {
                &&& !(#[trigger] shown[i] is NONE)
                &&& plain_name(shown[i].text())
                &&& free_of(shown[i].text(), '{')
                &&& free_of(shown[i].text(), '}')
                &&& token_class(shown[i].text()) == class_of(as_read(shown[i]))
            },
    ensures
        connected_all(
            sheet_port(dir, top, name, width),
            wires,
            split_names(shown_signals(seq![Fragment::NONE] + shown)),
        ) == Ok::<(PortModel, Map<Seq<char>, WireState>), Seq<char>>(
            (
                PortModel {
                    frags: seq![Fragment::NONE] + read_fragments(shown),
                    pending: undefined_count(read_fragments(shown)) as usize,
                    ..sheet_port(dir, top, name, width)
                },
                rebound(wires, role_of(dir, top), read_fragments(shown)),
            ),
        ),
{
    let frags = seq![Fragment::NONE] + shown;
    assert forall|i: int| 1 <= i < frags.len() implies {
        &&& plain_name((#[trigger] frags[i]).text())
        &&& free_of(frags[i].text(), '{')
        &&& free_of(frags[i].text(), '}')
    } by {
        assert(frags[i] == shown[i - 1]);
    }
    lemma_signals_read_back(frags);
    let texts = fragment_texts(frags);
    let back = read_fragments(shown);
    assert forall|i: int| 0 <= i < back.len() implies !(#[trigger] back[i] is NONE)
        && token_class(texts[i]) == class_of(back[i]) by {
        assert(frags[i + 1] == shown[i]);
        assert(!(shown[i] is NONE));
    }
    lemma_fragments_read_back(sheet_port(dir, top, name, width), wires, texts, back);
}

/// The cells of the three rows above the parameters.
pub open spec fn head_cells(m: VerilogModule) -> Seq<CellFacts> {
    seq![
        text_at(0, 0, "Module Inst Name"@, CellStyle::Bold),
        text_at(
            0,
            1,
            match m.inst_name {
                Some(s) => s@,
                None => ""@,
            },
            CellStyle::Plain,
        ),
        text_at(1, 0, "Parameter:"@, CellStyle::Bold),
    ]
}

/// The two cells of parameter `i`: its name and how its binding is
/// written.
pub open spec fn param_cells(params: Seq<Param>, i: int) -> Seq<CellFacts> {
    seq![
        text_at(2 + i, 1, params[i].name@, CellStyle::Plain),
        text_at(2 + i, 2, params[i].spec_shown(), CellStyle::Plain),
    ]
}

/// The cells of the title row, which is row `row`.
pub open spec fn title_cells(row: int, guards: Seq<char>) -> Seq<CellFacts> {
    Seq::new(6, |c: int| text_at(row, c, title(c, guards), CellStyle::Header))
}

/// The six cells of a port in row `row`: name, direction, number of
/// bits, signals, comment and guards. The signals are underlined where
/// the port is bound to one signal and `found`, the first name among
/// them, is the name of the port.
pub open spec fn port_cells(p: VerilogData<VerilogPort>, row: int, found: Option<Seq<char>>)
    -> Seq<CellFacts> {
    let port = p.raw();
    seq![
        text_at(row, 0, port.name@, CellStyle::Plain),
        text_at(row, 1, port.inout.keyword(), CellStyle::Plain),
        CellFacts {
            row,
            col: 2,
            text: None,
            number: Some(port.width.value()),
            style: CellStyle::Plain,
        },
        text_at(
            row,
            3,
            shown_signals(port.fragments()),
            if port.fragments().len() == 2 && (match found {
                Some(n) => n,
                None => ""@,
            }) == port.name@ {
                CellStyle::Underline
            } else {
                CellStyle::Plain
            },
        ),
        text_at(row, 4, port.info@, CellStyle::Plain),
        text_at(row, 5, guard_list(p.guards()), CellStyle::Plain),
    ]
}

/// The placeholder is no signal without a width.
proof fn lemma_count_after_placeholder(shown: Seq<Fragment>)
    ensures
        undefined_count(seq![Fragment::NONE] + shown) == undefined_count(shown),
    decreases shown.len(),
{
    let all = seq![Fragment::NONE] + shown;
    if shown.len() == 0 {
        assert(all.drop_last() =~= Seq::<Fragment>::empty());
        assert(undefined_count(all.drop_last()) == 0);
    } else {
        lemma_count_after_placeholder(shown.drop_last());
        assert(all.drop_last() =~= seq![Fragment::NONE] + shown.drop_last());
        assert(all.last() == shown.last());
    }
}

/// The row holds what the cells of the port `p` hold: its name, the
/// keyword of its direction, its number of bits, its signals, its comment
/// and its guards.
pub open spec fn shows_port(row: Seq<Cell>, p: VerilogData<VerilogPort>) -> bool {
    let cells = port_cells(p, 0, None);
    &&& row.len() == 6
    &&& forall|c: int| 0 <= c < 6 && c != 2 ==> cell_text(row, c) == (#[trigger] cells[c]).text
    &&& row[2] is Number
    &&& Some(row[2]->Number_0) == cells[2].number
}

/// The port is read as it is written: its name is read as an identifier
/// and does not end the ports, each guard is a name that a cell can hold
/// among others, and the text of each fragment is such a name without
/// braces that the patterns read as what the fragment comes back as.
pub open spec fn reads_as_written(p: VerilogData<VerilogPort>) -> bool {
    &&& p.raw().wf()
    &&& p.raw().fragments().len() <= usize::MAX
    &&& p.raw().name@ != "Assing-Logic"@
    &&& regex_matches(identifier_pattern(), p.raw().name@)
    &&& forall|i: int| 0 <= i < p.guards().len() ==> plain_name(#[trigger] p.guards()[i])
    &&& forall|i: int|
        1 <= i < p.raw().fragments().len() ==> {
            let f = #[trigger] p.raw().fragments()[i];
            &&& !(f is NONE)
            &&& plain_name(f.text())
            &&& free_of(f.text(), '{')
            &&& free_of(f.text(), '}')
            &&& token_class(f.text()) == class_of(as_read(f))
        }
}

/// The port `p` as a sheet gives it back: not yet checked, of the
/// enclosing module if `top`, with its direction, name and number of
/// bits, its fragments as a sheet gives them back, its comment and its
/// guards.
pub open spec fn read_back(p: VerilogData<VerilogPort>, top: bool) -> PortEntry {
    let frags = read_fragments(p.raw().fragments());
    PortEntry {
        port: PortModel {
            top,
            frags,
            pending: undefined_count(frags) as usize,
            slots: Seq::empty(),
            checked: false,
            registered: false,
            ..p.raw()@
        },
        guards: p.guards(),
        info: p.raw().info@,
    }
}

/// What reading the rows of `ports` makes of what has been read: each
/// port is given back, and the slices among its fragments are registered.
pub open spec fn ports_read(m: SheetModel, ports: Seq<VerilogData<VerilogPort>>, top: bool)
    -> SheetModel
    decreases ports.len(),
{
    if ports.len() == 0 {
        m
    } else {
        let before = ports_read(m, ports.drop_last(), top);
        let p = ports.last();
        SheetModel {
            ports: before.ports.push(read_back(p, top)),
            wires: rebound(
                before.wires,
                role_of(p.raw().inout, top),
                read_fragments(p.raw().fragments().skip(1)),
            ),
            ..before
        }
    }
}

/// A row that holds the cells of a port reads back as that port, and the
/// slices among its fragments are registered, where the port is read as
/// it is written.
pub proof fn lemma_port_row_read_back(
    p: VerilogData<VerilogPort>,
    m: SheetModel,
    idx: int,
    row: Seq<Cell>,
    top: bool,
    outer: Seq<ParamFacts>,
)
    requires
        idx >= 2,
        m.started,
        !m.finished,
        shows_port(row, p),
        reads_as_written(p),
    ensures
        row_read(m, idx, row, top, outer) == Ok::<SheetModel, SheetIssue>(
            ports_read(m, seq![p], top),
        ),
{
    let port = p.raw();
    let frags = port.fragments();
    let shown = frags.skip(1);
    let cells = port_cells(p, 0, None);
    assert(frags[0] == port.signals@[0]@);
    assert(frags =~= seq![Fragment::NONE] + shown);
    assert(cell_text(row, 0) == cells[0].text);
    assert(cell_text(row, 1) == cells[1].text);
    assert(cell_text(row, 3) == cells[3].text);
    assert(cell_text(row, 4) == cells[4].text);
    assert(cell_text(row, 5) == cells[5].text);
    lemma_direction_read_back(port.inout);
    lemma_guards_read_back(p.guards());
    assert forall|i: int| 0 <= i < shown.len() implies {
        &&& !(#[trigger] shown[i] is NONE)
        &&& plain_name(shown[i].text())
        &&& free_of(shown[i].text(), '{')
        &&& free_of(shown[i].text(), '}')
        &&& token_class(shown[i].text()) == class_of(as_read(shown[i]))
    } by {
        assert(shown[i] == frags[i + 1]);
    }
    let back = read_fragments(shown);
    assert(read_fragments(frags) =~= seq![Fragment::NONE] + back);
    lemma_count_after_placeholder(back);
    crate::port::lemma_count_bounds(back);
    lemma_port_signals_read_back(
        shown,
        port.inout,
        top,
        port.name@,
        port.width.value(),
        m.wires,
    );
    assert(seq![p].drop_last() =~= Seq::<VerilogData<VerilogPort>>::empty());
    assert(ports_read(m, seq![p].drop_last(), top) == m);
}

/// The rows of the ports of a sheet read back as those ports, in order:
/// after rows that started the ports, a row for each port, holding its
/// cells, gives every port back and registers the slices among their
/// fragments, where each port is read as it is written.
pub proof fn lemma_port_rows_read_back(
    first: SheetModel,
    head: Seq<Seq<Cell>>,
    rows: Seq<Seq<Cell>>,
    ports: Seq<VerilogData<VerilogPort>>,
    top: bool,
    outer: Seq<ParamFacts>,
)
    requires
        head.len() >= 2,
        rows_read(first, head, top, outer) is Ok,
        rows_read(first, head, top, outer)->Ok_0.started,
        !rows_read(first, head, top, outer)->Ok_0.finished,
        rows.len() == ports.len(),
        forall|j: int|
            0 <= j < ports.len() ==> shows_port(#[trigger] rows[j], ports[j]) && reads_as_written(
                ports[j],
            ),
    ensures
        rows_read(first, head + rows, top, outer) == Ok::<SheetModel, SheetIssue>(
            ports_read(rows_read(first, head, top, outer)->Ok_0, ports, top),
        ),
        ports_read(
            rows_read(first, head, top, outer)->Ok_0,
            ports,
            top,
        ).started,
        !ports_read(
            rows_read(first, head, top, outer)->Ok_0,
            ports,
            top,
        ).finished,
    decreases rows.len(),
{
    let m = rows_read(first, head, top, outer)->Ok_0;
    if rows.len() == 0 {
        assert(head + rows =~= head);
    } else {
        let earlier = rows.drop_last();
        let others = ports.drop_last();
        assert forall|j: int| 0 <= j < others.len() implies shows_port(
            #[trigger] earlier[j],
            others[j],
        ) && reads_as_written(others[j]) by {
            assert(earlier[j] == rows[j]);
            assert(others[j] == ports[j]);
        }
        lemma_port_rows_read_back(first, head, earlier, others, top, outer);
        let before = ports_read(m, others, top);
        let all = head + rows;
        assert(all.drop_last() =~= head + earlier);
        assert(all.last() == rows[rows.len() - 1]);
        let p = ports.last();
        assert(p == ports[ports.len() - 1]);
        lemma_port_row_read_back(p, before, all.len() - 1, rows.last(), top, outer);
        assert(seq![p].drop_last() =~= Seq::<VerilogData<VerilogPort>>::empty());
        assert(ports_read(before, seq![p].drop_last(), top) == before);
    }
}

/// The parameters that rows give, each named by its second cell.
pub open spec fn params_read(rows: Seq<Seq<Cell>>, outer: Seq<ParamFacts>) -> Seq<ParamFacts> {
    Seq::new(
        rows.len(),
        |i: int|
            row_param(
                rows[i],
                outer,
                match cell_text(rows[i], 1) {
                    Some(name) => name,
                    None => Seq::empty(),
                },
            ),
    )
}

/// The rows hold what the sheet of the module `m` holds: the name of the
/// instance in the first row, a row for each parameter from the third
/// on, with an empty first cell and the name of the parameter in the
/// second, the title row with the guards of the module, a row for each
/// port, and the row that ends the ports.
pub open spec fn shows_module(rows: Seq<Seq<Cell>>, m: VerilogData<VerilogModule>) -> bool {
    let module = m.raw();
    let params = module.param_list@;
    let ports = module.port_list@;
    let t = (2 + params.len()) as int;
    &&& rows.len() == t + ports.len() + 2
    &&& cell_text(rows[0], 1) == head_cells(module)[1].text
    &&& forall|i: int|
        0 <= i < params.len() ==> cell_text(#[trigger] rows[2 + i], 0) is None && cell_text(
            rows[2 + i],
            1,
        ) == Some(params[i].name@)
    &&& cell_text(rows[t], 0) == Some("Port-name"@)
    &&& cell_text(rows[t], 5) == Some(guard_list(m.guards()))
    &&& forall|j: int|
        0 <= j < ports.len() ==> shows_port(#[trigger] rows[t + 1 + j], ports[j])
    &&& cell_text(rows[t + 1 + ports.len()], 0) == Some("Assing-Logic"@)
}

/// The module is read as it is written: the names of its parameters and
/// its guards are read as identifiers, each guard is a name that a cell
/// can hold among others, and each port is read as it is written.
pub open spec fn module_reads_as_written(m: VerilogData<VerilogModule>) -> bool {
    let module = m.raw();
    &&& forall|i: int|
        0 <= i < module.param_list@.len() ==> regex_matches(
            identifier_pattern(),
            (#[trigger] module.param_list@[i]).name@,
        )
    &&& forall|i: int| 0 <= i < m.guards().len() ==> plain_name(#[trigger] m.guards()[i])
    &&& first_illegal(m.guards()) is None
    &&& forall|j: int|
        0 <= j < module.port_list@.len() ==> reads_as_written(#[trigger] module.port_list@[j])
}

/// What the rows above the ports give: the name of the instance, the
/// parameters of the rows, and the guards of the module.
pub open spec fn head_read(
    rows: Seq<Seq<Cell>>,
    m: VerilogData<VerilogModule>,
    wires: Map<Seq<char>, WireState>,
    outer: Seq<ParamFacts>,
) -> SheetModel {
    let t = (2 + m.raw().param_list@.len()) as int;
    SheetModel {
        inst_name: head_cells(m.raw())[1].text,
        params: params_read(rows.subrange(2, t), outer),
        started: true,
        guards: m.guards(),
        ..blank_sheet(wires)
    }
}

/// The first rows of a sheet give the name of the instance and a
/// parameter for each row after the second.
proof fn lemma_params_read_back(
    rows: Seq<Seq<Cell>>,
    m: VerilogData<VerilogModule>,
    wires: Map<Seq<char>, WireState>,
    top: bool,
    outer: Seq<ParamFacts>,
    k: int,
)
    requires
        shows_module(rows, m),
        module_reads_as_written(m),
        0 <= k <= m.raw().param_list@.len(),
    ensures
        rows_read(blank_sheet(wires), rows.take(2 + k), top, outer) == Ok::<
            SheetModel,
            SheetIssue,
        >(
            SheetModel {
                inst_name: head_cells(m.raw())[1].text,
                params: params_read(rows.subrange(2, 2 + k), outer),
                ..blank_sheet(wires)
            },
        ),
    decreases k,
{
    let blank = blank_sheet(wires);
    let params = m.raw().param_list@;
    if k == 0 {
        let two = rows.take(2);
        let one = two.drop_last();
        assert(one.drop_last() =~= Seq::<Seq<Cell>>::empty());
        assert(rows_read(blank, one.drop_last(), top, outer) == Ok::<SheetModel, SheetIssue>(
            blank,
        ));
        assert(one.last() == rows[0]);
        assert(two.last() == rows[1]);
        assert(rows_read(blank, one, top, outer) == row_read(blank, 0, rows[0], top, outer));
        assert(params_read(rows.subrange(2, 2), outer) =~= Seq::<ParamFacts>::empty());
    } else {
        lemma_params_read_back(rows, m, wires, top, outer, k - 1);
        let now = rows.take(2 + k);
        assert(now.drop_last() =~= rows.take(2 + k - 1));
        assert(now.last() == rows[2 + (k - 1)]);
        let row = rows[2 + (k - 1)];
        assert(cell_text(row, 0) is None);
        assert(cell_text(row, 1) == Some(params[k - 1].name@));
        assert(regex_matches(identifier_pattern(), params[k - 1].name@));
        let before = rows.subrange(2, 2 + k - 1);
        let after = rows.subrange(2, 2 + k);
        assert(after.last() == row);
        assert(params_read(after, outer) =~= params_read(before, outer).push(
            row_param(row, outer, params[k - 1].name@),
        )) by {
            assert forall|i: int| 0 <= i < before.len() implies after[i] == before[i] by {}
        }
    }
}

/// A sheet that holds what the writer writes for a module reads back as
/// that module: the name of its instance, a parameter for each of its
/// parameters, its guards, and every port with its direction, name,
/// number of bits, comment and guards, and with its fragments as a sheet
/// gives them back; and the slices among those are registered. This
/// holds where the module is read as it is written.
pub proof fn lemma_sheet_read_back(
    rows: Seq<Seq<Cell>>,
    m: VerilogData<VerilogModule>,
    wires: Map<Seq<char>, WireState>,
    top: bool,
    outer: Seq<ParamFacts>,
)
    requires
        shows_module(rows, m),
        module_reads_as_written(m),
    ensures
        rows_read(blank_sheet(wires), rows, top, outer) == Ok::<SheetModel, SheetIssue>(
            SheetModel {
                finished: true,
                ..ports_read(head_read(rows, m, wires, outer), m.raw().port_list@, top)
            },
        ),
{
    let blank = blank_sheet(wires);
    let params = m.raw().param_list@;
    let ports = m.raw().port_list@;
    let t = (2 + params.len()) as int;
    let n = ports.len() as int;
    lemma_params_read_back(rows, m, wires, top, outer, params.len() as int);
    let head = rows.take(t + 1);
    assert(head.drop_last() =~= rows.take(t));
    assert(head.last() == rows[t]);
    lemma_guards_read_back(m.guards());
    let titled = head_read(rows, m, wires, outer);
    assert(rows_read(blank, head, top, outer) == Ok::<SheetModel, SheetIssue>(titled));
    let port_rows = rows.subrange(t + 1, t + 1 + n);
    assert forall|j: int| 0 <= j < n implies shows_port(#[trigger] port_rows[j], ports[j])
        && reads_as_written(ports[j]) by {
        assert(port_rows[j] == rows[t + 1 + j]);
    }
    lemma_port_rows_read_back(blank, head, port_rows, ports, top, outer);
    assert(rows.drop_last() =~= head + port_rows);
    assert(rows.last() == rows[t + 1 + n]);
}

/// The cells one block after the other.
pub open spec fn joined_cells(blocks: Seq<Seq<CellFacts>>) -> Seq<CellFacts>
    decreases blocks.len(),
{
    if blocks.len() == 0 {
        Seq::empty()
    } else {
        joined_cells(blocks.drop_last()) + blocks.last()
    }
}

/// The cells of the sheet of a module, in the order in which they are
/// written: the head, the parameters from row 2 on, the title row, one
/// row for each port, and `Assing-Logic` under the ports.
pub open spec fn sheet_cells(m: VerilogData<VerilogModule>) -> Seq<CellFacts> {
    let module = m.raw();
    let params = module.param_list@;
    let ports = module.port_list@;
    let t = (2 + params.len()) as int;
    head_cells(module) + joined_cells(Seq::new(params.len(), |i: int| param_cells(params, i)))
        + title_cells(t, guard_list(m.guards())) + joined_cells(
        Seq::new(
            ports.len(),
            |j: int|
                port_cells(
                    ports[j],
                    t + 1 + j,
                    regex_found(name_pattern(), shown_signals(ports[j].raw().fragments())),
                ),
        ),
    ) + seq![text_at(t + 1 + ports.len(), 0, "Assing-Logic"@, CellStyle::Header)]
}

/// The heights of the rows of the sheet: 18 and 20 for the first two
/// rows, 16 for the row of each port.
pub open spec fn sheet_heights(m: VerilogData<VerilogModule>) -> Seq<(u128, u32)> {
    let t = (2 + m.raw().param_list@.len()) as int;
    seq![(0u128, 18u32), (1u128, 20u32)] + Seq::new(
        m.raw().port_list@.len(),
        |j: int| ((t + 1 + j) as u128, 16u32),
    )
}

/// What kind of thing a directory holds.
#[derive(Debug, Clone, Copy, PartialEq, Eq, Structural)]
pub enum EntryKind {
    /// A directory: a module of its own.
    Directory,
    /// A source file.
    Source,
    /// A workbook.
    Workbook,
    /// Anything else.
    Other,
}

/// The kind of an entry from whether it is a directory and from the
/// extension of its name.
pub open spec fn kind_of(is_dir: bool, extension: Seq<char>) -> EntryKind {
    if is_dir {
        EntryKind::Directory
    } else if extension == "v"@ || extension == "sv"@ {
        EntryKind::Source
    } else if extension == "xlsx"@ {
        EntryKind::Workbook
    } else {
        EntryKind::Other
    }
}

/// The ports that the unbalanced wires of a world ask for, made and
/// registered one after the other.
pub open spec fn leftover_ports(wanted: Seq<(PortDir, int, Seq<char>)>, w: World) -> (
    Seq<PortModel>,
    World,
) {
    let fresh = Seq::new(
        wanted.len(),
        |i: int|
            crate::reader::sheet_port(wanted[i].0, false, wanted[i].2, wanted[i].1 as usize),
    );
    let (ports, w2, _) = registered_each(fresh, w);
    (ports, w2)
}

/// The instances that parsed sources make, one after the other: every
/// port of each bound to a signal of its own name and checked.
pub open spec fn sourced(groups: Seq<Seq<PortModel>>, w: World) -> (
    Seq<Seq<PortModel>>,
    World,
    Seq<Seq<PortHealth>>,
)
    decreases groups.len(),
{
    if groups.len() == 0 {
        (Seq::empty(), w, Seq::empty())
    } else {
        let (qs, w1, rs) = sourced(groups.drop_last(), w);
        let (q, w2, r) = defaulted(groups.last(), w1);
        (qs.push(q), w2, rs.push(r))
    }
}

/// Writes workbooks.
#[derive(Debug)]
pub struct ExcelWriter {
    pub module_dir_path: String,
    pub file_list: Vec<String>,
}

fn text_cell(row: u128, col: u16, text: String, style: CellStyle) -> (r: SheetCell)
    ensures
        r@ == text_at(row as int, col as int, text@, style),
{
    SheetCell { row, col, value: CellValue::Text(text), style }
}

impl ExcelWriter {
    /// A writer for the module in the directory `module_dir_path`.
    pub fn new(module_dir_path: String) -> (r: ExcelWriter)
        ensures
            r.module_dir_path == module_dir_path,
            r.file_list@.len() == 0,
    {
        ExcelWriter { module_dir_path, file_list: Vec::new() }
    }

    /// The kind of an entry of the directory.
    pub fn classify_entry(is_dir: bool, extension: &str) -> (r: EntryKind)
        ensures
            r == kind_of(is_dir, extension@),
    {
        let ext = String::from_str(extension);
        if is_dir {
            EntryKind::Directory
        } else if ext == String::from_str("v") || ext == String::from_str("sv") {
            EntryKind::Source
        } else if ext == String::from_str("xlsx") {
            EntryKind::Workbook
        } else {
            EntryKind::Other
        }
    }

    /// The signals of a port as the sheet shows them.
    pub fn signal_cell_text(port: &VerilogPort) -> (r: String)
        ensures
            r@ == shown_signals(port.fragments()),
    {
        let s = port.get_signal_string();
        let s = replace(s.as_str(), "{", "");
        replace(s.as_str(), "}", "")
    }

    /// The first name in `s`.
    pub(crate) fn drop_bracket(s: &str) -> (r: Option<String>)
        ensures
            found_view(r) == regex_found(name_pattern(), s@),
    {
        find("\\b[a-zA-Z_]\\w*\\b", s)
    }

    /// The cells of a port in row `row`, where `found` is the first name
    /// among its signals.
    pub fn port_row(p: &VerilogData<VerilogPort>, row: u128, found: &Option<String>) -> (r: Vec<
        SheetCell,
    >)
        ensures
            cell_views(r@) == port_cells(*p, row as int, found_view(*found)),
    {
        let port = p.get_raw();
        let mut cells: Vec<SheetCell> = Vec::new();
        cells.push(text_cell(row, 0, port.name.clone(), CellStyle::Plain));
        cells.push(text_cell(row, 1, port.inout.to_string(), CellStyle::Plain));
        cells.push(
            SheetCell {
                row,
                col: 2,
                value: CellValue::Number(port.width.width()),
                style: CellStyle::Plain,
            },
        );
        let first = match found {
            Some(n) => n.clone(),
            None => String::from_str(""),
        };
        let style = if port.signals.len() == 2 && first == port.name {
            CellStyle::Underline
        } else {
            CellStyle::Plain
        };
        cells.push(text_cell(row, 3, Self::signal_cell_text(port), style));
        cells.push(text_cell(row, 4, port.info.clone(), CellStyle::Plain));
        cells.push(text_cell(row, 5, p.get_macro_name(), CellStyle::Plain));
        assert(cell_views(cells@) =~= port_cells(*p, row as int, found_view(*found)));
        cells
    }

    /// The sheet of a module.
    pub fn add_inst_sheet(&self, module: &VerilogData<VerilogModule>) -> (r: SheetLayout)
        ensures
            r.name@ == module.raw().module_name@,
            cell_views(r.cells@) == sheet_cells(*module),
            r.row_heights@ == sheet_heights(*module),
            r.column_widths@ == Seq::new(6, |c: int| (c as u16, column_width(c))),
            r.freeze_row == 3 + module.raw().param_list@.len(),
    {
        let m = module.get_raw();
        let macro_string = module.get_macro_name();
        let mut cells: Vec<SheetCell> = Vec::new();
        let mut heights: Vec<(u128, u32)> = Vec::new();
        heights.push((0, 18));
        heights.push((1, 20));
        cells.push(text_cell(0, 0, String::from_str("Module Inst Name"), CellStyle::Bold));
        let inst_name = match &m.inst_name {
            Some(s) => s.clone(),
            None => String::from_str(""),
        };
        cells.push(text_cell(0, 1, inst_name, CellStyle::Plain));
        cells.push(text_cell(1, 0, String::from_str("Parameter:"), CellStyle::Bold));
        let ghost head = head_cells(*m);
        assert(cell_views(cells@) =~= head);
        // The parameters.
        let ghost params = m.param_list@;
        let ghost param_blocks = Seq::new(params.len(), |i: int| param_cells(params, i));
        let mut i: usize = 0;
        assert(param_blocks.take(0) =~= Seq::<Seq<CellFacts>>::empty());
        assert(cell_views(cells@) =~= head + joined_cells(param_blocks.take(0)));
        while i < m.param_list.len()
            invariant
                i <= m.param_list@.len(),
                params == m.param_list@,
                param_blocks == Seq::new(params.len(), |i: int| param_cells(params, i)),
                cell_views(cells@) == head + joined_cells(param_blocks.take(i as int)),
            decreases m.param_list@.len() - i,
        {
            let para = &m.param_list[i];
            let row: u128 = 2 + i as u128;
            let ghost before = cell_views(cells@);
            proof {
                assert(param_blocks.take(i + 1).drop_last() =~= param_blocks.take(i as int));
                assert(param_blocks.take(i + 1).last() == param_cells(params, i as int));
            }
            cells.push(text_cell(row, 1, para.name.clone(), CellStyle::Plain));
            cells.push(text_cell(row, 2, para.get_name(), CellStyle::Plain));
            assert(cell_views(cells@) =~= before + param_cells(params, i as int));
            i += 1;
        }
        assert(param_blocks.take(param_blocks.len() as int) =~= param_blocks);
        // The title row.
        let t: u128 = 2 + m.param_list.len() as u128;
        let ghost part1 = cell_views(cells@);
        let ghost titles = title_cells(t as int, macro_string@);
        let mut widths: Vec<(u16, u32)> = Vec::new();
        let mut c: u16 = 0;
        assert(cell_views(cells@) =~= part1 + titles.take(0));
        while c < 6
            invariant
                c <= 6,
                titles == title_cells(t as int, macro_string@),
                cell_views(cells@) == part1 + titles.take(c as int),
                widths@ == Seq::new(c as nat, |k: int| (k as u16, column_width(k))),
            decreases 6 - c,
        {
            let text = if c == 0 {
                String::from_str("Port-name")
            } else if c == 1 {
                String::from_str("InOut")
            } else if c == 2 {
                String::from_str("Width")
            } else if c == 3 {
                String::from_str("Wire-name")
            } else if c == 4 {
                String::from_str("Port-comment")
            } else {
                macro_string.clone()
            };
            let w: u32 = if c == 0 {
                30
            } else if c == 1 {
                10
            } else if c == 2 {
                10
            } else if c == 3 {
                30
            } else if c == 4 {
                40
            } else {
                20
            };
            let ghost before = cell_views(cells@);
            cells.push(text_cell(t, c, text, CellStyle::Header));
            widths.push((c, w));
            assert(cell_views(cells@) =~= before.push(titles[c as int]));
            c += 1;
            assert(cell_views(cells@) =~= part1 + titles.take(c as int));
            assert(widths@ =~= Seq::new(c as nat, |k: int| (k as u16, column_width(k))));
        }
        assert(titles.take(6) =~= titles);
        // The ports.
        let ghost ports = m.port_list@;
        let ghost port_blocks = Seq::new(
            ports.len(),
            |j: int|
                port_cells(
                    ports[j],
                    t + 1 + j,
                    regex_found(name_pattern(), shown_signals(ports[j].raw().fragments())),
                ),
        );
        let ghost part2 = cell_views(cells@);
        let ghost fixed = seq![(0u128, 18u32), (1u128, 20u32)];
        let ghost port_heights = Seq::new(ports.len(), |j: int| ((t + 1 + j) as u128, 16u32));
        let mut j: usize = 0;
        assert(port_blocks.take(0) =~= Seq::<Seq<CellFacts>>::empty());
        assert(cell_views(cells@) =~= part2 + joined_cells(port_blocks.take(0)));
        assert(heights@ =~= fixed + port_heights.take(0));
        while j < m.port_list.len()
            invariant
                j <= m.port_list@.len(),
                ports == m.port_list@,
                t == 2 + m.param_list@.len(),
                t <= 0x1_0000_0000_0000_0001,
                port_blocks == Seq::new(
                    ports.len(),
                    |j: int|
                        port_cells(
                            ports[j],
                            t + 1 + j,
                            regex_found(
                                name_pattern(),
                                shown_signals(ports[j].raw().fragments()),
                            ),
                        ),
                ),
                port_heights == Seq::new(ports.len(), |j: int| ((t + 1 + j) as u128, 16u32)),
                cell_views(cells@) == part2 + joined_cells(port_blocks.take(j as int)),
                heights@ == fixed + port_heights.take(j as int),
            decreases m.port_list@.len() - j,
        {
            let port = &m.port_list[j];
            let row: u128 = t + 1 + j as u128;
            let ghost before = cell_views(cells@);
            proof {
                assert(port_blocks.take(j + 1).drop_last() =~= port_blocks.take(j as int));
                assert(port_blocks.take(j + 1).last() == port_blocks[j as int]);
            }
            let shown = Self::signal_cell_text(port.get_raw());
            let found = Self::drop_bracket(shown.as_str());
            let mut row_cells = Self::port_row(port, row, &found);
            let ghost added = cell_views(row_cells@);
            cells.append(&mut row_cells);
            heights.push((row, 16));
            assert(cell_views(cells@) =~= before + added);
            j += 1;
            assert(heights@ =~= fixed + port_heights.take(j as int));
        }
        assert(port_blocks.take(port_blocks.len() as int) =~= port_blocks);
        assert(port_heights.take(port_heights.len() as int) =~= port_heights);
        let ghost before = cell_views(cells@);
        let last: u128 = t + 1 + m.port_list.len() as u128;
        cells.push(text_cell(last, 0, String::from_str("Assing-Logic"), CellStyle::Header));
        assert(cell_views(cells@) =~= before.push(
            text_at(last as int, 0, "Assing-Logic"@, CellStyle::Header),
        ));
        SheetLayout {
            name: m.module_name.clone(),
            cells,
            row_heights: heights,
            column_widths: widths,
            freeze_row: t + 1,
        }
    }

    /// The sheets of a workbook: the sheet of the module, then one for
    /// each instance inside it.
    pub fn write_excel(&self, module: &VerilogData<VerilogModule>) -> (r: Vec<SheetLayout>)
        ensures
            r@.len() == 1 + module.raw().inst_list@.len(),
            cell_views(r@[0].cells@) == sheet_cells(*module),
            r@[0].name@ == module.raw().module_name@,
            forall|i: int|
                0 <= i < module.raw().inst_list@.len() ==> cell_views((#[trigger] r@[i + 1]).cells@)
                    == sheet_cells(module.raw().inst_list@[i]) && r@[i + 1].name@
                    == module.raw().inst_list@[i].raw().module_name@ && r@[i + 1].row_heights@
                    == sheet_heights(module.raw().inst_list@[i]),
    {
        let mut out: Vec<SheetLayout> = Vec::new();
        out.push(self.add_inst_sheet(module));
        let list = &module.get_raw().inst_list;
        let mut i: usize = 0;
        while i < list.len()
            invariant
                i <= list@.len(),
                list@ == module.raw().inst_list@,
                out@.len() == 1 + i,
                cell_views(out@[0].cells@) == sheet_cells(*module),
                out@[0].name@ == module.raw().module_name@,
                forall|k: int|
                    0 <= k < i ==> cell_views((#[trigger] out@[k + 1]).cells@) == sheet_cells(
                        list@[k],
                    ) && out@[k + 1].name@ == list@[k].raw().module_name@ && out@[k
                        + 1].row_heights@ == sheet_heights(list@[k]),
            decreases list@.len() - i,
        {
            out.push(self.add_inst_sheet(&list[i]));
            i += 1;
        }
        out
    }

    /// Adds to `module` a port for each unbalanced wire of the registry:
    /// an input where bits are read without a driver, else an output
    /// where bits are driven without a load. Each port is registered as
    /// a port of the module.
    pub fn add_leftover_ports(
        module: &mut VerilogModule,
        wires: &mut WireBuilder,
        collector: &mut UndefineWireCollector,
    )
        requires
            old(module).wf(),
            old(wires).wf(),
        ensures
            final(module).wf(),
            final(wires).wf(),
            *final(module) == (VerilogModule { port_list: final(module).port_list, ..*old(module) }),
            final(module).port_list@.len() >= old(module).port_list@.len(),
            final(module).port_list@.take(old(module).port_list@.len() as int) == old(
                module,
            ).port_list@,
            ({
                let (ports, w) = leftover_ports(
                    unbalanced(sorted_names(old(wires)@), old(wires)@),
                    world(*old(wires), *old(collector)),
                );
                &&& port_models(
                    final(module).port_list@.skip(old(module).port_list@.len() as int),
                ) == ports
                &&& world(*final(wires), *final(collector)) == w
            }),
            forall|i: int|
                old(module).port_list@.len() <= i < final(module).port_list@.len() ==> (
                #[trigger] final(module).port_list@[i]).guards() == Seq::<Seq<char>>::empty()
                    && final(module).port_list@[i].raw().width is RawWidth,
    {
        let list = wires.traverse_unload_undriven();
        proof {
            wires.lemma_names_sorted();
        }
        let ghost asked = unbalanced(sorted_names(wires@), wires@);
        let ghost fresh = Seq::new(
            asked.len(),
            |i: int|
                crate::reader::sheet_port(asked[i].0, false, asked[i].2, asked[i].1 as usize),
        );
        let ghost w0 = world(*wires, *collector);
        let ghost base = module.port_list@;
        let mut i: usize = 0;
        proof {
            assert(fresh.take(0) =~= Seq::<PortModel>::empty());
            assert(module.port_list@.skip(base.len() as int) =~= Seq::<
                VerilogData<VerilogPort>,
            >::empty());
            assert(port_models(Seq::<VerilogData<VerilogPort>>::empty()) =~= Seq::<
                PortModel,
            >::empty());
            assert(module.port_list@.take(base.len() as int) =~= base);
        }
        while i < list.len()
            invariant
                i <= list@.len(),
                wanted(list@) == asked,
                fresh == Seq::new(
                    asked.len(),
                    |i: int|
                        crate::reader::sheet_port(
                            asked[i].0,
                            false,
                            asked[i].2,
                            asked[i].1 as usize,
                        ),
                ),
                w0 == world(*old(wires), *old(collector)),
                base == old(module).port_list@,
                module.wf(),
                wires.wf(),
                *module == (VerilogModule { port_list: module.port_list, ..*old(module) }),
                module.port_list@.len() == base.len() + i,
                module.port_list@.take(base.len() as int) == base,
                registered_each(fresh.take(i as int), w0).0 == port_models(
                    module.port_list@.skip(base.len() as int),
                ),
                registered_each(fresh.take(i as int), w0).1 == world(*wires, *collector),
                forall|k: int|
                    base.len() <= k < module.port_list@.len() ==> (
                    #[trigger] module.port_list@[k]).guards() == Seq::<Seq<char>>::empty()
                        && module.port_list@[k].raw().width is RawWidth,
            decreases list@.len() - i,
        {
            let ghost prev = module.port_list@;
            let ghost done = port_models(prev.skip(base.len() as int));
            proof {
                assert(fresh.take(i + 1).drop_last() =~= fresh.take(i as int));
                assert(fresh.take(i + 1).last() == fresh[i as int]);
                assert(wanted(list@)[i as int] == asked[i as int]);
            }
            let (inout, width, name) = (list[i].0, list[i].1, list[i].2.clone());
            let mut new_port = VerilogPort::new(inout, name.as_str(), Width::RawWidth(width));
            assert(new_port@ == fresh[i as int]) by {
                assert(new_port.undefine_wires_idx@ =~= Seq::<(usize, usize)>::empty());
            }
            new_port.register_port_as_wire(wires, collector);
            let wrapped = VerilogData::Raw(new_port);
            module.port_list.push(wrapped);
            proof {
                let now = module.port_list@;
                assert(now.take(base.len() as int) =~= base) by {
                    assert(prev.take(base.len() as int) == base);
                }
                assert(now.skip(base.len() as int) =~= prev.skip(base.len() as int).push(wrapped));
                assert(port_models(now.skip(base.len() as int)) =~= done.push(wrapped.raw()@));
                assert forall|k: int| 0 <= k < now.len() implies (#[trigger] now[k]).raw().wf() by {
                    if k < prev.len() {
                        assert(now[k] == prev[k]);
                    }
                }
                assert forall|k: int| base.len() <= k < now.len() implies (
                #[trigger] now[k]).guards() == Seq::<Seq<char>>::empty() && now[k].raw().width
                    is RawWidth by {
                    if k < prev.len() {
                        assert(now[k] == prev[k]);
                    }
                }
            }
            i += 1;
        }
        proof {
            assert(fresh.take(fresh.len() as int) =~= fresh);
        }
    }

    /// The module that parsed sources make: each of them an instance
    /// under the name `u_` and its own name, every port of it bound to a
    /// signal of the port's name and checked, and a port of the module
    /// for each wire that is left unbalanced. The registry and the
    /// collector are emptied first.
    pub fn get_module_from_v(
        &self,
        module_name: &str,
        parsed: Vec<VerilogModule>,
        wires: &mut WireBuilder,
        collector: &mut UndefineWireCollector,
    ) -> (r: (VerilogData<VerilogModule>, Vec<Vec<PortHealth>>))
        requires
            forall|i: int| 0 <= i < parsed@.len() ==> (#[trigger] parsed@[i]).wf(),
        ensures
            final(wires).wf(),
            r.0 is Raw,
            r.0.raw().wf(),
            r.0.raw().module_name@ == module_name@,
            r.0.raw().inst_name is None,
            r.0.raw().param_list@.len() == 0,
            r.0.raw().inst_list@.len() == parsed@.len(),
            r.1@.len() == parsed@.len(),
            forall|i: int|
                0 <= i < parsed@.len() ==> {
                    let inst = (#[trigger] r.0.raw().inst_list@[i]);
                    &&& inst is Raw
                    &&& inst.raw().module_name == parsed@[i].module_name
                    &&& inst.raw().param_list == parsed@[i].param_list
                    &&& inst.raw().inst_list == parsed@[i].inst_list
                    &&& inst.raw().inst_name is Some
                    &&& inst.raw().instance_name() == parsed@[i].instance_name()
                    &&& crate::module::same_identity(parsed@[i].port_list@, inst.raw().port_list@)
                },
            ({
                let (insts, w1, found) = sourced(
                    Seq::new(parsed@.len(), |i: int| port_models(parsed@[i].port_list@)),
                    crate::reader::empty_world(),
                );
                &&& crate::module::instance_models(r.0.raw().inst_list@) == insts
                &&& crate::module::findings(r.1@) == found
                &&& (port_models(r.0.raw().port_list@), world(*final(wires), *final(collector)))
                    == leftover_ports(unbalanced(sorted_names(w1.wires), w1.wires), w1)
            }),
    {
        collector.clear();
        wires.clear();
        proof {
            assert(world(*wires, *collector) == crate::reader::empty_world()) by {
                assert(collector.names() =~= Seq::<Seq<char>>::empty());
                assert(collector.groups() =~= Seq::<Seq<usize>>::empty());
                assert(collector.value@ =~= Seq::<i64>::empty());
                assert(collector.res@ =~= Seq::<usize>::empty());
            }
        }
        let mut module = VerilogModule::new(String::from_str(module_name));
        let mut parsed = parsed;
        let mut healths: Vec<Vec<PortHealth>> = Vec::new();
        let ghost all = parsed@;
        let ghost groups = Seq::new(all.len(), |i: int| port_models(all[i].port_list@));
        let ghost w0 = crate::reader::empty_world();
        let mut i: usize = 0;
        proof {
            assert(groups.take(0) =~= Seq::<Seq<PortModel>>::empty());
            assert(crate::module::instance_models(module.inst_list@) =~= Seq::<
                Seq<PortModel>,
            >::empty());
            assert(crate::module::findings(healths@) =~= Seq::<Seq<PortHealth>>::empty());
        }
        while i < parsed.len()
            invariant
                i <= parsed@.len(),
                parsed@.len() == all.len(),
                groups == Seq::new(all.len(), |i: int| port_models(all[i].port_list@)),
                w0 == crate::reader::empty_world(),
                forall|k: int| i <= k < all.len() ==> parsed@[k] == all[k],
                forall|k: int| 0 <= k < all.len() ==> (#[trigger] all[k]).wf(),
                wires.wf(),
                module.wf(),
                module.module_name@ == module_name@,
                module.inst_name is None,
                module.param_list@.len() == 0,
                module.port_list@.len() == 0,
                module.inst_list@.len() == i,
                healths@.len() == i,
                forall|k: int|
                    0 <= k < i ==> {
                        let inst = (#[trigger] module.inst_list@[k]);
                        &&& inst is Raw
                        &&& inst.raw().module_name == all[k].module_name
                        &&& inst.raw().param_list == all[k].param_list
                        &&& inst.raw().inst_list == all[k].inst_list
                        &&& inst.raw().inst_name is Some
                        &&& inst.raw().instance_name() == all[k].instance_name()
                        &&& crate::module::same_identity(all[k].port_list@, inst.raw().port_list@)
                    },
                (
                    crate::module::instance_models(module.inst_list@),
                    world(*wires, *collector),
                    crate::module::findings(healths@),
                ) == sourced(groups.take(i as int), w0),
            decreases parsed@.len() - i,
        {
            let ghost prev = module.inst_list@;
            let ghost done = crate::module::instance_models(prev);
            let ghost found = crate::module::findings(healths@);
            proof {
                assert(groups.take(i + 1).drop_last() =~= groups.take(i as int));
                assert(groups.take(i + 1).last() == port_models(all[i as int].port_list@));
            }
            let mut inst_item = VerilogModule::new(String::new());
            core::mem::swap(&mut inst_item, &mut parsed[i]);
            assert(inst_item == all[i as int]);
            inst_item.set_default_inst_name();
            let health = inst_item.set_default_port_wires(wires, collector);
            let wrapped = VerilogData::Raw(inst_item);
            healths.push(health);
            module.inst_list.push(wrapped);
            proof {
                let now = module.inst_list@;
                assert(crate::module::instance_models(now) =~= done.push(
                    port_models(wrapped.raw().port_list@),
                ));
                assert(crate::module::findings(healths@) =~= found.push(health@));
                assert forall|k: int| 0 <= k < now.len() implies ports_wf(
                    (#[trigger] now[k]).raw().port_list@,
                ) by {
                    if k < prev.len() {
                        assert(now[k] == prev[k]);
                    }
                }
                assert forall|k: int| 0 <= k < i + 1 implies {
                    let inst = (#[trigger] now[k]);
                    &&& inst is Raw
                    &&& inst.raw().module_name == all[k].module_name
                    &&& inst.raw().param_list == all[k].param_list
                    &&& inst.raw().inst_list == all[k].inst_list
                    &&& inst.raw().inst_name is Some
                    &&& inst.raw().instance_name() == all[k].instance_name()
                    &&& crate::module::same_identity(all[k].port_list@, inst.raw().port_list@)
                } by {
                    if k < prev.len() {
                        assert(now[k] == prev[k]);
                    }
                }
            }
            i += 1;
        }
        proof {
            assert(groups.take(groups.len() as int) =~= groups);
            wires.lemma_names_sorted();
        }
        Self::add_leftover_ports(&mut module, wires, collector);
        proof {
            assert(module.port_list@.skip(0) =~= module.port_list@);
        }
        (VerilogData::Raw(module), healths)
    }
}

} // verus!
