//! Reading a workbook: one sheet for the module itself, one for each
//! instance inside it.
//!
//! A sheet is a list of rows of cells. Row 0 holds the name of the
//! instance, the rows from row 2 on hold the parameters, up to the row
//! that starts with `Port-name`; the rows after that hold one port each,
//! up to the row that starts with `Assing-Logic`.
use crate::calculator::is_space;
use crate::collector::UndefineWireCollector;
use crate::data::guard_list;
use crate::data::wrap_with;
use crate::data::VerilogData;
use crate::module::check_ports;
use crate::module::checked_each;
use crate::module::port_models;
use crate::module::ports_wf;
use crate::module::VerilogModule;
use crate::parameter::Param;
use crate::parameter::ParamValue;
use crate::pattern::captures;
use crate::pattern::find;
use crate::pattern::found_view;
use crate::pattern::is_match;
use crate::pattern::match_views;
use crate::pattern::regex_found;
use crate::pattern::regex_groups;
use crate::pattern::regex_matches;
use crate::port::bound;
use crate::port::rebound;
use crate::port::role_of;
use crate::port::undefined_count;
use crate::port::Fragment;
use crate::port::PortDir;
use crate::port::PortHealth;
use crate::port::PortModel;
use crate::port::World;
use crate::port::VerilogPort;
use crate::text::chars_of;
use crate::text::first_index;
use crate::text::join_spec;
use crate::text::numeral;
use crate::text::parse_radix;
use crate::text::string_of;
use crate::text::views;
use crate::width::Width;
use crate::wire::WireBuilder;
use crate::wire::WireState;
use std::ops::Range;
use vstd::prelude::*;

verus! {

/// What a cell of a sheet holds.
#[derive(Debug)]
pub enum Cell {
    Empty,
    Text(String),
    Number(usize),
}

/// A sheet of a workbook.
#[derive(Debug)]
pub struct Sheet {
    pub name: String,
    pub rows: Vec<Vec<Cell>>,
}

/// Why a workbook cannot be read.
#[derive(Debug)]
pub enum SheetError {
    /// The workbook has no sheet.
    EmptyWorkbook,
    /// The name of a port, a parameter or a guard is no identifier.
    IllegalIdentifier(String),
    /// A slice or a constant is written with a number that cannot be
    /// held.
    BadLiteral(String),
}

/// A `SheetError` with its text taken as a sequence of characters.
pub enum SheetIssue {
    EmptyWorkbook,
    IllegalIdentifier(Seq<char>),
    BadLiteral(Seq<char>),
}

impl View for SheetError {
    type V = SheetIssue;

    open spec fn view(&self) -> SheetIssue {
        match *self {
            SheetError::EmptyWorkbook => SheetIssue::EmptyWorkbook,
            SheetError::IllegalIdentifier(s) => SheetIssue::IllegalIdentifier(s@),
            SheetError::BadLiteral(s) => SheetIssue::BadLiteral(s@),
        }
    }
}

/// The text of a cell, if it holds one.
pub open spec fn cell_text(row: Seq<Cell>, i: int) -> Option<Seq<char>> {
    if 0 <= i < row.len() {
        match row[i] {
            Cell::Text(s) => Some(s@),
            _ => None,
        }
    } else {
        None
    }
}

/// The number of a cell: the number it holds, the number its text
/// writes in base ten, and zero for anything else.
pub open spec fn cell_number(row: Seq<Cell>, i: int) -> usize {
    if 0 <= i < row.len() {
        match row[i] {
            Cell::Number(n) => n,
            Cell::Text(s) => match numeral(s@, 10, usize::MAX as int) {
                Some(v) => v as usize,
                None => 0,
            },
            Cell::Empty => 0,
        }
    } else {
        0
    }
}

/// A character that parts the names in a cell: a comma or white space.
pub open spec fn is_separator(c: char) -> bool {
    c == ',' || is_space(c)
}

/// The names read so far and the name being read.
pub struct Scan {
    pub done: Seq<Seq<char>>,
    pub current: Seq<char>,
}

/// The scan after the characters of `s`: a separator ends the name being
/// read, any other character is added to it.
pub open spec fn scanned(s: Seq<char>) -> Scan
    decreases s.len(),
{
    if s.len() == 0 {
        Scan { done: Seq::empty(), current: Seq::empty() }
    } else {
        let before = scanned(s.drop_last());
        let c = s.last();
        if is_separator(c) {
            if before.current.len() > 0 {
                Scan { done: before.done.push(before.current), current: Seq::empty() }
            } else {
                before
            }
        } else {
            Scan { done: before.done, current: before.current.push(c) }
        }
    }
}

/// The names in a text, parted by commas and white space.
pub open spec fn split_names(s: Seq<char>) -> Seq<Seq<char>> {
    let scan = scanned(s);
    if scan.current.len() > 0 {
        scan.done.push(scan.current)
    } else {
        scan.done
    }
}

/// The names in a cell; none for a cell without text.
pub open spec fn cell_names(row: Seq<Cell>, i: int) -> Seq<Seq<char>> {
    match cell_text(row, i) {
        Some(s) => split_names(s),
        None => Seq::empty(),
    }
}

/// A name that a cell can hold among others: it is not empty, and none
/// of its characters parts names.
pub open spec fn plain_name(name: Seq<char>) -> bool {
    name.len() > 0 && forall|i: int| 0 <= i < name.len() ==> !is_separator(#[trigger] name[i])
}

/// Characters that part no names are added to the name being read.
proof fn lemma_scan_name(s: Seq<char>, t: Seq<char>)
    requires
        forall|i: int| 0 <= i < t.len() ==> !is_separator(#[trigger] t[i]),
    ensures
        scanned(s + t) == (Scan {
            done: scanned(s).done,
            current: scanned(s).current + t,
        }),
    decreases t.len(),
{
    if t.len() == 0 {
        assert(s + t =~= s);
        assert(scanned(s).current + t =~= scanned(s).current);
    } else {
        let rest = t.drop_last();
        assert forall|i: int| 0 <= i < rest.len() implies !is_separator(#[trigger] rest[i]) by {
            assert(rest[i] == t[i]);
        }
        lemma_scan_name(s, rest);
        assert((s + t).drop_last() =~= s + rest);
        assert((s + t).last() == t[t.len() - 1]);
        assert(scanned(s).current + t =~= (scanned(s).current + rest).push(t.last()));
    }
}

/// A comma and a space end the name being read.
proof fn lemma_scan_gap(s: Seq<char>)
    requires
        scanned(s).current.len() > 0,
    ensures
        scanned(s + ", "@) == (Scan {
            done: scanned(s).done.push(scanned(s).current),
            current: Seq::empty(),
        }),
{
    reveal_strlit(", ");
    let gap = ", "@;
    assert(gap.len() == 2 && gap[0] == ',' && gap[1] == ' ');
    let a = s.push(',');
    let b = a.push(' ');
    assert((s + gap) =~= b);
    assert(a.drop_last() =~= s);
    assert(a.last() == ',');
    assert(is_separator(','));
    assert(scanned(a) == (Scan {
        done: scanned(s).done.push(scanned(s).current),
        current: Seq::empty(),
    }));
    assert(b.drop_last() =~= a);
    assert(b.last() == ' ');
    assert(is_space(' '));
    assert(is_separator(' '));
    assert(scanned(b) == scanned(a));
}

/// The guards that one cell lists are read back as they were, where
/// each is a name that a cell can hold among others.
pub proof fn lemma_guards_read_back(guards: Seq<Seq<char>>)
    requires
        forall|i: int| 0 <= i < guards.len() ==> plain_name(#[trigger] guards[i]),
    ensures
        split_names(guard_list(guards)) == guards,
{
    let empty = Seq::<char>::empty();
    lemma_guards_follow(empty, guards);
    assert(empty + guard_list(guards) =~= guard_list(guards));
    assert(scanned(empty).done + guards =~= guards);
}

/// After a text that ends no name half-way, the listed guards are read
/// as further names.
proof fn lemma_guards_follow(s: Seq<char>, guards: Seq<Seq<char>>)
    requires
        scanned(s).current.len() == 0,
        forall|i: int| 0 <= i < guards.len() ==> plain_name(#[trigger] guards[i]),
    ensures
        split_names(s + guard_list(guards)) == scanned(s).done + guards,
    decreases guards.len(),
{
    if guards.len() == 0 {
        reveal_strlit("");
        assert(s + guard_list(guards) =~= s);
        assert(scanned(s).done + guards =~= scanned(s).done);
    } else {
        let first = guards[0];
        let rest = guards.skip(1);
        assert(plain_name(first));
        lemma_scan_name(s, first);
        let s1 = s + first;
        assert(scanned(s).current + first =~= first);
        lemma_scan_gap(s1);
        let s2 = s1 + ", "@;
        assert forall|i: int| 0 <= i < rest.len() implies plain_name(#[trigger] rest[i]) by {
            assert(rest[i] == guards[i + 1]);
        }
        lemma_guards_follow(s2, rest);
        assert(s + guard_list(guards) =~= s2 + guard_list(rest));
        assert(scanned(s).done.push(first) + rest =~= scanned(s).done + guards);
    }
}

/// Names written in one cell with a comma and a space between them are
/// read back as they were, where each is a name that a cell can hold
/// among others.
pub proof fn lemma_names_read_back(names: Seq<Seq<char>>)
    requires
        forall|i: int| 0 <= i < names.len() ==> plain_name(#[trigger] names[i]),
    ensures
        split_names(join_spec(names, ", "@)) == names,
{
    if names.len() == 0 {
        assert(split_names(Seq::<char>::empty()) =~= names);
    } else {
        lemma_joined_scan(names);
        assert(names.drop_last().push(names.last()) =~= names);
    }
}

/// Scanning joined names leaves the last as the name being read and the
/// others read.
proof fn lemma_joined_scan(names: Seq<Seq<char>>)
    requires
        names.len() > 0,
        forall|i: int| 0 <= i < names.len() ==> plain_name(#[trigger] names[i]),
    ensures
        scanned(join_spec(names, ", "@)) == (Scan {
            done: names.drop_last(),
            current: names.last(),
        }),
    decreases names.len(),
{
    let empty = Seq::<char>::empty();
    let last = names.last();
    assert(plain_name(names[names.len() - 1]));
    if names.len() == 1 {
        lemma_scan_name(empty, last);
        assert(empty + last =~= last);
        assert(scanned(empty).current + last =~= last);
        assert(names.drop_last() =~= scanned(empty).done);
    } else {
        let before = names.drop_last();
        assert forall|i: int| 0 <= i < before.len() implies plain_name(#[trigger] before[i]) by {
            assert(before[i] == names[i]);
        }
        lemma_joined_scan(before);
        let s = join_spec(before, ", "@);
        lemma_scan_gap(s);
        lemma_scan_name(s + ", "@, last);
        assert(before.drop_last().push(before.last()) =~= before);
        assert(Seq::<char>::empty() + last =~= last);
    }
}

/// The pattern of a name.
pub open spec fn name_pattern() -> Seq<char> {
    "\\b[a-zA-Z_]\\w*\\b"@
}

/// The pattern of a text that is a name and nothing else.
pub open spec fn identifier_pattern() -> Seq<char> {
    "^\\b[a-zA-Z_]\\w*\\b$"@
}

/// The pattern of a slice `name[hi:lo]`.
pub open spec fn slice_pattern() -> Seq<char> {
    "(\\b[a-zA-Z_]\\w*\\b)\\s*\\[\\s*(\\d+)\\s*:\\s*(\\d+)\\s*]"@
}

/// The pattern of a sized constant `W'bV`, `W'oV`, `W'dV` or `W'hV`.
pub open spec fn constant_pattern() -> Seq<char> {
    "(\\d+)'\\s*([bodh])\\s*([0-9a-fA-F_xzXZ]+)"@
}

/// What a name in the signal cell of a port stands for.
#[derive(Debug)]
pub enum WireToken {
    /// The bits `lo..hi` of a wire.
    Slice { name: String, lo: usize, hi: usize },
    /// A sized constant.
    Number { width: u8, value: u128 },
    /// A signal without a width.
    Name(String),
    /// A slice or a constant with a number that cannot be held.
    Bad,
    /// Nothing that can be bound to a port.
    Nothing,
}

/// A `WireToken` as plain values.
pub enum TokenClass {
    Slice(Seq<char>, int, int),
    Number(int, int),
    Name(Seq<char>),
    Bad,
    Nothing,
}

impl View for WireToken {
    type V = TokenClass;

    open spec fn view(&self) -> TokenClass {
        match *self {
            WireToken::Slice { name, lo, hi } => TokenClass::Slice(name@, lo as int, hi as int),
            WireToken::Number { width, value } => TokenClass::Number(width as int, value as int),
            WireToken::Name(s) => TokenClass::Name(s@),
            WireToken::Bad => TokenClass::Bad,
            WireToken::Nothing => TokenClass::Nothing,
        }
    }
}

/// The base that the letter of a constant names.
pub open spec fn base_of(letter: Seq<char>) -> int {
    if letter == "b"@ {
        2
    } else if letter == "o"@ {
        8
    } else if letter == "h"@ {
        16
    } else {
        10
    }
}

/// The three groups after the whole match, where each took part.
pub open spec fn three_groups(g: Seq<Option<Seq<char>>>) -> Option<
    (Seq<char>, Seq<char>, Seq<char>),
> {
    if g.len() >= 4 && g[1] is Some && g[2] is Some && g[3] is Some {
        Some((g[1]->0, g[2]->0, g[3]->0))
    } else {
        None
    }
}

/// What a name stands for, from what the three patterns find in it: a
/// slice where the slice pattern matches, else a constant where the
/// constant pattern matches, else a signal where a name is found. The
/// slice `name[hi:lo]` is the bits `lo..hi+1`.
pub open spec fn classified(
    slice: Option<Seq<Option<Seq<char>>>>,
    constant: Option<Seq<Option<Seq<char>>>>,
    name: Option<Seq<char>>,
) -> TokenClass {
    match slice {
        Some(g) => match three_groups(g) {
            Some((n, hi, lo)) => match (
                numeral(hi, 10, usize::MAX - 1),
                numeral(lo, 10, usize::MAX as int),
            ) {
                (Some(h), Some(l)) => TokenClass::Slice(n, l, h + 1),
                _ => TokenClass::Bad,
            },
            None => TokenClass::Bad,
        },
        None => match constant {
            Some(g) => match three_groups(g) {
                Some((w, letter, digits)) => match numeral(w, 10, 255) {
                    Some(width) => match numeral(digits, base_of(letter), u128::MAX as int) {
                        Some(value) => TokenClass::Number(width, value),
                        None => TokenClass::Bad,
                    },
                    None => TokenClass::Bad,
                },
                None => TokenClass::Bad,
            },
            None => match name {
                Some(n) => TokenClass::Name(n),
                None => TokenClass::Nothing,
            },
        },
    }
}

/// What the name `token` stands for.
pub open spec fn token_class(token: Seq<char>) -> TokenClass {
    classified(
        regex_groups(slice_pattern(), token),
        regex_groups(constant_pattern(), token),
        regex_found(name_pattern(), token),
    )
}

fn groups_of(g: &Vec<Option<String>>) -> (r: Option<(String, String, String)>)
    ensures
        match r {
            Some((a, b, c)) => three_groups(crate::pattern::group_views(g@)) == Some(
                (a@, b@, c@),
            ),
            None => three_groups(crate::pattern::group_views(g@)) is None,
        },
{
    if g.len() < 4 {
        return None;
    }
    match (&g[1], &g[2], &g[3]) {
        (Some(a), Some(b), Some(c)) => Some((a.clone(), b.clone(), c.clone())),
        _ => None,
    }
}

fn base(letter: &String) -> (r: u32)
    ensures
        r == base_of(letter@),
        2 <= r <= 36,
{
    if *letter == String::from_str("b") {
        2
    } else if *letter == String::from_str("o") {
        8
    } else if *letter == String::from_str("h") {
        16
    } else {
        10
    }
}

/// What a name stands for, from what the three patterns find in it.
pub fn classify(
    slice: &Option<Vec<Option<String>>>,
    constant: &Option<Vec<Option<String>>>,
    name: &Option<String>,
) -> (r: WireToken)
    ensures
        r@ == classified(match_views(*slice), match_views(*constant), found_view(*name)),
{
    match slice {
        Some(g) => match groups_of(g) {
            Some((n, hi, lo)) => {
                let h = parse_radix(hi.as_str(), 10, (usize::MAX - 1) as u128);
                let l = parse_radix(lo.as_str(), 10, usize::MAX as u128);
                match (h, l) {
                    (Some(h), Some(l)) => WireToken::Slice {
                        name: n,
                        lo: l as usize,
                        hi: h as usize + 1,
                    },
                    _ => WireToken::Bad,
                }
            },
            None => WireToken::Bad,
        },
        None => match constant {
            Some(g) => match groups_of(g) {
                Some((w, letter, digits)) => match parse_radix(w.as_str(), 10, 255) {
                    Some(width) => match parse_radix(digits.as_str(), base(&letter), u128::MAX) {
                        Some(value) => WireToken::Number { width: width as u8, value },
                        None => WireToken::Bad,
                    },
                    None => WireToken::Bad,
                },
                None => WireToken::Bad,
            },
            None => match name {
                Some(n) => WireToken::Name(n.clone()),
                None => WireToken::Nothing,
            },
        },
    }
}

/// The port and the registry after the port is bound to what `c` stands
/// for: a slice is registered and appended, a constant and a signal are
/// appended, anything else changes nothing.
pub open spec fn connected(p: PortModel, wires: Map<Seq<char>, WireState>, c: TokenClass) -> (
    PortModel,
    Map<Seq<char>, WireState>,
) {
    match c {
        TokenClass::Slice(n, lo, hi) => (
            PortModel { frags: p.frags.push(Fragment::Wire(n, lo, hi)), ..p },
            bound(wires, role_of(p.dir, p.top), n, lo, hi),
        ),
        TokenClass::Number(w, v) => (
            PortModel { frags: p.frags.push(Fragment::Number(w, v)), ..p },
            wires,
        ),
        TokenClass::Name(n) => (
            PortModel {
                frags: p.frags.push(Fragment::Undefined(n)),
                pending: (p.pending + 1) as usize,
                ..p
            },
            wires,
        ),
        _ => (p, wires),
    }
}

/// The port and the registry after the port is bound to each of
/// `tokens` in turn; the first name that is written with a number that
/// cannot be held, where there is one.
pub open spec fn connected_all(
    p: PortModel,
    wires: Map<Seq<char>, WireState>,
    tokens: Seq<Seq<char>>,
) -> Result<(PortModel, Map<Seq<char>, WireState>), Seq<char>>
    decreases tokens.len(),
{
    if tokens.len() == 0 {
        Ok((p, wires))
    } else {
        match connected_all(p, wires, tokens.drop_last()) {
            Err(t) => Err(t),
            Ok((q, w)) => match token_class(tokens.last()) {
                TokenClass::Bad => Err(tokens.last()),
                c => Ok(connected(q, w, c)),
            },
        }
    }
}

/// What a fragment is read as where the patterns read its text as what
/// it is: a slice, a constant or a signal without a width.
pub open spec fn class_of(f: Fragment) -> TokenClass {
    match f {
        Fragment::Wire(n, lo, hi) => TokenClass::Slice(n, lo, hi),
        Fragment::Number(w, v) => TokenClass::Number(w, v),
        Fragment::Undefined(n) => TokenClass::Name(n),
        Fragment::NONE => TokenClass::Nothing,
    }
}

/// A fragment as a sheet gives it back. A slice that is bit 0 alone is
/// written as its bare name, and so comes back as a signal without a
/// width, which the check of its port then gives one; any other fragment
/// comes back as it is.
pub open spec fn as_read(f: Fragment) -> Fragment {
    match f {
        Fragment::Wire(n, lo, hi) => if hi <= 1 {
            Fragment::Undefined(n)
        } else {
            f
        },
        _ => f,
    }
}

/// The fragments as a sheet gives them back.
pub open spec fn read_fragments(frags: Seq<Fragment>) -> Seq<Fragment> {
    Seq::new(frags.len(), |i: int| as_read(frags[i]))
}

/// Names that the patterns read as the fragments `frags` bind a port to
/// those fragments, in order, and register their slices.
pub proof fn lemma_fragments_read_back(
    p: PortModel,
    wires: Map<Seq<char>, WireState>,
    tokens: Seq<Seq<char>>,
    frags: Seq<Fragment>,
)
    requires
        tokens.len() == frags.len(),
        forall|i: int|
            0 <= i < frags.len() ==> !(#[trigger] frags[i] is NONE) && token_class(tokens[i])
                == class_of(frags[i]),
        p.pending + undefined_count(frags) <= usize::MAX,
    ensures
        connected_all(p, wires, tokens) == Ok::<
            (PortModel, Map<Seq<char>, WireState>),
            Seq<char>,
        >(
            (
                PortModel {
                    frags: p.frags + frags,
                    pending: (p.pending + undefined_count(frags)) as usize,
                    ..p
                },
                rebound(wires, role_of(p.dir, p.top), frags),
            ),
        ),
    decreases tokens.len(),
{
    if tokens.len() == 0 {
        assert(p.frags + frags =~= p.frags);
    } else {
        let before = frags.drop_last();
        let earlier = tokens.drop_last();
        assert forall|i: int| 0 <= i < before.len() implies !(#[trigger] before[i] is NONE)
            && token_class(earlier[i]) == class_of(before[i]) by {
            assert(before[i] == frags[i]);
            assert(earlier[i] == tokens[i]);
        }
        crate::port::lemma_count_bounds(before);
        lemma_fragments_read_back(p, wires, earlier, before);
        let last = frags.last();
        assert(last == frags[frags.len() - 1]);
        assert(tokens.last() == tokens[tokens.len() - 1]);
        assert(token_class(tokens.last()) == class_of(last));
        assert((p.frags + before).push(last) =~= p.frags + frags);
    }
}

/// A port as a sheet gives it: the port, its guards and its comment.
pub struct PortEntry {
    pub port: PortModel,
    pub guards: Seq<Seq<char>>,
    pub info: Seq<char>,
}

/// The entry of a port.
pub open spec fn entry_of(p: VerilogData<VerilogPort>) -> PortEntry {
    PortEntry { port: p.raw()@, guards: p.guards(), info: p.raw().info@ }
}

/// The entries of a list of ports.
pub open spec fn entries_of(ports: Seq<VerilogData<VerilogPort>>) -> Seq<PortEntry> {
    Seq::new(ports.len(), |i: int| entry_of(ports[i]))
}

/// A parameter as plain values: its name, the number it stands for and
/// how its binding is written.
pub struct ParamFacts {
    pub name: Seq<char>,
    pub value: usize,
    pub shown: Seq<char>,
}

/// The parameters as plain values.
pub open spec fn facts_of(params: Seq<Param>) -> Seq<ParamFacts> {
    Seq::new(
        params.len(),
        |i: int|
            ParamFacts {
                name: params[i].name@,
                value: params[i].spec_value(),
                shown: params[i].spec_shown(),
            },
    )
}

/// The names of the parameters.
pub open spec fn fact_names(params: Seq<ParamFacts>) -> Seq<Seq<char>> {
    Seq::new(params.len(), |i: int| params[i].name)
}

/// The place of a name among parameters is its place among their names.
pub proof fn lemma_position_among_names(params: Seq<Param>, name: Seq<char>)
    ensures
        crate::parameter::position_of(params, name) == first_index(
            fact_names(facts_of(params)),
            name,
        ),
    decreases params.len(),
{
    let names = fact_names(facts_of(params));
    if params.len() > 0 {
        assert(names[0] == params[0].name@);
        if params[0].name@ != name {
            lemma_position_among_names(params.skip(1), name);
            assert(fact_names(facts_of(params.skip(1))) =~= names.skip(1));
        }
    }
}

/// What has been read of a sheet.
pub struct SheetModel {
    pub ports: Seq<PortEntry>,
    pub inst_name: Option<Seq<char>>,
    pub params: Seq<ParamFacts>,
    /// Whether the row that starts the ports has been read.
    pub started: bool,
    /// Whether the row that ends the ports has been read.
    pub finished: bool,
    /// The guards of the sheet, from the row that starts the ports.
    pub guards: Seq<Seq<char>>,
    pub wires: Map<Seq<char>, WireState>,
}

/// Nothing read yet.
pub open spec fn blank_sheet(wires: Map<Seq<char>, WireState>) -> SheetModel {
    SheetModel {
        ports: Seq::empty(),
        inst_name: None,
        params: Seq::empty(),
        started: false,
        finished: false,
        guards: Seq::empty(),
        wires,
    }
}

/// The first of `names` that is no identifier.
pub open spec fn first_illegal(names: Seq<Seq<char>>) -> Option<Seq<char>>
    decreases names.len(),
{
    if names.len() == 0 {
        None
    } else {
        match first_illegal(names.drop_last()) {
            Some(n) => Some(n),
            None => if regex_matches(identifier_pattern(), names.last()) {
                None
            } else {
                Some(names.last())
            },
        }
    }
}

/// The parameter of a row: the name in cell 1 bound to the number of
/// cell 2, or, where the enclosing module has parameters, to the one of
/// them that the text of cell 2 names.
pub open spec fn row_param(row: Seq<Cell>, outer: Seq<ParamFacts>, name: Seq<char>)
    -> ParamFacts {
    if outer.len() > 0 {
        match cell_text(row, 2) {
            Some(s) => {
                let at = first_index(fact_names(outer), s);
                if at < outer.len() {
                    ParamFacts { name, value: outer[at].value, shown: outer[at].name }
                } else {
                    ParamFacts { name, value: 0, shown: crate::text::dec_digits(0) }
                }
            },
            None => {
                let n = if 2 < row.len() && row[2] is Number {
                    row[2]->Number_0
                } else {
                    0
                };
                ParamFacts { name, value: n, shown: crate::text::dec_digits(n as nat) }
            },
        }
    } else {
        let n = cell_number(row, 2);
        ParamFacts { name, value: n, shown: crate::text::dec_digits(n as nat) }
    }
}

/// A new port of a sheet: not checked, with the placeholder only.
pub open spec fn sheet_port(dir: PortDir, top: bool, name: Seq<char>, width: usize) -> PortModel {
    PortModel {
        dir,
        top,
        name,
        declared: width,
        frags: seq![Fragment::NONE],
        pending: 0,
        slots: Seq::empty(),
        checked: false,
        registered: false,
    }
}

/// What one more row makes of what has been read. Row 0 gives the name
/// of the instance, row 1 nothing. Before the ports start, a row with
/// text in cell 0 starts them if the text is `Port-name`, and a row
/// without gives a parameter if cell 1 holds its name. After that a row
/// with text in cell 0 gives a port, until the text is `Assing-Logic`.
pub open spec fn row_read(
    m: SheetModel,
    idx: int,
    row: Seq<Cell>,
    top: bool,
    outer: Seq<ParamFacts>,
) -> Result<SheetModel, SheetIssue> {
    if idx == 0 {
        match cell_text(row, 1) {
            Some(s) => Ok(SheetModel { inst_name: Some(s), ..m }),
            None => Ok(m),
        }
    } else if idx == 1 || m.finished {
        Ok(m)
    } else if !m.started {
        match cell_text(row, 0) {
            Some(s) => if s == "Port-name"@ {
                match first_illegal(cell_names(row, 5)) {
                    Some(n) => Err(SheetIssue::IllegalIdentifier(n)),
                    None => Ok(SheetModel { started: true, guards: cell_names(row, 5), ..m }),
                }
            } else {
                Ok(m)
            },
            None => match cell_text(row, 1) {
                Some(name) => if regex_matches(identifier_pattern(), name) {
                    Ok(SheetModel { params: m.params.push(row_param(row, outer, name)), ..m })
                } else {
                    Err(SheetIssue::IllegalIdentifier(name))
                },
                None => Ok(m),
            },
        }
    } else {
        match cell_text(row, 0) {
            None => Ok(m),
            Some(name) => if name == "Assing-Logic"@ {
                Ok(SheetModel { finished: true, ..m })
            } else if !regex_matches(identifier_pattern(), name) {
                Err(SheetIssue::IllegalIdentifier(name))
            } else {
                let dir = match cell_text(row, 1) {
                    Some(s) => PortDir::of_keyword(s),
                    None => PortDir::Unknown,
                };
                let fresh = sheet_port(dir, top, name, cell_number(row, 2));
                match connected_all(fresh, m.wires, cell_names(row, 3)) {
                    Err(t) => Err(SheetIssue::BadLiteral(t)),
                    Ok((p, w)) => Ok(
                        SheetModel {
                            ports: m.ports.push(
                                PortEntry {
                                    port: p,
                                    guards: cell_names(row, 5),
                                    info: match cell_text(row, 4) {
                                        Some(s) => s,
                                        None => Seq::empty(),
                                    },
                                },
                            ),
                            wires: w,
                            ..m
                        },
                    ),
                }
            },
        }
    }
}

/// What the rows make of what has been read, row by row; the first fault
/// ends the reading.
pub open spec fn rows_read(
    m: SheetModel,
    rows: Seq<Seq<Cell>>,
    top: bool,
    outer: Seq<ParamFacts>,
) -> Result<SheetModel, SheetIssue>
    decreases rows.len(),
{
    if rows.len() == 0 {
        Ok(m)
    } else {
        match rows_read(m, rows.drop_last(), top, outer) {
            Err(e) => Err(e),
            Ok(before) => row_read(before, rows.len() - 1, rows.last(), top, outer),
        }
    }
}

/// The rows of a sheet as sequences of cells.
pub open spec fn rows_of(rows: Seq<Vec<Cell>>) -> Seq<Seq<Cell>> {
    Seq::new(rows.len(), |i: int| rows[i]@)
}

/// What has been read of a sheet, as the reader holds it.
pub struct SheetContent {
    pub ports: Vec<VerilogData<VerilogPort>>,
    pub inst_name: Option<String>,
    pub params: Vec<Param>,
    pub started: bool,
    pub finished: bool,
    pub guards: Vec<String>,
}

impl SheetContent {
    /// The content as plain values, with the registry.
    pub open spec fn model(self, wires: Map<Seq<char>, WireState>) -> SheetModel {
        SheetModel {
            ports: entries_of(self.ports@),
            inst_name: match self.inst_name {
                Some(s) => Some(s@),
                None => None,
            },
            params: facts_of(self.params@),
            started: self.started,
            finished: self.finished,
            guards: views(self.guards@),
            wires,
        }
    }

    /// Every port read is well formed and has a plain width.
    pub open spec fn wf(self) -> bool {
        &&& ports_wf(self.ports@)
        &&& forall|i: int|
            0 <= i < self.ports@.len() ==> (#[trigger] self.ports@[i]).raw().width
                is RawWidth
    }
}

/// Reads workbooks.
#[derive(Debug)]
pub struct ExcelReader {
    pub path: String,
}

impl ExcelReader {
    /// A reader of the workbook at `path`.
    pub fn new(path: String) -> (r: ExcelReader)
        ensures
            r.path == path,
    {
        ExcelReader { path }
    }

    fn cell(row: &Vec<Cell>, i: usize) -> (r: Option<&Cell>)
        ensures
            i < row@.len() ==> r == Some(&row@[i as int]),
            i >= row@.len() ==> r is None,
    {
        if i < row.len() {
            Some(&row[i])
        } else {
            None
        }
    }

    /// The text of a cell.
    pub fn extract_string(row: &Vec<Cell>, i: usize) -> (r: Option<String>)
        ensures
            found_view(r) == cell_text(row@, i as int),
    {
        match Self::cell(row, i) {
            Some(Cell::Text(s)) => Some(s.clone()),
            _ => None,
        }
    }

    /// The number of a cell.
    pub fn extract_width(row: &Vec<Cell>, i: usize) -> (r: usize)
        ensures
            r == cell_number(row@, i as int),
    {
        match Self::cell(row, i) {
            Some(Cell::Number(n)) => *n,
            Some(Cell::Text(s)) => match parse_radix(s.as_str(), 10, usize::MAX as u128) {
                Some(v) => v as usize,
                None => 0,
            },
            _ => 0,
        }
    }

    /// The binding of a parameter that cell `i` gives among the
    /// parameters `params`: a number, or the parameter that a text names.
    pub fn extract_param(row: &Vec<Cell>, i: usize, params: &Vec<Param>) -> (r: ParamValue)
        ensures
            match cell_text(row@, i as int) {
                Some(s) => {
                    let at = crate::parameter::position_of(params@, s);
                    if at < params@.len() {
                        r == ParamValue::Param(params@[at])
                    } else {
                        r == ParamValue::Value(0)
                    }
                },
                None => r == ParamValue::Value(
                    if i < row@.len() && row@[i as int] is Number {
                        row@[i as int]->Number_0
                    } else {
                        0
                    },
                ),
            },
    {
        match Self::cell(row, i) {
            Some(Cell::Number(n)) => ParamValue::Value(*n),
            Some(Cell::Text(s)) => ParamValue::gen_from_params(params, s.clone()),
            _ => ParamValue::Value(0),
        }
    }

    /// The direction that a cell names.
    pub fn extract_inout(row: &Vec<Cell>, i: usize) -> (r: PortDir)
        ensures
            r == match cell_text(row@, i as int) {
                Some(s) => PortDir::of_keyword(s),
                None => PortDir::Unknown,
            },
    {
        match Self::cell(row, i) {
            Some(Cell::Text(s)) => PortDir::from_keyword(s),
            _ => PortDir::Unknown,
        }
    }

    /// The names in a text, parted by commas and white space.
    pub fn split(text: &str) -> (r: Vec<String>)
        ensures
            views(r@) == split_names(text@),
    {
        let chars = chars_of(text);
        let mut done: Vec<String> = Vec::new();
        let mut current: Vec<char> = Vec::new();
        let mut i: usize = 0;
        assert(chars@.take(0) =~= Seq::<char>::empty());
        assert(views(done@) =~= Seq::<Seq<char>>::empty());
        while i < chars.len()
            invariant
                i <= chars.len(),
                chars@ == text@,
                views(done@) == scanned(chars@.take(i as int)).done,
                current@ == scanned(chars@.take(i as int)).current,
            decreases chars.len() - i,
        {
            let c = chars[i];
            proof {
                assert(chars@.take(i + 1).drop_last() =~= chars@.take(i as int));
                assert(chars@.take(i + 1).last() == c);
            }
            if c == ',' || Self::space(c) {
                if current.len() > 0 {
                    let ghost before = views(done@);
                    done.push(string_of(&current));
                    assert(views(done@) =~= before.push(current@));
                    current = Vec::new();
                }
            } else {
                current.push(c);
            }
            i += 1;
        }
        assert(chars@.take(chars.len() as int) =~= chars@);
        if current.len() > 0 {
            let ghost before = views(done@);
            done.push(string_of(&current));
            assert(views(done@) =~= before.push(current@));
        }
        done
    }

    fn space(c: char) -> (r: bool)
        ensures
            r == is_space(c),
    {
        let v: u32 = c as u32;
        (0x09 <= v && v <= 0x0D) || v == 0x20 || v == 0x85 || v == 0xA0 || v == 0x1680 || (0x2000
            <= v && v <= 0x200A) || v == 0x2028 || v == 0x2029 || v == 0x202F || v == 0x205F
            || v == 0x3000
    }

    /// The names in a cell.
    pub fn extract_wires(row: &Vec<Cell>, i: usize) -> (r: Vec<String>)
        ensures
            views(r@) == cell_names(row@, i as int),
    {
        match Self::cell(row, i) {
            Some(Cell::Text(s)) => Self::split(s.as_str()),
            _ => {
                let r: Vec<String> = Vec::new();
                assert(views(r@) =~= Seq::<Seq<char>>::empty());
                r
            },
        }
    }

    /// What the name `token` stands for.
    pub fn token(token: &str) -> (r: WireToken)
        ensures
            r@ == token_class(token@),
    {
        let slice = captures("(\\b[a-zA-Z_]\\w*\\b)\\s*\\[\\s*(\\d+)\\s*:\\s*(\\d+)\\s*]", token);
        let constant = captures("(\\d+)'\\s*([bodh])\\s*([0-9a-fA-F_xzXZ]+)", token);
        let name = find("\\b[a-zA-Z_]\\w*\\b", token);
        classify(&slice, &constant, &name)
    }

    /// Binds the port to what `t` stands for.
    pub fn connect(port: &mut VerilogPort, wires: &mut WireBuilder, t: &WireToken)
        requires
            old(port).wf(),
            old(wires).wf(),
        ensures
            final(port).wf(),
            final(wires).wf(),
            (final(port)@, final(wires)@) == connected(old(port)@, old(wires)@, t@),
            *final(port) == (VerilogPort {
                signals: final(port).signals,
                has_undefine: final(port).has_undefine,
                ..*old(port)
            }),
    {
        match t {
            WireToken::Slice { name, lo, hi } => {
                port.connect_partial_signal(wires, name.as_str(), &Range { start: *lo, end: *hi });
            },
            WireToken::Number { width, value } => {
                port.connect_number_signal(*value, *width);
            },
            WireToken::Name(s) => {
                port.connect_undefined_signal(s.as_str());
            },
            _ => {},
        }
    }

    /// Binds the port to each of the names `wires_names` in turn. A name
    /// written with a number that cannot be held ends the binding with a
    /// fault.
    pub fn match_wires_by_re(
        port: &mut VerilogPort,
        wires: &mut WireBuilder,
        wires_names: &Vec<String>,
    ) -> (r: Result<(), SheetError>)
        requires
            old(port).wf(),
            old(wires).wf(),
        ensures
            final(port).wf(),
            final(wires).wf(),
            final(port).inout == old(port).inout,
            final(port).top == old(port).top,
            final(port).name == old(port).name,
            final(port).width == old(port).width,
            final(port).info == old(port).info,
            match connected_all(old(port)@, old(wires)@, views(wires_names@)) {
                Ok((p, w)) => r is Ok && final(port)@ == p && final(wires)@ == w,
                Err(t) => r is Err && r->Err_0@ == SheetIssue::BadLiteral(t),
            },
    {
        let mut i: usize = 0;
        let ghost names = views(wires_names@);
        assert(names.take(0) =~= Seq::<Seq<char>>::empty());
        while i < wires_names.len()
            invariant
                i <= wires_names@.len(),
                names == views(wires_names@),
                port.wf(),
                wires.wf(),
                port.inout == old(port).inout,
                port.top == old(port).top,
                port.name == old(port).name,
                port.width == old(port).width,
                port.info == old(port).info,
                connected_all(old(port)@, old(wires)@, names.take(i as int)) == Ok::<
                    (PortModel, Map<Seq<char>, WireState>),
                    Seq<char>,
                >((port@, wires@)),
            decreases wires_names@.len() - i,
        {
            proof {
                assert(names.take(i + 1).drop_last() =~= names.take(i as int));
                assert(names.take(i + 1).last() == wires_names@[i as int]@);
            }
            let t = Self::token(wires_names[i].as_str());
            match t {
                WireToken::Bad => {
                    proof {
                        lemma_fault_stays(old(port)@, old(wires)@, names, i + 1);
                    }
                    return Err(SheetError::BadLiteral(wires_names[i].clone()));
                },
                _ => {
                    Self::connect(port, wires, &t);
                },
            }
            i += 1;
        }
        assert(names.take(names.len() as int) =~= names);
        Ok(())
    }

    /// Whether `name` is an identifier.
    pub(crate) fn check_name_char(name: &str) -> (r: bool)
        ensures
            r == regex_matches(identifier_pattern(), name@),
    {
        is_match("^\\b[a-zA-Z_]\\w*\\b$", name)
    }

    /// The first of `names` that is no identifier.
    pub fn check_name_chars(names: &Vec<String>) -> (r: Option<String>)
        ensures
            found_view(r) == first_illegal(views(names@)),
    {
        let mut i: usize = 0;
        let ghost all = views(names@);
        assert(all.take(0) =~= Seq::<Seq<char>>::empty());
        while i < names.len()
            invariant
                i <= names@.len(),
                all == views(names@),
                first_illegal(all.take(i as int)) is None,
            decreases names@.len() - i,
        {
            proof {
                assert(all.take(i + 1).drop_last() =~= all.take(i as int));
                assert(all.take(i + 1).last() == names@[i as int]@);
            }
            if !Self::check_name_char(names[i].as_str()) {
                proof {
                    lemma_illegal_stays(all, i + 1);
                }
                return Some(names[i].clone());
            }
            i += 1;
        }
        assert(all.take(all.len() as int) =~= all);
        None
    }

    /// Reads one more row.
    pub fn read_row(
        content: &mut SheetContent,
        idx: usize,
        row: &Vec<Cell>,
        top: bool,
        outer: &Vec<Param>,
        wires: &mut WireBuilder,
    ) -> (r: Result<(), SheetError>)
        requires
            old(content).wf(),
            old(wires).wf(),
        ensures
            final(content).wf(),
            final(wires).wf(),
            match row_read(
                old(content).model(old(wires)@),
                idx as int,
                row@,
                top,
                facts_of(outer@),
            ) {
                Ok(m) => r is Ok && final(content).model(final(wires)@) == m,
                Err(e) => r is Err && r->Err_0@ == e,
            },
    {
        let ghost before = content.model(wires@);
        if idx == 0 {
            match Self::extract_string(row, 1) {
                Some(s) => {
                    content.inst_name = Some(s);
                },
                None => {},
            }
            return Ok(());
        }
        if idx == 1 || content.finished {
            return Ok(());
        }
        if !content.started {
            match Self::extract_string(row, 0) {
                Some(s) => {
                    if s == String::from_str("Port-name") {
                        let guards = Self::extract_wires(row, 5);
                        match Self::check_name_chars(&guards) {
                            Some(n) => {
                                return Err(SheetError::IllegalIdentifier(n));
                            },
                            None => {},
                        }
                        content.started = true;
                        content.guards = guards;
                    }
                },
                None => {
                    match Self::extract_string(row, 1) {
                        Some(token) => {
                            if !Self::check_name_char(token.as_str()) {
                                return Err(SheetError::IllegalIdentifier(token));
                            }
                            let value = if outer.len() > 0 {
                                Self::extract_param(row, 2, outer)
                            } else {
                                ParamValue::Value(Self::extract_width(row, 2))
                            };
                            proof {
                                let text = cell_text(row@, 2).unwrap_or(Seq::empty());
                                crate::parameter::lemma_position_of(outer@, text);
                                lemma_position_among_names(outer@, text);
                            }
                            let ghost old_facts = facts_of(content.params@);
                            let p = Param::new_with_param(token, value);
                            assert(ParamFacts {
                                name: p.name@,
                                value: p.spec_value(),
                                shown: p.spec_shown(),
                            } == row_param(row@, facts_of(outer@), p.name@));
                            content.params.push(p);
                            assert(facts_of(content.params@) =~= old_facts.push(
                                row_param(row@, facts_of(outer@), p.name@),
                            ));
                        },
                        None => {},
                    }
                },
            }
            return Ok(());
        }
        let port_name = match Self::extract_string(row, 0) {
            Some(s) => s,
            None => {
                return Ok(());
            },
        };
        if port_name == String::from_str("Assing-Logic") {
            content.finished = true;
            return Ok(());
        }
        if !Self::check_name_char(port_name.as_str()) {
            return Err(SheetError::IllegalIdentifier(port_name));
        }
        let inout = Self::extract_inout(row, 1);
        let width = Self::extract_width(row, 2);
        let wire_name = Self::extract_wires(row, 3);
        let port_info = Self::extract_string(row, 4);
        let macro_tags = Self::extract_wires(row, 5);
        let mut new_port = VerilogPort::new(inout, port_name.as_str(), Width::RawWidth(width));
        new_port.set_top(top);
        match port_info {
            Some(s) => {
                new_port.set_info_msg(s.as_str());
            },
            None => {},
        }
        assert(new_port@ == sheet_port(inout, top, port_name@, width)) by {
            assert(new_port.undefine_wires_idx@ =~= Seq::<(usize, usize)>::empty());
        }
        match Self::match_wires_by_re(&mut new_port, wires, &wire_name) {
            Ok(_) => {},
            Err(e) => {
                return Err(e);
            },
        }
        let ghost old_entries = entries_of(content.ports@);
        let ghost old_ports = content.ports@;
        let wrapped = wrap_with(new_port, macro_tags);
        content.ports.push(wrapped);
        proof {
            assert(entries_of(content.ports@) =~= old_entries.push(entry_of(wrapped)));
            assert forall|i: int| 0 <= i < content.ports@.len() implies (
            #[trigger] content.ports@[i]).raw().wf() && content.ports@[i].raw().width
                is RawWidth by {
                if i < old_ports.len() {
                    assert(content.ports@[i] == old_ports[i]);
                }
            }
        }
        Ok(())
    }

    /// Reads the rows of a sheet: its ports, the name of the instance,
    /// its parameters and its guards. The ports are bound to their
    /// signals and not checked.
    pub fn extract_port(rows: &Vec<Vec<Cell>>, top: bool, outer: &Vec<Param>, wires: &mut WireBuilder)
        -> (r: Result<SheetContent, SheetError>)
        requires
            old(wires).wf(),
        ensures
            final(wires).wf(),
            match rows_read(blank_sheet(old(wires)@), rows_of(rows@), top, facts_of(outer@)) {
                Ok(m) => r is Ok && r->Ok_0.wf() && r->Ok_0.model(final(wires)@) == m,
                Err(e) => r is Err && r->Err_0@ == e,
            },
    {
        let mut content = SheetContent {
            ports: Vec::new(),
            inst_name: None,
            params: Vec::new(),
            started: false,
            finished: false,
            guards: Vec::new(),
        };
        let ghost all = rows_of(rows@);
        let ghost start = blank_sheet(wires@);
        proof {
            assert(all.take(0) =~= Seq::<Seq<Cell>>::empty());
            assert(entries_of(content.ports@) =~= Seq::<PortEntry>::empty());
            assert(facts_of(content.params@) =~= Seq::<ParamFacts>::empty());
            assert(views(content.guards@) =~= Seq::<Seq<char>>::empty());
        }
        let mut i: usize = 0;
        while i < rows.len()
            invariant
                i <= rows@.len(),
                all == rows_of(rows@),
                start == blank_sheet(old(wires)@),
                content.wf(),
                wires.wf(),
                rows_read(start, all.take(i as int), top, facts_of(outer@)) == Ok::<
                    SheetModel,
                    SheetIssue,
                >(content.model(wires@)),
            decreases rows@.len() - i,
        {
            proof {
                assert(all.take(i + 1).drop_last() =~= all.take(i as int));
                assert(all.take(i + 1).last() == rows@[i as int]@);
            }
            match Self::read_row(&mut content, i, &rows[i], top, outer, wires) {
                Ok(_) => {},
                Err(e) => {
                    proof {
                        lemma_read_fault_stays(start, all, i + 1, top, facts_of(outer@));
                    }
                    return Err(e);
                },
            }
            i += 1;
        }
        assert(all.take(all.len() as int) =~= all);
        Ok(content)
    }
}

/// A module as plain values.
pub struct ModuleFacts {
    pub name: Seq<char>,
    pub inst_name: Option<Seq<char>>,
    pub params: Seq<ParamFacts>,
    pub ports: Seq<PortEntry>,
    pub guards: Seq<Seq<char>>,
}

/// The module `m` under `guards` as plain values.
pub open spec fn plain_facts(m: VerilogModule, guards: Seq<Seq<char>>) -> ModuleFacts {
    ModuleFacts {
        name: m.module_name@,
        inst_name: match m.inst_name {
            Some(s) => Some(s@),
            None => None,
        },
        params: facts_of(m.param_list@),
        ports: entries_of(m.port_list@),
        guards,
    }
}

/// The modules of a list as plain values.
pub open spec fn instance_facts(list: Seq<VerilogData<VerilogModule>>) -> Seq<ModuleFacts> {
    Seq::new(list.len(), |i: int| plain_facts(list[i].raw(), list[i].guards()))
}

/// The ports of the entries.
pub open spec fn entry_models(entries: Seq<PortEntry>) -> Seq<PortModel> {
    Seq::new(entries.len(), |i: int| entries[i].port)
}

/// The entries with the ports replaced by `ports`.
pub open spec fn with_ports(entries: Seq<PortEntry>, ports: Seq<PortModel>) -> Seq<PortEntry> {
    Seq::new(entries.len(), |i: int| PortEntry { port: ports[i], ..entries[i] })
}

/// A registry without wires and a collector without signals.
pub open spec fn empty_world() -> World {
    World {
        wires: Map::empty(),
        names: Seq::empty(),
        groups: Seq::empty(),
        values: Seq::empty(),
        res: Seq::empty(),
    }
}

/// What the first sheet gives: the module itself, its ports read as
/// ports of the enclosing module and registered as such.
pub open spec fn top_read(name: Seq<char>, rows: Seq<Seq<Cell>>) -> Result<
    (ModuleFacts, World, Seq<Option<PortHealth>>),
    SheetIssue,
> {
    match rows_read(blank_sheet(Map::empty()), rows, true, Seq::empty()) {
        Err(e) => Err(e),
        Ok(m) => {
            let (ports, w, found) = crate::module::registered_each(
                entry_models(m.ports),
                World { wires: m.wires, ..empty_world() },
            );
            Ok(
                (
                    ModuleFacts {
                        name,
                        inst_name: m.inst_name,
                        params: m.params,
                        ports: with_ports(m.ports, ports),
                        guards: Seq::empty(),
                    },
                    w,
                    found,
                ),
            )
        },
    }
}

/// What a later sheet gives: an instance, its parameters read among
/// those of the module, its ports checked, under the guards of the
/// sheet.
pub open spec fn instance_read(
    name: Seq<char>,
    rows: Seq<Seq<Cell>>,
    outer: Seq<ParamFacts>,
    w: World,
) -> Result<(ModuleFacts, World, Seq<PortHealth>), SheetIssue> {
    match rows_read(blank_sheet(w.wires), rows, false, outer) {
        Err(e) => Err(e),
        Ok(m) => {
            let (ports, w2, found) = checked_each(
                entry_models(m.ports),
                World { wires: m.wires, ..w },
            );
            Ok(
                (
                    ModuleFacts {
                        name,
                        inst_name: m.inst_name,
                        params: m.params,
                        ports: with_ports(m.ports, ports),
                        guards: m.guards,
                    },
                    w2,
                    found,
                ),
            )
        },
    }
}

/// What the later sheets give, sheet by sheet; the first fault ends the
/// reading.
pub open spec fn instances_read(sheets: Seq<Sheet>, outer: Seq<ParamFacts>, w: World) -> Result<
    (Seq<ModuleFacts>, World, Seq<Seq<PortHealth>>),
    SheetIssue,
>
    decreases sheets.len(),
{
    if sheets.len() == 0 {
        Ok((Seq::empty(), w, Seq::empty()))
    } else {
        match instances_read(sheets.drop_last(), outer, w) {
            Err(e) => Err(e),
            Ok((done, w1, found)) => match instance_read(
                sheets.last().name@,
                rows_of(sheets.last().rows@),
                outer,
                w1,
            ) {
                Err(e) => Err(e),
                Ok((m, w2, f)) => Ok((done.push(m), w2, found.push(f))),
            },
        }
    }
}

/// What a workbook gives.
pub struct BookModel {
    pub top: ModuleFacts,
    pub instances: Seq<ModuleFacts>,
    pub world: World,
    pub top_health: Seq<Option<PortHealth>>,
    pub health: Seq<Seq<PortHealth>>,
}

/// What a workbook gives: the module of the first sheet, with the
/// instances of the other sheets inside it, read into an empty registry
/// and an empty collector. A workbook without sheets gives nothing.
pub open spec fn book_read(sheets: Seq<Sheet>) -> Result<BookModel, SheetIssue> {
    if sheets.len() == 0 {
        Err(SheetIssue::EmptyWorkbook)
    } else {
        match top_read(sheets[0].name@, rows_of(sheets[0].rows@)) {
            Err(e) => Err(e),
            Ok((top, w, top_health)) => match instances_read(sheets.skip(1), top.params, w) {
                Err(e) => Err(e),
                Ok((instances, world, health)) => Ok(
                    BookModel { top, instances, world, top_health, health },
                ),
            },
        }
    }
}

/// Every port has a plain width.
pub open spec fn plain_ports(ports: Seq<VerilogData<VerilogPort>>) -> bool {
    forall|i: int| 0 <= i < ports.len() ==> (#[trigger] ports[i]).raw().width is RawWidth
}

/// Every port of the module and of the instances inside it has a plain
/// width: a module read from a workbook has no symbolic widths.
pub open spec fn plain_module(m: VerilogModule) -> bool {
    &&& plain_ports(m.port_list@)
    &&& forall|i: int|
        0 <= i < m.inst_list@.len() ==> plain_ports((#[trigger] m.inst_list@[i]).raw().port_list@)
}

/// The ports of each module.
pub open spec fn facts_models(instances: Seq<ModuleFacts>) -> Seq<Seq<PortModel>> {
    Seq::new(instances.len(), |i: int| entry_models(instances[i].ports))
}

/// What the last check makes of what a workbook gave. Where no signal is
/// enrolled nothing changes. Otherwise the equations of the world are
/// solved, and the ports of the module and then those of each instance
/// are checked once more.
pub open spec fn last_checked(b: BookModel) -> (
    ModuleFacts,
    Seq<ModuleFacts>,
    World,
    Seq<PortHealth>,
    Seq<Seq<PortHealth>>,
) {
    if b.world.names.len() == 0 {
        (b.top, b.instances, b.world, Seq::empty(), Seq::empty())
    } else {
        let w0 = crate::module::solved_world(b.world);
        let (own, w1, found) = checked_each(entry_models(b.top.ports), w0);
        let (inner, w2, found_inner) = crate::module::checked_groups(
            facts_models(b.instances),
            w1,
        );
        (
            ModuleFacts { ports: with_ports(b.top.ports, own), ..b.top },
            Seq::new(
                b.instances.len(),
                |i: int| ModuleFacts { ports: with_ports(b.instances[i].ports, inner[i]), ..b.instances[i] },
            ),
            w2,
            found,
            found_inner,
        )
    }
}

/// What the checks found while a workbook was read.
#[derive(Debug)]
pub struct BookReport {
    /// For each port of the module what its check found; nothing for a
    /// port without fragments.
    pub top: Vec<Option<PortHealth>>,
    /// For each instance what the checks of its ports found.
    pub instances: Vec<Vec<PortHealth>>,
}

proof fn lemma_entries_follow(
    before: Seq<VerilogData<VerilogPort>>,
    after: Seq<VerilogData<VerilogPort>>,
)
    requires
        crate::module::same_identity(before, after),
    ensures
        entries_of(after) == with_ports(entries_of(before), port_models(after)),
        entry_models(entries_of(before)) == port_models(before),
        forall|i: int|
            0 <= i < before.len() && (#[trigger] before[i]).raw().width is RawWidth
                ==> after[i].raw().width is RawWidth,
{
    assert(entries_of(after) =~= with_ports(entries_of(before), port_models(after)));
    assert(entry_models(entries_of(before)) =~= port_models(before));
}

proof fn lemma_sheets_fault_stays(sheets: Seq<Sheet>, k: int, outer: Seq<ParamFacts>, w: World)
    requires
        0 <= k <= sheets.len(),
        instances_read(sheets.take(k), outer, w) is Err,
    ensures
        instances_read(sheets, outer, w) == instances_read(sheets.take(k), outer, w),
    decreases sheets.len() - k,
{
    if k < sheets.len() {
        assert(sheets.take(k + 1).drop_last() =~= sheets.take(k));
        lemma_sheets_fault_stays(sheets, k + 1, outer, w);
    } else {
        assert(sheets.take(k) =~= sheets);
    }
}

impl ExcelReader {
    /// Reads a workbook into a module. The registry and the collector
    /// are emptied first; the ports of the module are registered as its
    /// ports, the ports of the instances are checked.
    pub fn get_excel_info(
        &self,
        sheets: &Vec<Sheet>,
        wires: &mut WireBuilder,
        collector: &mut UndefineWireCollector,
    ) -> (r: Result<(VerilogModule, BookReport), SheetError>)
        ensures
            final(wires).wf(),
            match book_read(sheets@) {
                Ok(b) => {
                    &&& r is Ok
                    &&& r->Ok_0.0.wf()
                    &&& plain_module(r->Ok_0.0)
                    &&& plain_facts(r->Ok_0.0, Seq::empty()) == b.top
                    &&& instance_facts(r->Ok_0.0.inst_list@) == b.instances
                    &&& crate::port::world(*final(wires), *final(collector)) == b.world
                    &&& r->Ok_0.1.top@ == b.top_health
                    &&& crate::module::findings(r->Ok_0.1.instances@) == b.health
                },
                Err(e) => r is Err && r->Err_0@ == e,
            },
    {
        collector.clear();
        wires.clear();
        if sheets.len() == 0 {
            return Err(SheetError::EmptyWorkbook);
        }
        proof {
            assert(crate::port::world(*wires, *collector) == empty_world()) by {
                assert(collector.names() =~= Seq::<Seq<char>>::empty());
                assert(collector.groups() =~= Seq::<Seq<usize>>::empty());
                assert(collector.value@ =~= Seq::<i64>::empty());
                assert(collector.res@ =~= Seq::<usize>::empty());
            }
        }
        let mut module = VerilogModule::new(sheets[0].name.clone());
        let none: Vec<Param> = Vec::new();
        assert(facts_of(none@) =~= Seq::<ParamFacts>::empty());
        let content = match Self::extract_port(&sheets[0].rows, true, &none, wires) {
            Ok(c) => c,
            Err(e) => {
                return Err(e);
            },
        };
        let ghost read = content.model(wires@);
        let ghost read_ports = content.ports@;
        module.port_list = content.ports;
        module.param_list = content.params;
        module.inst_name = content.inst_name;
        let top_health = crate::module::register_ports(&mut module.port_list, wires, collector);
        proof {
            lemma_entries_follow(read_ports, module.port_list@);
        }
        let ghost top = plain_facts(module, Seq::empty());
        let ghost w_top = crate::port::world(*wires, *collector);
        let ghost rest = sheets@.skip(1);
        let mut instances: Vec<Vec<PortHealth>> = Vec::new();
        let mut k: usize = 1;
        proof {
            assert(rest.take(0) =~= Seq::<Sheet>::empty());
            assert(instance_facts(module.inst_list@) =~= Seq::<ModuleFacts>::empty());
            assert(crate::module::findings(instances@) =~= Seq::<Seq<PortHealth>>::empty());
        }
        while k < sheets.len()
            invariant
                1 <= k <= sheets@.len(),
                rest == sheets@.skip(1),
                wires.wf(),
                module.wf(),
                plain_module(module),
                plain_facts(module, Seq::empty()) == top,
                top_read(sheets@[0].name@, rows_of(sheets@[0].rows@)) == Ok::<
                    (ModuleFacts, World, Seq<Option<PortHealth>>),
                    SheetIssue,
                >((top, w_top, top_health@)),
                instances_read(rest.take(k - 1), top.params, w_top) == Ok::<
                    (Seq<ModuleFacts>, World, Seq<Seq<PortHealth>>),
                    SheetIssue,
                >(
                    (
                        instance_facts(module.inst_list@),
                        crate::port::world(*wires, *collector),
                        crate::module::findings(instances@),
                    ),
                ),
            decreases sheets@.len() - k,
        {
            let sheet = &sheets[k];
            let ghost w1 = crate::port::world(*wires, *collector);
            let ghost done = instance_facts(module.inst_list@);
            let ghost found = crate::module::findings(instances@);
            let ghost prev_list = module.inst_list@;
            proof {
                assert(rest.take(k as int).drop_last() =~= rest.take(k - 1));
                assert(rest.take(k as int).last() == *sheet);
            }
            let mut inst_module = VerilogModule::new(sheet.name.clone());
            let content = match Self::extract_port(&sheet.rows, false, &module.param_list, wires) {
                Ok(c) => c,
                Err(e) => {
                    proof {
                        assert(instance_read(
                            sheet.name@,
                            rows_of(sheet.rows@),
                            top.params,
                            w1,
                        ) is Err);
                        assert(instances_read(rest.take(k as int), top.params, w_top) is Err);
                        lemma_sheets_fault_stays(rest, k as int, top.params, w_top);
                    }
                    return Err(e);
                },
            };
            let ghost read_ports = content.ports@;
            inst_module.port_list = content.ports;
            inst_module.param_list = content.params;
            inst_module.inst_name = content.inst_name;
            let health = check_ports(&mut inst_module.port_list, wires, collector);
            proof {
                lemma_entries_follow(read_ports, inst_module.port_list@);
            }
            let wrapped = wrap_with(inst_module, content.guards);
            instances.push(health);
            module.inst_list.push(wrapped);
            proof {
                assert(instance_facts(module.inst_list@) =~= done.push(
                    plain_facts(wrapped.raw(), wrapped.guards()),
                ));
                assert(crate::module::findings(instances@) =~= found.push(health@));
                assert forall|i: int| 0 <= i < module.inst_list@.len() implies ports_wf(
                    (#[trigger] module.inst_list@[i]).raw().port_list@,
                ) && plain_ports(module.inst_list@[i].raw().port_list@) by {
                    if i < prev_list.len() {
                        assert(module.inst_list@[i] == prev_list[i]);
                    }
                }
            }
            k += 1;
        }
        proof {
            assert(rest.take(rest.len() as int) =~= rest);
        }
        Ok((module, BookReport { top: top_health, instances }))
    }

    /// Reads a workbook into a module, checks the module for the last
    /// time, and renders it: the lines of the module joined by line
    /// breaks.
    pub fn generate_v(
        &self,
        sheets: &Vec<Sheet>,
        wires: &mut WireBuilder,
        collector: &mut UndefineWireCollector,
    ) -> (r: Result<(VerilogModule, BookReport, crate::module::FinalReport, String), SheetError>)
        ensures
            final(wires).wf(),
            match book_read(sheets@) {
                Ok(b) => {
                    let (top, instances, w, found, found_inner) = last_checked(b);
                    &&& r is Ok
                    &&& r->Ok_0.0.wf()
                    &&& plain_module(r->Ok_0.0)
                    &&& plain_facts(r->Ok_0.0, Seq::empty()) == top
                    &&& instance_facts(r->Ok_0.0.inst_list@) == instances
                    &&& crate::port::world(*final(wires), *final(collector)) == w
                    &&& r->Ok_0.1.top@ == b.top_health
                    &&& crate::module::findings(r->Ok_0.1.instances@) == b.health
                    &&& r->Ok_0.2.ports@ == found
                    &&& crate::module::findings(r->Ok_0.2.instances@) == found_inner
                    &&& r->Ok_0.2.solved == if b.world.names.len() > 0 {
                        Some(
                            crate::solve_func::solved(
                                crate::collector::system(
                                    b.world.groups,
                                    b.world.values,
                                    b.world.names.len() as int,
                                ),
                            ) is Some,
                        )
                    } else {
                        None
                    }
                    &&& r->Ok_0.2.wires@.len() == final(wires).names().len()
                    &&& forall|i: int|
                        0 <= i < r->Ok_0.2.wires@.len() ==> crate::wire::reports(
                            #[trigger] r->Ok_0.2.wires@[i],
                            final(wires).names()[i],
                            final(wires)@[final(wires).names()[i]],
                        )
                    &&& r->Ok_0.3@ == crate::text::join_spec(
                        r->Ok_0.0.module_lines(
                            crate::wire::internal_wires(final(wires).names(), final(wires)@),
                        ),
                        "\n"@,
                    )
                },
                Err(e) => r is Err && r->Err_0@ == e,
            },
    {
        let (mut module, report) = match self.get_excel_info(sheets, wires, collector) {
            Ok(x) => x,
            Err(e) => {
                return Err(e);
            },
        };
        let ghost read = module;
        let ghost b = book_read(sheets@)->Ok_0;
        let last = module.final_check(wires, collector);
        proof {
            lemma_entries_follow(read.port_list@, module.port_list@);
            assert(facts_models(b.instances) =~= crate::module::instance_models(read.inst_list@)) by {
                assert forall|i: int| 0 <= i < b.instances.len() implies facts_models(
                    b.instances,
                )[i] == crate::module::instance_models(read.inst_list@)[i] by {
                    assert(b.instances[i] == plain_facts(
                        read.inst_list@[i].raw(),
                        read.inst_list@[i].guards(),
                    ));
                    lemma_entries_follow(
                        read.inst_list@[i].raw().port_list@,
                        read.inst_list@[i].raw().port_list@,
                    );
                }
            }
            if b.world.names.len() > 0 {
                let (top, instances, w, found, found_inner) = last_checked(b);
                let inner = crate::module::instance_models(module.inst_list@);
                assert(instance_facts(module.inst_list@) =~= instances) by {
                    assert forall|i: int| 0 <= i < instances.len() implies instance_facts(
                        module.inst_list@,
                    )[i] == instances[i] by {
                        lemma_entries_follow(
                            read.inst_list@[i].raw().port_list@,
                            module.inst_list@[i].raw().port_list@,
                        );
                        assert(b.instances[i] == plain_facts(
                            read.inst_list@[i].raw(),
                            read.inst_list@[i].guards(),
                        ));
                        assert(inner[i] == port_models(module.inst_list@[i].raw().port_list@));
                    }
                }
            } else {
                assert(crate::module::findings(last.instances@) =~= Seq::<
                    Seq<PortHealth>,
                >::empty());
                assert(last.ports@ =~= Seq::<PortHealth>::empty());
            }
            assert forall|i: int| 0 <= i < module.inst_list@.len() implies plain_ports(
                (#[trigger] module.inst_list@[i]).raw().port_list@,
            ) by {
                lemma_entries_follow(
                    read.inst_list@[i].raw().port_list@,
                    module.inst_list@[i].raw().port_list@,
                );
                assert(plain_ports(read.inst_list@[i].raw().port_list@));
            }
        }
        let lines = module.to_module_string(wires);
        let text = crate::text::join(&lines, "\n");
        Ok((module, report, last, text))
    }
}

/// Once a name cannot be held, more names do not mend it.
proof fn lemma_fault_stays(
    p: PortModel,
    wires: Map<Seq<char>, WireState>,
    tokens: Seq<Seq<char>>,
    k: int,
)
    requires
        0 <= k <= tokens.len(),
        connected_all(p, wires, tokens.take(k)) is Err,
    ensures
        connected_all(p, wires, tokens) == connected_all(p, wires, tokens.take(k)),
    decreases tokens.len() - k,
{
    if k < tokens.len() {
        assert(tokens.take(k + 1).drop_last() =~= tokens.take(k));
        lemma_fault_stays(p, wires, tokens, k + 1);
    } else {
        assert(tokens.take(k) =~= tokens);
    }
}

/// The first name that is no identifier stays the first.
proof fn lemma_illegal_stays(names: Seq<Seq<char>>, k: int)
    requires
        0 <= k <= names.len(),
        first_illegal(names.take(k)) is Some,
    ensures
        first_illegal(names) == first_illegal(names.take(k)),
    decreases names.len() - k,
{
    if k < names.len() {
        assert(names.take(k + 1).drop_last() =~= names.take(k));
        lemma_illegal_stays(names, k + 1);
    } else {
        assert(names.take(k) =~= names);
    }
}

/// Once a row cannot be read, more rows do not mend it.
proof fn lemma_read_fault_stays(
    m: SheetModel,
    rows: Seq<Seq<Cell>>,
    k: int,
    top: bool,
    outer: Seq<ParamFacts>,
)
    requires
        0 <= k <= rows.len(),
        rows_read(m, rows.take(k), top, outer) is Err,
    ensures
        rows_read(m, rows, top, outer) == rows_read(m, rows.take(k), top, outer),
    decreases rows.len() - k,
{
    if k < rows.len() {
        assert(rows.take(k + 1).drop_last() =~= rows.take(k));
        lemma_read_fault_stays(m, rows, k + 1, top, outer);
    } else {
        assert(rows.take(k) =~= rows);
    }
}

} // verus!
