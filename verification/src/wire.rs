//! The wire registry: for every named signal, which bits are driven, which
//! are read, which were driven more than once, and whether the signal is a
//! port of the enclosing module.
//!
//! The registry is modelled as a map from names to `WireState`; its
//! entries are kept in lexicographic order of their names.
use crate::bits::lists;
use crate::bits::span;
use crate::bits::BitSet;
use crate::error::WireError;
use crate::error::WireIssue;
use crate::port::PortDir;
use crate::text::compare;
use crate::text::decimal_usize;
use crate::text::dec_digits;
use crate::text::lemma_lex_lt_asymmetric;
use crate::text::lemma_lex_lt_transitive;
use crate::text::lex_lt;
use crate::text::pad;
use crate::text::pad_right;
use crate::text::repeat;
use crate::text::repeat_char;
use crate::text::Order;
use std::ops::Range;
use std::sync::Arc;
use vstd::prelude::*;
use vstd::std_specs::cmp::PartialEqSpecImpl;

verus! {

/// A named signal.
#[derive(Debug)]
pub struct VerilogWire {
    pub name: String,
    pub port_tag: bool,
}

impl VerilogWire {
    /// An internal wire.
    pub fn new(name: String) -> (r: VerilogWire)
        ensures
            r.name == name,
            !r.port_tag,
    {
        VerilogWire { name, port_tag: false }
    }

    /// A wire that is a port of the enclosing module.
    pub fn new_port(name: String) -> (r: VerilogWire)
        ensures
            r.name == name,
            r.port_tag,
    {
        VerilogWire { name, port_tag: true }
    }

    /// Whether the wire needs a declaration of its own: a port has one
    /// already.
    pub fn need_declaration(&self) -> (r: bool)
        ensures
            r == !self.port_tag,
    {
        !self.port_tag
    }

    /// Marks the wire as a port, or as internal.
    pub fn set_port_tag(&mut self, port_tag: bool)
        ensures
            final(self).port_tag == port_tag,
            final(self).name == old(self).name,
    {
        self.port_tag = port_tag;
    }

    /// The name of the wire.
    pub fn to_string(&self) -> (r: String)
        ensures
            r@ == self.name@,
    {
        self.name.clone()
    }

    /// Whether two wires have the same name.
    pub fn same_name(&self, other: &VerilogWire) -> (r: bool)
        ensures
            r == (self.name@ == other.name@),
    {
        self.name == other.name
    }
}

impl PartialEq for VerilogWire {
    fn eq(&self, other: &Self) -> (r: bool) {
        self.name == other.name
    }
}

impl PartialEqSpecImpl for VerilogWire {
    open spec fn obeys_eq_spec() -> bool {
        true
    }

    open spec fn eq_spec(&self, other: &Self) -> bool {
        self.name@ == other.name@
    }
}

impl Eq for VerilogWire {

}

/// What the registry knows of one wire.
pub struct WireState {
    pub driver: Set<int>,
    pub load: Set<int>,
    pub multi_driver: Set<int>,
    pub port_tag: bool,
}

/// A wire of which nothing is registered yet.
pub open spec fn fresh_state(port_tag: bool) -> WireState {
    WireState {
        driver: Set::empty(),
        load: Set::empty(),
        multi_driver: Set::empty(),
        port_tag,
    }
}

/// The wire after the bits `lo..hi` are registered as driven: those that
/// were driven before are recorded as driven more than once.
pub open spec fn driven(w: WireState, lo: int, hi: int) -> WireState {
    WireState {
        driver: w.driver.union(span(lo, hi)),
        load: w.load,
        multi_driver: w.multi_driver.union(w.driver.intersect(span(lo, hi))),
        port_tag: w.port_tag,
    }
}

/// The wire after the bits `lo..hi` are registered as read.
pub open spec fn loaded(w: WireState, lo: int, hi: int) -> WireState {
    WireState {
        driver: w.driver,
        load: w.load.union(span(lo, hi)),
        multi_driver: w.multi_driver,
        port_tag: w.port_tag,
    }
}

/// The state of `name` in `m`, or that of a new wire, as a registration
/// finds it. A registration as a port marks the wire as a port, whether
/// it was registered before or not; any other leaves the mark of a
/// registered wire as it is.
pub open spec fn state_or_fresh(m: Map<Seq<char>, WireState>, name: Seq<char>, port_tag: bool)
    -> WireState {
    if m.dom().contains(name) {
        WireState { port_tag: m[name].port_tag || port_tag, ..m[name] }
    } else {
        fresh_state(port_tag)
    }
}

/// The largest member of `set`, or zero for the empty set.
pub open spec fn top(set: Set<int>) -> int {
    if set == Set::<int>::empty() {
        0
    } else {
        choose|m: int| set.contains(m) && forall|k: int| #[trigger] set.contains(k) ==> k <= m
    }
}

/// The width of a wire: one more than its highest registered bit.
pub open spec fn spec_width(w: WireState) -> int {
    1 + if top(w.driver) >= top(w.load) {
        top(w.driver)
    } else {
        top(w.load)
    }
}

/// A bit that two registrations both drive is recorded as driven more
/// than once, whatever the wire held before.
pub proof fn lemma_driver_uniqueness(w: WireState, lo1: int, hi1: int, lo2: int, hi2: int, b: int)
    requires
        lo1 <= b < hi1,
        lo2 <= b < hi2,
    ensures
        driven(driven(w, lo1, hi1), lo2, hi2).multi_driver.contains(b),
        driven(driven(w, lo1, hi1), lo2, hi2).driver.contains(b),
{
}

/// A bit registered as driven for the first time is driven and not
/// recorded as driven more than once; what was recorded stays recorded.
pub proof fn lemma_first_driver(w: WireState, lo: int, hi: int, b: int)
    requires
        lo <= b < hi,
        !w.driver.contains(b),
        !w.multi_driver.contains(b),
    ensures
        driven(w, lo, hi).driver.contains(b),
        !driven(w, lo, hi).multi_driver.contains(b),
        w.multi_driver.subset_of(driven(w, lo, hi).multi_driver),
{
}

/// A registration as a port marks the wire as a port, whatever the
/// registry held of it, and leaves the bits of a registered wire as they
/// were; any other registration leaves the mark of a registered wire as
/// it was.
pub proof fn lemma_port_mark(m: Map<Seq<char>, WireState>, name: Seq<char>, lo: int, hi: int)
    ensures
        driven(state_or_fresh(m, name, true), lo, hi).port_tag,
        loaded(state_or_fresh(m, name, true), lo, hi).port_tag,
        m.dom().contains(name) ==> {
            &&& state_or_fresh(m, name, true).driver == m[name].driver
            &&& state_or_fresh(m, name, true).load == m[name].load
            &&& state_or_fresh(m, name, true).multi_driver == m[name].multi_driver
            &&& state_or_fresh(m, name, false) == m[name]
        },
{
}

/// Reading a bit again changes nothing: a wire may have many loads.
pub proof fn lemma_load_twice(w: WireState, lo: int, hi: int)
    ensures
        loaded(loaded(w, lo, hi), lo, hi) == loaded(w, lo, hi),
{
    assert(w.load.union(span(lo, hi)).union(span(lo, hi)) =~= w.load.union(span(lo, hi)));
}

/// The wire `name` is registered, is `declared` bits wide, and is read,
/// for an input port, or driven, for an output port.
pub open spec fn matches_port(
    m: Map<Seq<char>, WireState>,
    name: Seq<char>,
    dir: PortDir,
    declared: usize,
) -> bool {
    &&& m.dom().contains(name)
    &&& spec_width(m[name]) == declared
    &&& match dir {
        PortDir::InPort => m[name].load != Set::<int>::empty(),
        PortDir::OutPort => m[name].driver != Set::<int>::empty(),
        _ => false,
    }
}

/// The fragment is a constant, or the wire it names matches the port;
/// the placeholder stands for the port's own name.
pub open spec fn fragment_found(
    m: Map<Seq<char>, WireState>,
    f: crate::port::Fragment,
    port_name: Seq<char>,
    dir: PortDir,
    declared: usize,
) -> bool {
    match f {
        crate::port::Fragment::Wire(n, _, _) => matches_port(m, n, dir, declared),
        crate::port::Fragment::Undefined(n) => matches_port(m, n, dir, declared),
        crate::port::Fragment::Number(_, _) => true,
        crate::port::Fragment::NONE => matches_port(m, port_name, dir, declared),
    }
}

/// No name occurs twice.
pub open spec fn distinct(names: Seq<Seq<char>>) -> bool {
    forall|i: int, j: int| 0 <= i < j < names.len() ==> names[i] != names[j]
}

/// Each name is lexicographically before those that follow it.
pub open spec fn sorted(names: Seq<Seq<char>>) -> bool {
    forall|i: int, j: int| 0 <= i < j < names.len() ==> lex_lt(names[i], names[j])
}

/// `s` lists the names that `m` maps, each once and in lexicographic
/// order.
pub open spec fn lists_names(s: Seq<Seq<char>>, m: Map<Seq<char>, WireState>) -> bool {
    sorted(s) && forall|n: Seq<char>| s.contains(n) <==> m.dom().contains(n)
}

/// The names that `m` maps, in lexicographic order.
pub open spec fn sorted_names(m: Map<Seq<char>, WireState>) -> Seq<Seq<char>> {
    choose|s: Seq<Seq<char>>| lists_names(s, m)
}

/// Two lists of the names of a map in lexicographic order are the same
/// list.
pub proof fn lemma_sorted_names_unique(
    a: Seq<Seq<char>>,
    b: Seq<Seq<char>>,
    m: Map<Seq<char>, WireState>,
)
    requires
        lists_names(a, m),
        lists_names(b, m),
    ensures
        a == b,
    decreases a.len(),
{
    if a.len() == 0 {
        if b.len() > 0 {
            assert(b.contains(b[0]));
            assert(a.contains(b[0]));
        }
        assert(a =~= b);
    } else {
        let la = a.last();
        assert(a.contains(la));
        assert(b.contains(la));
        let k = choose|k: int| 0 <= k < b.len() && b[k] == la;
        let lb = b.last();
        assert(b.contains(lb));
        assert(a.contains(lb));
        let j = choose|j: int| 0 <= j < a.len() && a[j] == lb;
        if k < b.len() - 1 {
            assert(lex_lt(b[k], b[b.len() - 1]));
            if j < a.len() - 1 {
                assert(lex_lt(a[j], a[a.len() - 1]));
                lemma_lex_lt_asymmetric(la, lb);
            } else {
                lemma_lex_lt_asymmetric(la, lb);
            }
        }
        assert(la == lb);
        let rest = m.remove(la);
        lemma_sorted_distinct(a);
        lemma_sorted_distinct(b);
        assert(lists_names(a.drop_last(), rest)) by {
            assert forall|n: Seq<char>| a.drop_last().contains(n) <==> rest.dom().contains(
                n,
            ) by {
                if a.drop_last().contains(n) {
                    let i = choose|i: int| 0 <= i < a.drop_last().len() && a.drop_last()[i] == n;
                    assert(a[i] == n);
                    assert(a.contains(n));
                    assert(a[i] != a[a.len() - 1]);
                }
                if rest.dom().contains(n) {
                    assert(a.contains(n));
                    let i = choose|i: int| 0 <= i < a.len() && a[i] == n;
                    assert(a.drop_last()[i] == n);
                }
            }
        }
        assert(lists_names(b.drop_last(), rest)) by {
            assert forall|n: Seq<char>| b.drop_last().contains(n) <==> rest.dom().contains(
                n,
            ) by {
                if b.drop_last().contains(n) {
                    let i = choose|i: int| 0 <= i < b.drop_last().len() && b.drop_last()[i] == n;
                    assert(b[i] == n);
                    assert(b.contains(n));
                    assert(b[i] != b[b.len() - 1]);
                }
                if rest.dom().contains(n) {
                    assert(b.contains(n));
                    let i = choose|i: int| 0 <= i < b.len() && b[i] == n;
                    assert(b.drop_last()[i] == n);
                }
            }
        }
        lemma_sorted_names_unique(a.drop_last(), b.drop_last(), rest);
        assert(a =~= a.drop_last().push(la));
        assert(b =~= b.drop_last().push(lb));
    }
}

/// A position of `n` in `names`.
pub open spec fn index_of(names: Seq<Seq<char>>, n: Seq<char>) -> int {
    choose|i: int| 0 <= i < names.len() && names[i] == n
}

/// The map that takes each name to the state at its position.
pub open spec fn model(names: Seq<Seq<char>>, states: Seq<WireState>) -> Map<
    Seq<char>,
    WireState,
> {
    Map::new(|n: Seq<char>| names.contains(n), |n: Seq<char>| states[index_of(names, n)])
}

/// Sorted names are distinct.
pub proof fn lemma_sorted_distinct(names: Seq<Seq<char>>)
    requires
        sorted(names),
    ensures
        distinct(names),
{
    assert forall|i: int, j: int| 0 <= i < j < names.len() implies names[i] != names[j] by {
        lemma_lex_lt_asymmetric(names[i], names[j]);
    }
}

proof fn lemma_model_at(names: Seq<Seq<char>>, states: Seq<WireState>, i: int)
    requires
        distinct(names),
        0 <= i < names.len(),
    ensures
        model(names, states).dom().contains(names[i]),
        model(names, states)[names[i]] == states[i],
        index_of(names, names[i]) == i,
{
    let k = index_of(names, names[i]);
    assert(names.contains(names[i]));
    if k < i {
        assert(names[k] != names[i]);
    } else if i < k {
        assert(names[i] != names[k]);
    }
}

proof fn lemma_model_update(names: Seq<Seq<char>>, states: Seq<WireState>, i: int, st: WireState)
    requires
        distinct(names),
        0 <= i < names.len(),
        states.len() == names.len(),
    ensures
        model(names, states.update(i, st)) == model(names, states).insert(names[i], st),
{
    let a = model(names, states.update(i, st));
    let b = model(names, states).insert(names[i], st);
    assert forall|n: Seq<char>| a.dom().contains(n) <==> b.dom().contains(n) by {
        if n == names[i] {
            assert(names.contains(n));
        }
    }
    assert forall|n: Seq<char>| #[trigger] a.dom().contains(n) implies a[n] == b[n] by {
        let k = index_of(names, n);
        lemma_model_at(names, states, k);
        lemma_model_at(names, states, i);
    }
    assert(a =~= b);
}

proof fn lemma_model_insert(
    names: Seq<Seq<char>>,
    states: Seq<WireState>,
    p: int,
    name: Seq<char>,
    st: WireState,
)
    requires
        distinct(names),
        !names.contains(name),
        0 <= p <= names.len(),
        states.len() == names.len(),
    ensures
        distinct(names.insert(p, name)),
        model(names.insert(p, name), states.insert(p, st)) == model(names, states).insert(
            name,
            st,
        ),
{
    let names2 = names.insert(p, name);
    let states2 = states.insert(p, st);
    assert forall|i: int, j: int| 0 <= i < j < names2.len() implies names2[i] != names2[j] by {
        let oi = if i < p {
            i
        } else {
            i - 1
        };
        let oj = if j < p {
            j
        } else {
            j - 1
        };
        if i == p {
            assert(names2[j] == names[oj]);
            assert(names.contains(names[oj]));
        } else if j == p {
            assert(names2[i] == names[oi]);
            assert(names.contains(names[oi]));
        } else {
            assert(names2[i] == names[oi] && names2[j] == names[oj]);
        }
    }
    let a = model(names2, states2);
    let b = model(names, states).insert(name, st);
    assert forall|n: Seq<char>| a.dom().contains(n) <==> b.dom().contains(n) by {
        if names2.contains(n) {
            let k = choose|k: int| 0 <= k < names2.len() && names2[k] == n;
            if k < p {
                assert(names[k] == n);
            } else if k > p {
                assert(names[k - 1] == n);
            }
        }
        if names.contains(n) {
            let k = choose|k: int| 0 <= k < names.len() && names[k] == n;
            if k < p {
                assert(names2[k] == n);
            } else {
                assert(names2[k + 1] == n);
            }
        }
        if n == name {
            assert(names2[p] == n);
        }
    }
    assert forall|n: Seq<char>| #[trigger] a.dom().contains(n) implies a[n] == b[n] by {
        let k = index_of(names2, n);
        lemma_model_at(names2, states2, k);
        if k == p {
        } else {
            let o = if k < p {
                k
            } else {
                k - 1
            };
            assert(names[o] == n);
            lemma_model_at(names, states, o);
        }
    }
    assert(a =~= b);
}

/// One entry of the registry.
#[derive(Debug)]
pub struct WireEntry {
    pub wire: VerilogWire,
    pub driver: BitSet,
    pub load: BitSet,
    pub multi_driver: BitSet,
}

impl WireEntry {
    /// What the entry says of its wire.
    pub open spec fn state(self) -> WireState {
        WireState {
            driver: self.driver@,
            load: self.load@,
            multi_driver: self.multi_driver@,
            port_tag: self.wire.port_tag,
        }
    }

    fn highest(&self) -> (r: usize)
        ensures
            r == top(self.driver@),
            r < usize::MAX,
    {
        match self.driver.max() {
            Some(m) => m,
            None => 0,
        }
    }

    fn highest_load(&self) -> (r: usize)
        ensures
            r == top(self.load@),
            r < usize::MAX,
    {
        match self.load.max() {
            Some(m) => m,
            None => 0,
        }
    }

    /// The width of the wire.
    pub fn width(&self) -> (r: usize)
        ensures
            r == spec_width(self.state()),
    {
        let d = self.highest();
        let l = self.highest_load();
        if d >= l {
            d + 1
        } else {
            l + 1
        }
    }
}

/// What the check of one wire found: the bits read but not driven, the
/// bits driven but not read, and the bits driven more than once, each in
/// ascending order.
#[derive(Debug)]
pub struct WireReport {
    pub name: String,
    pub undriven: Vec<usize>,
    pub unloaded: Vec<usize>,
    pub multi_driven: Vec<usize>,
}

/// `report` is the report of the wire `name` in state `st`.
pub open spec fn reports(report: WireReport, name: Seq<char>, st: WireState) -> bool {
    &&& report.name@ == name
    &&& lists(report.undriven@, st.load.difference(st.driver))
    &&& lists(report.unloaded@, st.driver.difference(st.load))
    &&& lists(report.multi_driven@, st.multi_driver)
}

/// A wire's report names no undriven bit exactly when every bit read is
/// driven, and no unloaded bit exactly when every bit driven is read.
pub proof fn lemma_report_balance(report: WireReport, name: Seq<char>, st: WireState)
    requires
        reports(report, name, st),
    ensures
        report.undriven@.len() == 0 <==> st.load.subset_of(st.driver),
        report.unloaded@.len() == 0 <==> st.driver.subset_of(st.load),
        report.multi_driven@.len() == 0 <==> st.multi_driver == Set::<int>::empty(),
{
    if report.undriven@.len() > 0 {
        assert(st.load.difference(st.driver).contains(report.undriven@[0] as int));
    }
    if !st.load.subset_of(st.driver) {
        let b = choose|b: int| st.load.contains(b) && !st.driver.contains(b);
        assert(st.load.difference(st.driver).contains(b));
    }
    if report.unloaded@.len() > 0 {
        assert(st.driver.difference(st.load).contains(report.unloaded@[0] as int));
    }
    if !st.driver.subset_of(st.load) {
        let b = choose|b: int| st.driver.contains(b) && !st.load.contains(b);
        assert(st.driver.difference(st.load).contains(b));
    }
    if report.multi_driven@.len() > 0 {
        assert(st.multi_driver.contains(report.multi_driven@[0] as int));
    }
    if report.multi_driven@.len() == 0 {
        assert(st.multi_driver =~= Set::<int>::empty());
    }
}

impl WireReport {
    /// The faults of the report, one for each bit: the undriven bits, then
    /// the unloaded ones, then those driven more than once.
    pub open spec fn issue_list(self) -> Seq<WireIssue> {
        Seq::new(self.undriven@.len(), |i: int| WireIssue::UnDriver(self.name@, self.undriven@[i]))
            + Seq::new(
            self.unloaded@.len(),
            |i: int| WireIssue::Unload(self.name@, self.unloaded@[i]),
        ) + Seq::new(
            self.multi_driven@.len(),
            |i: int| WireIssue::MultiDriver(self.name@, self.multi_driven@[i]),
        )
    }

    /// The faults of the report, one for each bit.
    pub fn errors(&self) -> (r: Vec<WireError>)
        ensures
            crate::error::issues(r@) == self.issue_list(),
    {
        let mut out: Vec<WireError> = Vec::new();
        let ghost first = Seq::new(
            self.undriven@.len(),
            |i: int| WireIssue::UnDriver(self.name@, self.undriven@[i]),
        );
        let ghost second = Seq::new(
            self.unloaded@.len(),
            |i: int| WireIssue::Unload(self.name@, self.unloaded@[i]),
        );
        let ghost third = Seq::new(
            self.multi_driven@.len(),
            |i: int| WireIssue::MultiDriver(self.name@, self.multi_driven@[i]),
        );
        let mut i: usize = 0;
        while i < self.undriven.len()
            invariant
                i <= self.undriven.len(),
                first.len() == self.undriven.len(),
                forall|k: int|
                    0 <= k < first.len() ==> first[k] == WireIssue::UnDriver(
                        self.name@,
                        self.undriven@[k],
                    ),
                crate::error::issues(out@) == first.take(i as int),
            decreases self.undriven.len() - i,
        {
            let ghost prev = out@;
            out.push(WireError::UnDriver(self.name.clone(), self.undriven[i]));
            i += 1;
            assert(crate::error::issues(out@) =~= crate::error::issues(prev).push(
                WireIssue::UnDriver(self.name@, self.undriven@[i - 1]),
            ));
            assert(first.take(i as int) =~= first.take(i - 1).push(first[i - 1]));
            assert(crate::error::issues(out@) =~= first.take(i as int));
        }
        assert(first.take(first.len() as int) =~= first);
        i = 0;
        while i < self.unloaded.len()
            invariant
                i <= self.unloaded.len(),
                second.len() == self.unloaded.len(),
                forall|k: int|
                    0 <= k < second.len() ==> second[k] == WireIssue::Unload(
                        self.name@,
                        self.unloaded@[k],
                    ),
                crate::error::issues(out@) == first + second.take(i as int),
            decreases self.unloaded.len() - i,
        {
            let ghost prev = out@;
            out.push(WireError::Unload(self.name.clone(), self.unloaded[i]));
            i += 1;
            assert(crate::error::issues(out@) =~= crate::error::issues(prev).push(
                WireIssue::Unload(self.name@, self.unloaded@[i - 1]),
            ));
            assert(second.take(i as int) =~= second.take(i - 1).push(second[i - 1]));
            assert(crate::error::issues(out@) =~= first + second.take(i as int));
        }
        assert(second.take(second.len() as int) =~= second);
        i = 0;
        while i < self.multi_driven.len()
            invariant
                i <= self.multi_driven.len(),
                third.len() == self.multi_driven.len(),
                forall|k: int|
                    0 <= k < third.len() ==> third[k] == WireIssue::MultiDriver(
                        self.name@,
                        self.multi_driven@[k],
                    ),
                crate::error::issues(out@) == first + second + third.take(i as int),
            decreases self.multi_driven.len() - i,
        {
            let ghost prev = out@;
            out.push(WireError::MultiDriver(self.name.clone(), self.multi_driven[i]));
            i += 1;
            assert(crate::error::issues(out@) =~= crate::error::issues(prev).push(
                WireIssue::MultiDriver(self.name@, self.multi_driven@[i - 1]),
            ));
            assert(third.take(i as int) =~= third.take(i - 1).push(third[i - 1]));
            assert(crate::error::issues(out@) =~= first + second + third.take(i as int));
        }
        assert(third.take(third.len() as int) =~= third);
        out
    }
}

/// The declaration of an internal wire.
#[derive(Debug)]
pub struct WirePrinter {
    pub name: String,
    pub width: usize,
}

/// The text `wire [W-1:0] name;`, the range left blank for a width below
/// two, the upper bound padded to four characters and the name to twenty.
pub open spec fn wire_line(name: Seq<char>, width: usize) -> Seq<char> {
    "wire "@ + (if width < 2 {
        repeat_char(' ', 8)
    } else {
        "["@ + pad_right(dec_digits((width - 1) as nat), 4) + ":0]"@
    }) + " "@ + pad_right(name, 20) + ";"@
}

impl WirePrinter {
    /// A declaration of the wire `name` with `width` bits.
    pub fn new(name: String, width: usize) -> (r: WirePrinter)
        ensures
            r.name == name,
            r.width == width,
    {
        WirePrinter { name, width }
    }

    /// The lines of the declaration.
    pub fn to_string(&self) -> (r: Vec<String>)
        ensures
            r@.len() == 1,
            r@[0]@ == wire_line(self.name@, self.width),
    {
        let mut line = String::from_str("wire ");
        if self.width < 2 {
            let blank = repeat(' ', 8);
            line.append(blank.as_str());
        } else {
            let upper = decimal_usize(self.width - 1);
            let upper = pad(upper.as_str(), 4);
            let mut range = String::from_str("[");
            range.append(upper.as_str());
            range.append(":0]");
            line.append(range.as_str());
        }
        line.append(" ");
        let name = pad(self.name.as_str(), 20);
        line.append(name.as_str());
        line.append(";");
        assert(line@ =~= wire_line(self.name@, self.width));
        let mut out: Vec<String> = Vec::new();
        out.push(line);
        out
    }
}

/// The internal wires among `names`, in order, each with its width.
pub open spec fn internal_wires(names: Seq<Seq<char>>, m: Map<Seq<char>, WireState>) -> Seq<
    (Seq<char>, int),
>
    decreases names.len(),
{
    if names.len() == 0 {
        Seq::empty()
    } else {
        let rest = internal_wires(names.drop_last(), m);
        let st = m[names.last()];
        if st.port_tag {
            rest
        } else {
            rest.push((names.last(), spec_width(st)))
        }
    }
}

/// The declarations as pairs of name and width.
pub open spec fn printed(v: Seq<WirePrinter>) -> Seq<(Seq<char>, int)> {
    Seq::new(v.len(), |i: int| (v[i].name@, v[i].width as int))
}

/// The number of members of a set that is listed by some ascending list.
pub open spec fn count(set: Set<int>) -> int {
    (choose|s: Seq<usize>| lists(s, set)).len() as int
}

/// The port that an unbalanced wire asks of the enclosing module: an
/// input of as many bits as are read without a driver, else an output of
/// as many bits as are driven without a load; nothing for a balanced
/// wire.
pub open spec fn wanted_port(name: Seq<char>, st: WireState) -> Option<(PortDir, int, Seq<char>)> {
    if !st.load.subset_of(st.driver) {
        Some((PortDir::InPort, count(st.load.difference(st.driver)), name))
    } else if !st.driver.subset_of(st.load) {
        Some((PortDir::OutPort, count(st.driver.difference(st.load)), name))
    } else {
        None
    }
}

/// The ports that the unbalanced wires among `names` ask for, in order.
pub open spec fn unbalanced(names: Seq<Seq<char>>, m: Map<Seq<char>, WireState>) -> Seq<
    (PortDir, int, Seq<char>),
>
    decreases names.len(),
{
    if names.len() == 0 {
        Seq::empty()
    } else {
        let rest = unbalanced(names.drop_last(), m);
        match wanted_port(names.last(), m[names.last()]) {
            Some(p) => rest.push(p),
            None => rest,
        }
    }
}

/// The ports as triples of direction, width and name.
pub open spec fn wanted(v: Seq<(PortDir, usize, String)>) -> Seq<(PortDir, int, Seq<char>)> {
    Seq::new(v.len(), |i: int| (v[i].0, v[i].1 as int, v[i].2@))
}

/// The catalogue of the wires of one module.
#[derive(Debug)]
pub struct WireBuilder {
    wires: Vec<WireEntry>,
}

impl View for WireBuilder {
    type V = Map<Seq<char>, WireState>;

    closed spec fn view(&self) -> Map<Seq<char>, WireState> {
        model(self.names(), self.states())
    }
}

impl WireBuilder {
    /// The names of the wires, in the order in which the registry lists
    /// them.
    pub closed spec fn names(&self) -> Seq<Seq<char>> {
        Seq::new(self.wires@.len(), |i: int| self.wires@[i].wire.name@)
    }

    closed spec fn states(&self) -> Seq<WireState> {
        Seq::new(self.wires@.len(), |i: int| self.wires@[i].state())
    }

    /// The entries are in lexicographic order of their names.
    pub closed spec fn wf(&self) -> bool {
        sorted(self.names())
    }

    /// The registry lists exactly the names it maps, each once and in
    /// lexicographic order.
    pub proof fn lemma_names(&self)
        requires
            self.wf(),
        ensures
            sorted(self.names()),
            distinct(self.names()),
            forall|n: Seq<char>| self.names().contains(n) <==> self@.dom().contains(n),
    {
        lemma_sorted_distinct(self.names());
    }

    /// The registry lists its names in lexicographic order.
    pub proof fn lemma_names_sorted(&self)
        requires
            self.wf(),
        ensures
            self.names() == sorted_names(self@),
            lists_names(self.names(), self@),
    {
        self.lemma_names();
        let s = sorted_names(self@);
        assert(lists_names(self.names(), self@));
        lemma_sorted_names_unique(self.names(), s, self@);
    }

    proof fn lemma_entry(&self, i: int)
        requires
            self.wf(),
            0 <= i < self.wires@.len(),
        ensures
            self@.dom().contains(self.wires@[i].wire.name@),
            self@[self.wires@[i].wire.name@] == self.wires@[i].state(),
            self.names()[i] == self.wires@[i].wire.name@,
    {
        lemma_sorted_distinct(self.names());
        lemma_model_at(self.names(), self.states(), i);
    }

    /// An empty registry.
    pub fn new() -> (r: WireBuilder)
        ensures
            r.wf(),
            r@ == Map::<Seq<char>, WireState>::empty(),
            r.names() == Seq::<Seq<char>>::empty(),
    {
        let r = WireBuilder { wires: Vec::new() };
        assert(r@ =~= Map::<Seq<char>, WireState>::empty());
        assert(r.names() =~= Seq::<Seq<char>>::empty());
        r
    }

    /// Drops every entry.
    pub fn clear(&mut self)
        ensures
            final(self).wf(),
            final(self)@ == Map::<Seq<char>, WireState>::empty(),
            final(self).names() == Seq::<Seq<char>>::empty(),
    {
        self.wires = Vec::new();
        assert(self@ =~= Map::<Seq<char>, WireState>::empty());
        assert(self.names() =~= Seq::<Seq<char>>::empty());
    }

    /// Where `name` stands, or where it belongs if it is not registered.
    fn locate(&self, name: &str) -> (r: (usize, bool))
        requires
            self.wf(),
        ensures
            r.0 <= self.wires@.len(),
            r.1 ==> r.0 < self.wires@.len() && self.names()[r.0 as int] == name@,
            !r.1 ==> !self.names().contains(name@),
            !r.1 ==> forall|j: int| 0 <= j < r.0 ==> lex_lt(self.names()[j], name@),
            !r.1 ==> forall|j: int|
                r.0 <= j < self.wires@.len() ==> lex_lt(name@, self.names()[j]),
    {
        let mut i: usize = 0;
        while i < self.wires.len()
            invariant
                i <= self.wires@.len(),
                self.wf(),
                forall|j: int| 0 <= j < i ==> lex_lt(self.names()[j], name@),
            decreases self.wires@.len() - i,
        {
            match compare(self.wires[i].wire.name.as_str(), name) {
                Order::Before => {},
                Order::Same => {
                    return (i, true);
                },
                Order::After => {
                    proof {
                        let names = self.names();
                        assert forall|j: int| i <= j < names.len() implies lex_lt(
                            name@,
                            names[j],
                        ) by {
                            if j > i {
                                lemma_lex_lt_transitive(name@, names[i as int], names[j]);
                            }
                        }
                        assert(!names.contains(name@)) by {
                            if names.contains(name@) {
                                let k = choose|k: int| 0 <= k < names.len() && names[k] == name@;
                                if k < i {
                                    lemma_lex_lt_asymmetric(names[k], name@);
                                } else {
                                    lemma_lex_lt_asymmetric(name@, names[k]);
                                }
                            }
                        }
                    }
                    return (i, false);
                },
            }
            i += 1;
        }
        proof {
            let names = self.names();
            if names.contains(name@) {
                let k = choose|k: int| 0 <= k < names.len() && names[k] == name@;
                lemma_lex_lt_asymmetric(names[k], name@);
            }
        }
        (i, false)
    }

    /// The position of the entry of `name`, made if there was none.
    fn entry(&mut self, name: &str, port_tag: bool) -> (idx: usize)
        requires
            old(self).wf(),
        ensures
            final(self).wf(),
            idx < final(self).wires@.len(),
            final(self).wires@[idx as int].wire.name@ == name@,
            final(self).wires@[idx as int].state() == state_or_fresh(old(self)@, name@, port_tag),
            final(self)@ == old(self)@.insert(
                name@,
                state_or_fresh(old(self)@, name@, port_tag),
            ),
    {
        let (idx, found) = self.locate(name);
        if found {
            proof {
                self.lemma_entry(idx as int);
            }
            if port_tag {
                self.wires[idx].wire.set_port_tag(true);
            }
            proof {
                let target = state_or_fresh(old(self)@, name@, port_tag);
                self.lemma_names_of_old(old(self));
                assert(self.names() =~= old(self).names());
                assert(self.states() =~= old(self).states().update(idx as int, target));
                lemma_sorted_distinct(self.names());
                lemma_model_update(old(self).names(), old(self).states(), idx as int, target);
            }
            return idx;
        }
        let ghost names = self.names();
        let ghost states = self.states();
        let wire = if port_tag {
            VerilogWire::new_port(String::from_str(name))
        } else {
            VerilogWire::new(String::from_str(name))
        };
        let fresh = WireEntry {
            wire,
            driver: BitSet::new(),
            load: BitSet::new(),
            multi_driver: BitSet::new(),
        };
        self.wires.insert(idx, fresh);
        proof {
            self.lemma_names_of_old(old(self));
            assert(self.names() =~= names.insert(idx as int, name@));
            assert(self.states() =~= states.insert(idx as int, fresh_state(port_tag)));
            lemma_sorted_distinct(names);
            lemma_model_insert(names, states, idx as int, name@, fresh_state(port_tag));
            assert(!old(self)@.dom().contains(name@));
            assert forall|i: int, j: int| 0 <= i < j < self.names().len() implies lex_lt(
                self.names()[i],
                self.names()[j],
            ) by {
                let oi = if i < idx {
                    i
                } else {
                    i - 1
                };
                let oj = if j < idx {
                    j
                } else {
                    j - 1
                };
                if i != idx && j != idx {
                    assert(self.names()[i] == names[oi] && self.names()[j] == names[oj]);
                } else if i == idx {
                    assert(self.names()[j] == names[oj]);
                } else {
                    assert(self.names()[i] == names[oi]);
                }
            }
        }
        idx
    }

    proof fn lemma_names_of_old(&self, before: &WireBuilder)
        ensures
            before.names() == Seq::new(
                before.wires@.len(),
                |i: int| before.wires@[i].wire.name@,
            ),
            before@ == model(before.names(), before.states()),
    {
    }

    fn handle(&self, idx: usize) -> (r: Arc<VerilogWire>)
        requires
            idx < self.wires@.len(),
        ensures
            r.name@ == self.wires@[idx as int].wire.name@,
            r.port_tag == self.wires@[idx as int].wire.port_tag,
    {
        Arc::new(
            VerilogWire {
                name: self.wires[idx].wire.name.clone(),
                port_tag: self.wires[idx].wire.port_tag,
            },
        )
    }

    fn drive(&mut self, idx: usize, range: &Range<usize>)
        requires
            old(self).wf(),
            idx < old(self).wires@.len(),
        ensures
            final(self).wf(),
            final(self).wires@.len() == old(self).wires@.len(),
            final(self).wires@[idx as int].wire == old(self).wires@[idx as int].wire,
            final(self)@ == old(self)@.insert(
                old(self).wires@[idx as int].wire.name@,
                driven(old(self).wires@[idx as int].state(), range.start as int, range.end as int),
            ),
    {
        let ghost before = self.wires@;
        let ghost st = before[idx as int].state();
        let ghost lo = range.start as int;
        let mut i: usize = range.start;
        assert(st.driver.union(span(lo, lo)) =~= st.driver);
        assert(st.multi_driver.union(st.driver.intersect(span(lo, lo))) =~= st.multi_driver);
        while i < range.end
            invariant
                lo == range.start,
                lo <= i,
                i == lo || i <= range.end,
                self.wires@.len() == before.len(),
                idx < before.len(),
                forall|j: int| 0 <= j < before.len() && j != idx ==> self.wires@[j] == before[j],
                self.wires@[idx as int].wire == before[idx as int].wire,
                self.wires@[idx as int].load == before[idx as int].load,
                st == before[idx as int].state(),
                self.wires@[idx as int].driver@ == st.driver.union(span(lo, i as int)),
                self.wires@[idx as int].multi_driver@ == st.multi_driver.union(
                    st.driver.intersect(span(lo, i as int)),
                ),
            decreases range.end - i,
        {
            let ghost d0 = self.wires@[idx as int].driver@;
            let ghost m0 = self.wires@[idx as int].multi_driver@;
            let fresh = self.wires[idx].driver.insert(i);
            if !fresh {
                self.wires[idx].multi_driver.insert(i);
            }
            proof {
                assert(d0.insert(i as int) =~= st.driver.union(span(lo, i + 1)));
                if fresh {
                    assert(!st.driver.contains(i as int));
                    assert(m0 =~= st.multi_driver.union(st.driver.intersect(span(lo, i + 1))));
                } else {
                    assert(st.driver.contains(i as int));
                    assert(m0.insert(i as int) =~= st.multi_driver.union(
                        st.driver.intersect(span(lo, i + 1)),
                    ));
                }
            }
            i += 1;
        }
        proof {
            let hi = range.end as int;
            assert(span(lo, i as int) =~= span(lo, hi));
            let target = driven(st, lo, hi);
            assert(self.wires@[idx as int].state() == target);
            self.lemma_names_of_old(old(self));
            assert(self.names() =~= old(self).names());
            assert(self.states() =~= old(self).states().update(idx as int, target));
            lemma_sorted_distinct(self.names());
            lemma_model_update(old(self).names(), old(self).states(), idx as int, target);
        }
    }

    fn read(&mut self, idx: usize, range: &Range<usize>)
        requires
            old(self).wf(),
            idx < old(self).wires@.len(),
        ensures
            final(self).wf(),
            final(self).wires@.len() == old(self).wires@.len(),
            final(self).wires@[idx as int].wire == old(self).wires@[idx as int].wire,
            final(self)@ == old(self)@.insert(
                old(self).wires@[idx as int].wire.name@,
                loaded(old(self).wires@[idx as int].state(), range.start as int, range.end as int),
            ),
    {
        let ghost before = self.wires@;
        let ghost st = before[idx as int].state();
        let ghost lo = range.start as int;
        let mut i: usize = range.start;
        assert(st.load.union(span(lo, lo)) =~= st.load);
        while i < range.end
            invariant
                lo == range.start,
                lo <= i,
                i == lo || i <= range.end,
                self.wires@.len() == before.len(),
                idx < before.len(),
                forall|j: int| 0 <= j < before.len() && j != idx ==> self.wires@[j] == before[j],
                self.wires@[idx as int].wire == before[idx as int].wire,
                self.wires@[idx as int].driver == before[idx as int].driver,
                self.wires@[idx as int].multi_driver == before[idx as int].multi_driver,
                st == before[idx as int].state(),
                self.wires@[idx as int].load@ == st.load.union(span(lo, i as int)),
            decreases range.end - i,
        {
            let ghost l0 = self.wires@[idx as int].load@;
            self.wires[idx].load.insert(i);
            proof {
                assert(l0.insert(i as int) =~= st.load.union(span(lo, i + 1)));
            }
            i += 1;
        }
        proof {
            let hi = range.end as int;
            assert(span(lo, i as int) =~= span(lo, hi));
            let target = loaded(st, lo, hi);
            assert(self.wires@[idx as int].state() == target);
            self.lemma_names_of_old(old(self));
            assert(self.names() =~= old(self).names());
            assert(self.states() =~= old(self).states().update(idx as int, target));
            lemma_sorted_distinct(self.names());
            lemma_model_update(old(self).names(), old(self).states(), idx as int, target);
        }
    }

    /// Registers the bits `range` of the wire `name` as driven; a bit that
    /// was driven already is recorded as driven more than once. The wire
    /// is made, as an internal one, if it was not registered.
    pub fn add_driver_wire(&mut self, name: &str, range: &Range<usize>) -> (r: Arc<VerilogWire>)
        requires
            old(self).wf(),
        ensures
            final(self).wf(),
            final(self)@ == old(self)@.insert(
                name@,
                driven(
                    state_or_fresh(old(self)@, name@, false),
                    range.start as int,
                    range.end as int,
                ),
            ),
            r.name@ == name@,
            r.port_tag == final(self)@[name@].port_tag,
    {
        let idx = self.entry(name, false);
        let ghost mid = self@;
        self.drive(idx, range);
        assert(self@ =~= old(self)@.insert(
            name@,
            driven(
                state_or_fresh(old(self)@, name@, false),
                range.start as int,
                range.end as int,
            ),
        ));
        self.handle(idx)
    }

    /// Registers the bits `range` of the wire `name` as read. The wire is
    /// made, as an internal one, if it was not registered.
    pub fn add_load_wire(&mut self, name: &str, range: &Range<usize>) -> (r: Arc<VerilogWire>)
        requires
            old(self).wf(),
        ensures
            final(self).wf(),
            final(self)@ == old(self)@.insert(
                name@,
                loaded(
                    state_or_fresh(old(self)@, name@, false),
                    range.start as int,
                    range.end as int,
                ),
            ),
            r.name@ == name@,
            r.port_tag == final(self)@[name@].port_tag,
    {
        let idx = self.entry(name, false);
        self.read(idx, range);
        assert(self@ =~= old(self)@.insert(
            name@,
            loaded(
                state_or_fresh(old(self)@, name@, false),
                range.start as int,
                range.end as int,
            ),
        ));
        self.handle(idx)
    }

    /// As `add_driver_wire`, but the wire is marked as a port of the
    /// enclosing module, whether it was registered before or not.
    pub fn add_driver_wire_asport(&mut self, name: &str, range: &Range<usize>) -> (r: Arc<
        VerilogWire,
    >)
        requires
            old(self).wf(),
        ensures
            final(self).wf(),
            final(self)@ == old(self)@.insert(
                name@,
                driven(
                    state_or_fresh(old(self)@, name@, true),
                    range.start as int,
                    range.end as int,
                ),
            ),
            final(self)@[name@].port_tag,
            r.name@ == name@,
            r.port_tag,
    {
        let idx = self.entry(name, true);
        self.drive(idx, range);
        assert(self@ =~= old(self)@.insert(
            name@,
            driven(
                state_or_fresh(old(self)@, name@, true),
                range.start as int,
                range.end as int,
            ),
        ));
        self.handle(idx)
    }

    /// As `add_load_wire`, but the wire is marked as a port of the
    /// enclosing module, whether it was registered before or not.
    pub fn add_load_wire_asport(&mut self, name: &str, range: &Range<usize>) -> (r: Arc<
        VerilogWire,
    >)
        requires
            old(self).wf(),
        ensures
            final(self).wf(),
            final(self)@ == old(self)@.insert(
                name@,
                loaded(
                    state_or_fresh(old(self)@, name@, true),
                    range.start as int,
                    range.end as int,
                ),
            ),
            final(self)@[name@].port_tag,
            r.name@ == name@,
            r.port_tag,
    {
        let idx = self.entry(name, true);
        self.read(idx, range);
        assert(self@ =~= old(self)@.insert(
            name@,
            loaded(
                state_or_fresh(old(self)@, name@, true),
                range.start as int,
                range.end as int,
            ),
        ));
        self.handle(idx)
    }

    /// The width of the wire `name`: one more than its highest registered
    /// bit.
    pub fn get_width(&self, name: &str) -> (r: Result<usize, WireError>)
        requires
            self.wf(),
        ensures
            self@.dom().contains(name@) ==> r == Ok::<usize, WireError>(
                spec_width(self@[name@]) as usize,
            ) && spec_width(self@[name@]) <= usize::MAX,
            !self@.dom().contains(name@) ==> r is Err && r->Err_0@ == WireIssue::UnknownWire(
                name@,
            ),
    {
        let (idx, found) = self.locate(name);
        proof {
            self.lemma_names();
        }
        if found {
            proof {
                self.lemma_entry(idx as int);
            }
            Ok(self.wires[idx].width())
        } else {
            Err(WireError::UnknownWire(String::from_str(name)))
        }
    }

    fn judge(&self, name: &str, dir: PortDir, declared: usize) -> (r: bool)
        requires
            self.wf(),
        ensures
            r == matches_port(self@, name@, dir, declared),
    {
        let (idx, found) = self.locate(name);
        proof {
            self.lemma_names();
        }
        if !found {
            return false;
        }
        proof {
            self.lemma_entry(idx as int);
        }
        let e = &self.wires[idx];
        if e.width() != declared {
            return false;
        }
        match dir {
            PortDir::InPort => !e.load.is_empty(),
            PortDir::OutPort => !e.driver.is_empty(),
            _ => false,
        }
    }

    /// Whether the registry knows a wire that `port` could stand for: a
    /// wire that a fragment of the port names, or one of the port's own
    /// name, as wide as the port, and read if the port is an input or
    /// driven if it is an output. A constant among the fragments counts
    /// as found.
    pub fn find_wire_in(&self, port: &crate::port::VerilogPort) -> (r: bool)
        requires
            self.wf(),
        ensures
            r == exists|i: int|
                0 <= i < port.fragments().len() && #[trigger] fragment_found(
                    self@,
                    port.fragments()[i],
                    port.name@,
                    port.inout,
                    port.width.value(),
                ),
    {
        let declared = port.width.width();
        let mut i: usize = 0;
        while i < port.signals.len()
            invariant
                i <= port.signals@.len(),
                self.wf(),
                declared == port.width.value(),
                forall|j: int|
                    0 <= j < i ==> !#[trigger] fragment_found(
                        self@,
                        port.fragments()[j],
                        port.name@,
                        port.inout,
                        declared,
                    ),
            decreases port.signals@.len() - i,
        {
            assert(port.fragments()[i as int] == port.signals@[i as int]@);
            let hit = match &port.signals[i] {
                crate::port::VerilogValue::Wire(w, _range) => self.judge(
                    w.name.as_str(),
                    port.inout,
                    declared,
                ),
                crate::port::VerilogValue::UndefinedWire(s) => self.judge(
                    s.as_str(),
                    port.inout,
                    declared,
                ),
                crate::port::VerilogValue::Number { .. } => true,
                crate::port::VerilogValue::NONE => self.judge(
                    port.name.as_str(),
                    port.inout,
                    declared,
                ),
            };
            if hit {
                assert(fragment_found(
                    self@,
                    port.fragments()[i as int],
                    port.name@,
                    port.inout,
                    port.width.value(),
                ));
                return true;
            }
            i += 1;
        }
        false
    }

    /// Whether a wire of this name is registered.
    pub fn contains(&self, name: &str) -> (r: bool)
        requires
            self.wf(),
        ensures
            r == self@.dom().contains(name@),
    {
        let (_, found) = self.locate(name);
        proof {
            self.lemma_names();
        }
        found
    }

    /// The report of every wire, in the order of the names: which bits
    /// are read but not driven, driven but not read, and driven more than
    /// once. A wire's report is free of undriven bits exactly when all
    /// that is read of it is driven, and likewise for unloaded bits.
    pub fn check_health(&self) -> (r: Vec<WireReport>)
        requires
            self.wf(),
        ensures
            r@.len() == self.names().len(),
            forall|i: int|
                0 <= i < r@.len() ==> reports(
                    #[trigger] r@[i],
                    self.names()[i],
                    self@[self.names()[i]],
                ),
            forall|i: int|
                0 <= i < r@.len() ==> (#[trigger] r@[i].undriven@.len() == 0
                    <==> self@[self.names()[i]].load.subset_of(self@[self.names()[i]].driver)),
            forall|i: int|
                0 <= i < r@.len() ==> (#[trigger] r@[i].unloaded@.len() == 0
                    <==> self@[self.names()[i]].driver.subset_of(self@[self.names()[i]].load)),
    {
        let mut out: Vec<WireReport> = Vec::new();
        let mut i: usize = 0;
        while i < self.wires.len()
            invariant
                i <= self.wires@.len(),
                self.wf(),
                out@.len() == i,
                forall|k: int|
                    0 <= k < i ==> reports(
                        #[trigger] out@[k],
                        self.names()[k],
                        self@[self.names()[k]],
                    ),
            decreases self.wires@.len() - i,
        {
            let e = &self.wires[i];
            let report = WireReport {
                name: e.wire.name.clone(),
                undriven: e.load.minus(&e.driver),
                unloaded: e.driver.minus(&e.load),
                multi_driven: e.multi_driver.members(),
            };
            proof {
                self.lemma_entry(i as int);
            }
            out.push(report);
            i += 1;
        }
        proof {
            assert forall|k: int| 0 <= k < out@.len() implies (#[trigger] out@[k].undriven@.len()
                == 0 <==> self@[self.names()[k]].load.subset_of(self@[self.names()[k]].driver)) by {
                lemma_report_balance(out@[k], self.names()[k], self@[self.names()[k]]);
            }
            assert forall|k: int| 0 <= k < out@.len() implies (#[trigger] out@[k].unloaded@.len()
                == 0 <==> self@[self.names()[k]].driver.subset_of(self@[self.names()[k]].load)) by {
                lemma_report_balance(out@[k], self.names()[k], self@[self.names()[k]]);
            }
        }
        out
    }

    /// The wires that need a declaration, in the order of the names, each
    /// with its width.
    pub fn traverse_unport_wires(&self) -> (r: Vec<WirePrinter>)
        requires
            self.wf(),
        ensures
            printed(r@) == internal_wires(self.names(), self@),
    {
        let mut res: Vec<WirePrinter> = Vec::new();
        let mut i: usize = 0;
        let ghost names = self.names();
        assert(names.take(0) =~= Seq::<Seq<char>>::empty());
        assert(printed(res@) =~= Seq::<(Seq<char>, int)>::empty());
        while i < self.wires.len()
            invariant
                i <= self.wires@.len(),
                self.wf(),
                names == self.names(),
                names.len() == self.wires@.len(),
                printed(res@) == internal_wires(names.take(i as int), self@),
            decreases self.wires@.len() - i,
        {
            proof {
                self.lemma_entry(i as int);
                assert(names.take(i + 1).drop_last() =~= names.take(i as int));
                assert(names.take(i + 1).last() == names[i as int]);
            }
            let ghost before = printed(res@);
            if self.wires[i].wire.need_declaration() {
                let name = self.wires[i].wire.name.clone();
                let width = self.wires[i].width();
                res.push(WirePrinter::new(name, width));
                assert(printed(res@) =~= before.push((names[i as int], width as int)));
            }
            i += 1;
        }
        assert(names.take(names.len() as int) =~= names);
        res
    }

    /// For every wire that is not balanced, in the order of the names, the
    /// port it asks of the enclosing module: an input for a wire with
    /// undriven bits, else an output for one with unloaded bits, as wide
    /// as there are such bits.
    pub fn traverse_unload_undriven(&self) -> (r: Vec<(PortDir, usize, String)>)
        requires
            self.wf(),
        ensures
            wanted(r@) == unbalanced(self.names(), self@),
    {
        let mut res: Vec<(PortDir, usize, String)> = Vec::new();
        let mut i: usize = 0;
        let ghost names = self.names();
        assert(names.take(0) =~= Seq::<Seq<char>>::empty());
        assert(wanted(res@) =~= Seq::<(PortDir, int, Seq<char>)>::empty());
        while i < self.wires.len()
            invariant
                i <= self.wires@.len(),
                self.wf(),
                names == self.names(),
                names.len() == self.wires@.len(),
                wanted(res@) == unbalanced(names.take(i as int), self@),
            decreases self.wires@.len() - i,
        {
            proof {
                self.lemma_entry(i as int);
                assert(names.take(i + 1).drop_last() =~= names.take(i as int));
                assert(names.take(i + 1).last() == names[i as int]);
            }
            let ghost before = wanted(res@);
            let ghost st = self@[names[i as int]];
            let e = &self.wires[i];
            let undriven = e.load.minus(&e.driver);
            let unload = e.driver.minus(&e.load);
            proof {
                lemma_count(undriven@, st.load.difference(st.driver));
                lemma_count(unload@, st.driver.difference(st.load));
                if undriven@.len() > 0 {
                    assert(st.load.difference(st.driver).contains(undriven@[0] as int));
                }
                if !st.load.subset_of(st.driver) {
                    let b = choose|b: int| st.load.contains(b) && !st.driver.contains(b);
                    assert(st.load.difference(st.driver).contains(b));
                }
                if unload@.len() > 0 {
                    assert(st.driver.difference(st.load).contains(unload@[0] as int));
                }
                if !st.driver.subset_of(st.load) {
                    let b = choose|b: int| st.driver.contains(b) && !st.load.contains(b);
                    assert(st.driver.difference(st.load).contains(b));
                }
            }
            if undriven.len() > 0 {
                res.push((PortDir::InPort, undriven.len(), e.wire.name.clone()));
                assert(wanted(res@) =~= before.push(
                    (PortDir::InPort, undriven@.len() as int, names[i as int]),
                ));
            } else if unload.len() > 0 {
                res.push((PortDir::OutPort, unload.len(), e.wire.name.clone()));
                assert(wanted(res@) =~= before.push(
                    (PortDir::OutPort, unload@.len() as int, names[i as int]),
                ));
            }
            i += 1;
        }
        assert(names.take(names.len() as int) =~= names);
        res
    }
}

/// An ascending list of a set has as many entries as the set has members.
pub proof fn lemma_count(s: Seq<usize>, set: Set<int>)
    requires
        lists(s, set),
    ensures
        count(set) == s.len(),
{
    let c = choose|c: Seq<usize>| lists(c, set);
    crate::bits::lemma_lists_unique(s, c, set);
}

} // verus!
