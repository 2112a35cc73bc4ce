//! The collector of signals that ports name without a width, and of the
//! equations that the ports put on those widths.
//!
//! A port with several such signals enrols each of them and adds one
//! equation: the widths of the signals it names, each as often as it names
//! it, add up to what the port has left. Solving the equations gives every
//! enrolled signal its width.
use crate::solve_func::ints;
use crate::solve_func::lemma_dot_bumped;
use crate::solve_func::lemma_dot_zero;
use crate::solve_func::matrix;
use crate::solve_func::range_dot;
use crate::solve_func::solved;
use crate::solve_func::solves;
use crate::solve_func::unknowns;
use crate::solve_func::widths;
use crate::solve_func::SolveFunc;
use crate::text::find;
use crate::text::first_index;
use crate::text::lemma_first_index;
use crate::text::views;
use vstd::prelude::*;

verus! {

/// The unknown widths of one traversal and the equations on them.
#[derive(Debug)]
pub struct UndefineWireCollector {
    /// The enrolled signals; the position of a name is its index.
    pub wires: Vec<String>,
    /// For each equation, the indices of the signals it names.
    pub func_groups: Vec<Vec<usize>>,
    /// For each equation, its right-hand side.
    pub value: Vec<i64>,
    /// The widths found by the solver, by index; empty until then.
    pub res: Vec<usize>,
}

/// The coefficients of one equation over `n` unknowns: how often the
/// group names each unknown. An index that is no unknown counts for
/// nothing, and a count stops at the largest coefficient.
pub open spec fn coefficients(group: Seq<usize>, n: int) -> Seq<int>
    decreases group.len(),
{
    if group.len() == 0 {
        Seq::new(n as nat, |j: int| 0int)
    } else {
        let before = coefficients(group.drop_last(), n);
        let c = group.last() as int;
        if c < n && before[c] < i64::MAX {
            before.update(c, before[c] + 1)
        } else {
            before
        }
    }
}

/// The augmented matrix of the equations: a row of coefficients and a
/// right-hand side for each group.
pub open spec fn system(groups: Seq<Seq<usize>>, values: Seq<i64>, n: int) -> Seq<Seq<int>> {
    Seq::new(
        groups.len(),
        |g: int|
            coefficients(groups[g], n).push(
                if g < values.len() {
                    values[g] as int
                } else {
                    0
                },
            ),
    )
}

/// The values at the places that `group` names, added up, each as often
/// as the group names its place.
pub open spec fn group_widths(group: Seq<usize>, x: Seq<int>) -> int
    decreases group.len(),
{
    if group.len() == 0 {
        0
    } else {
        group_widths(group.drop_last(), x) + x[group.last() as int]
    }
}

/// The left-hand side of an equation is the sum of the widths of the
/// signals that its group names, each as often as it is named.
pub proof fn lemma_coefficients(group: Seq<usize>, x: Seq<int>)
    requires
        group.len() <= i64::MAX,
        forall|t: int| 0 <= t < group.len() ==> (#[trigger] group[t]) < x.len(),
    ensures
        coefficients(group, x.len() as int).len() == x.len(),
        forall|j: int|
            0 <= j < x.len() ==> 0 <= #[trigger] coefficients(group, x.len() as int)[j]
                <= group.len(),
        range_dot(coefficients(group, x.len() as int), x, 0, x.len() as int) == group_widths(
            group,
            x,
        ),
    decreases group.len(),
{
    let n = x.len() as int;
    if group.len() == 0 {
        lemma_dot_zero(coefficients(group, n), x, 0, n);
    } else {
        let rest = group.drop_last();
        assert forall|t: int| 0 <= t < rest.len() implies (#[trigger] rest[t]) < x.len() by {
            assert(rest[t] == group[t]);
        }
        lemma_coefficients(rest, x);
        let before = coefficients(rest, n);
        let c = group.last() as int;
        assert(group.last() == group[group.len() - 1]);
        assert(before[c] <= rest.len());
        lemma_dot_bumped(before, x, c, 0, n);
    }
}

impl UndefineWireCollector {
    /// The names of the enrolled signals, by index.
    pub open spec fn names(&self) -> Seq<Seq<char>> {
        views(self.wires@)
    }

    /// The groups of indices, one for each equation.
    pub open spec fn groups(&self) -> Seq<Seq<usize>> {
        Seq::new(self.func_groups@.len(), |i: int| self.func_groups@[i]@)
    }

    /// The equations as an augmented matrix.
    pub open spec fn equations(&self) -> Seq<Seq<int>> {
        system(self.groups(), self.value@, self.wires@.len() as int)
    }

    /// The widths found, as integers.
    pub open spec fn solution(&self) -> Seq<int> {
        widths(self.res@)
    }

    /// A collector with no signal and no equation.
    pub fn new() -> (r: UndefineWireCollector)
        ensures
            r.wires@.len() == 0,
            r.func_groups@.len() == 0,
            r.value@.len() == 0,
            r.res@.len() == 0,
    {
        UndefineWireCollector {
            wires: Vec::new(),
            func_groups: Vec::new(),
            value: Vec::new(),
            res: Vec::new(),
        }
    }

    /// The index of the signal `wire`, which is enrolled if it was not.
    pub fn add_wires(&mut self, wire: &str) -> (r: usize)
        ensures
            r == first_index(old(self).names(), wire@),
            r < old(self).wires@.len() ==> *final(self) == *old(self),
            r == old(self).wires@.len() ==> final(self).names() == old(self).names().push(wire@),
            final(self).names()[r as int] == wire@,
            final(self).func_groups == old(self).func_groups,
            final(self).value == old(self).value,
            final(self).res == old(self).res,
    {
        proof {
            lemma_first_index(self.names(), wire@);
        }
        let idx = find(&self.wires, wire);
        if idx == self.wires.len() {
            self.wires.push(String::from_str(wire));
            assert(self.names() =~= old(self).names().push(wire@));
        }
        idx
    }

    /// Adds the equation that the widths of the signals in `func` add up
    /// to `value`.
    pub fn add_func(&mut self, func: Vec<usize>, value: i64)
        ensures
            final(self).func_groups@ == old(self).func_groups@.push(func),
            final(self).value@ == old(self).value@.push(value),
            final(self).wires == old(self).wires,
            final(self).res == old(self).res,
    {
        self.func_groups.push(func);
        self.value.push(value);
    }

    /// Whether any signal is enrolled.
    pub fn has_wires(&self) -> (r: bool)
        ensures
            r == (self.wires@.len() > 0),
    {
        self.wires.len() > 0
    }

    /// Forgets the signals, the equations and the widths.
    pub fn clear(&mut self)
        ensures
            final(self).wires@.len() == 0,
            final(self).func_groups@.len() == 0,
            final(self).value@.len() == 0,
            final(self).res@.len() == 0,
    {
        self.wires = Vec::new();
        self.func_groups = Vec::new();
        self.value = Vec::new();
        self.res = Vec::new();
    }

    fn row(group: &Vec<usize>, value: i64, n: usize) -> (r: Vec<i64>)
        ensures
            ints(r@) == coefficients(group@, n as int).push(value as int),
    {
        let mut temp: Vec<i64> = Vec::new();
        let mut j: usize = 0;
        while j < n
            invariant
                j <= n,
                temp@.len() == j,
                forall|t: int| 0 <= t < j ==> temp@[t] == 0,
            decreases n - j,
        {
            temp.push(0);
            j += 1;
        }
        assert(ints(temp@) =~= coefficients(group@.take(0), n as int));
        let mut t: usize = 0;
        while t < group.len()
            invariant
                t <= group.len(),
                temp@.len() == n,
                ints(temp@) == coefficients(group@.take(t as int), n as int),
            decreases group.len() - t,
        {
            let c = group[t];
            let ghost before = ints(temp@);
            proof {
                assert(group@.take(t + 1).drop_last() =~= group@.take(t as int));
                assert(group@.take(t + 1).last() == c);
            }
            if c < n && temp[c] < i64::MAX {
                let bumped: i64 = temp[c] + 1;
                temp[c] = bumped;
                assert(ints(temp@) =~= before.update(c as int, before[c as int] + 1));
            }
            t += 1;
        }
        assert(group@.take(group.len() as int) =~= group@);
        let ghost coeffs = ints(temp@);
        temp.push(value);
        assert(ints(temp@) =~= coeffs.push(value as int));
        temp
    }

    fn build(&self) -> (r: Vec<Vec<i64>>)
        ensures
            matrix(r@) == self.equations(),
    {
        let n = self.wires.len();
        let mut out: Vec<Vec<i64>> = Vec::new();
        let mut g: usize = 0;
        while g < self.func_groups.len()
            invariant
                g <= self.func_groups.len(),
                n == self.wires@.len(),
                out@.len() == g,
                forall|t: int| 0 <= t < g ==> ints((#[trigger] out@[t])@) == self.equations()[t],
            decreases self.func_groups.len() - g,
        {
            let value: i64 = if g < self.value.len() {
                self.value[g]
            } else {
                0
            };
            out.push(Self::row(&self.func_groups[g], value, n));
            g += 1;
        }
        assert(matrix(out@) =~= self.equations());
        out
    }

    /// Solves the equations. Where the solver finds widths they are
    /// stored, they satisfy every equation, and no other widths do;
    /// otherwise the stored widths stay as they were. The result says
    /// whether widths were found.
    pub fn solve_func(&mut self) -> (r: bool)
        ensures
            final(self).wires == old(self).wires,
            final(self).func_groups == old(self).func_groups,
            final(self).value == old(self).value,
            r == solved(old(self).equations()) is Some,
            r ==> Some(final(self).solution()) == solved(old(self).equations()) && solves(
                old(self).equations(),
                final(self).solution(),
                unknowns(old(self).equations()),
            ),
            r ==> forall|t: Seq<int>| #[trigger]
                solves(old(self).equations(), t, unknowns(old(self).equations())) ==> t
                    == final(self).solution(),
            !r ==> final(self).res == old(self).res,
    {
        let mut m = self.build();
        match m.solve() {
            Some(res) => {
                self.res = res;
                true
            },
            None => false,
        }
    }
}

/// The widths that solving leaves in a collector: those found, or those
/// stored before where none are found.
pub open spec fn resolved(c: UndefineWireCollector, before: Seq<int>) -> Seq<int> {
    match solved(c.equations()) {
        Some(x) => x,
        None => before,
    }
}

/// Solving again, nothing having been enrolled or added, leaves the widths
/// as the first solving left them.
pub proof fn lemma_solve_again(
    first: UndefineWireCollector,
    second: UndefineWireCollector,
    before: Seq<int>,
)
    requires
        second.wires == first.wires,
        second.func_groups == first.func_groups,
        second.value == first.value,
        second.solution() == resolved(first, before),
    ensures
        resolved(second, second.solution()) == second.solution(),
{
}

} // verus!
