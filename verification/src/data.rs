//! Conditional compilation guards around a port, a list of ports or a
//! module.
//!
//! A guarded value is the value itself with the names of its guards, the
//! outermost first. Comparing looks through the guards; rendering puts
//! the lines of the value between one `ifdef` and one `endif` for each
//! guard.
use crate::port::VerilogPort;
use crate::text::views;
use vstd::prelude::*;
use vstd::std_specs::cmp::PartialEqSpec;
use vstd::std_specs::cmp::PartialEqSpecImpl;

verus! {

/// A value, bare or under a guard.
#[derive(Debug)]
pub enum VerilogData<T> {
    Raw(T),
    Macro { name: String, value: Box<VerilogData<T>> },
}

/// The line that opens the guard `name`.
pub open spec fn ifdef_line(name: Seq<char>) -> Seq<char> {
    "`ifdef "@ + name
}

/// The line that closes the guard `name`.
pub open spec fn endif_line(name: Seq<char>) -> Seq<char> {
    "`endif  // "@ + name
}

/// `lines` between the opening and closing lines of `guards`, the first
/// guard outermost.
pub open spec fn guarded(lines: Seq<Seq<char>>, guards: Seq<Seq<char>>) -> Seq<Seq<char>>
    decreases guards.len(),
{
    if guards.len() == 0 {
        lines
    } else {
        seq![ifdef_line(guards[0])] + guarded(lines, guards.skip(1)) + seq![
            endif_line(guards[0]),
        ]
    }
}

/// The guards of a rendering are matched pairs, nested last in first
/// out: the `k`-th line from the top opens the guard that the `k`-th
/// line from the bottom closes, and the lines of the value stand between
/// them as they were.
pub proof fn lemma_guards_matched(lines: Seq<Seq<char>>, guards: Seq<Seq<char>>)
    ensures
        guarded(lines, guards).len() == lines.len() + 2 * guards.len(),
        forall|k: int|
            0 <= k < guards.len() ==> #[trigger] guarded(lines, guards)[k] == ifdef_line(
                guards[k],
            ),
        forall|k: int|
            0 <= k < guards.len() ==> #[trigger] guarded(lines, guards)[guarded(
                lines,
                guards,
            ).len() - 1 - k] == endif_line(guards[k]),
        forall|i: int|
            0 <= i < lines.len() ==> #[trigger] guarded(lines, guards)[guards.len() + i]
                == lines[i],
    decreases guards.len(),
{
    if guards.len() > 0 {
        let rest = guards.skip(1);
        lemma_guards_matched(lines, rest);
        let inner = guarded(lines, rest);
        let all = guarded(lines, guards);
        assert forall|k: int| 0 <= k < guards.len() implies #[trigger] all[k] == ifdef_line(
            guards[k],
        ) by {
            if k > 0 {
                assert(all[k] == inner[k - 1]);
                assert(rest[k - 1] == guards[k]);
            }
        }
        assert forall|k: int| 0 <= k < guards.len() implies #[trigger] all[all.len() - 1 - k]
            == endif_line(guards[k]) by {
            if k > 0 {
                assert(all[all.len() - 1 - k] == inner[inner.len() - 1 - (k - 1)]);
                assert(rest[k - 1] == guards[k]);
            }
        }
        assert forall|i: int| 0 <= i < lines.len() implies #[trigger] all[guards.len() + i]
            == lines[i] by {
            assert(all[guards.len() + i] == inner[rest.len() + i]);
        }
    }
}

/// How the guards are listed in one cell: each name followed by a comma
/// and a space.
pub open spec fn guard_list(guards: Seq<Seq<char>>) -> Seq<char>
    decreases guards.len(),
{
    if guards.len() == 0 {
        ""@
    } else {
        guards[0] + ", "@ + guard_list(guards.skip(1))
    }
}

impl<T> VerilogData<T> {
    /// The value under the guards.
    pub open spec fn raw(self) -> T
        decreases self,
    {
        match self {
            VerilogData::Raw(x) => x,
            VerilogData::Macro { value, .. } => value.raw(),
        }
    }

    /// The names of the guards, the outermost first.
    pub open spec fn guards(self) -> Seq<Seq<char>>
        decreases self,
    {
        match self {
            VerilogData::Raw(_) => Seq::empty(),
            VerilogData::Macro { name, value } => seq![name@] + value.guards(),
        }
    }

    /// The value under the guards.
    pub fn get_raw(&self) -> (r: &T)
        ensures
            *r == self.raw(),
        decreases self,
    {
        match self {
            VerilogData::Raw(x) => x,
            VerilogData::Macro { value, .. } => value.get_raw(),
        }
    }

    /// The value under the guards, to be changed in place; the guards
    /// stay as they are.
    pub fn get_raw_mut(&mut self) -> (r: &mut T)
        ensures
            *r == old(self).raw(),
            final(self).raw() == *final(r),
            final(self).guards() == old(self).guards(),
        decreases *old(self),
    {
        match self {
            VerilogData::Raw(x) => x,
            VerilogData::Macro { value, .. } => value.get_raw_mut(),
        }
    }

    /// The value, its guards taken off.
    pub fn into_raw(self) -> (r: T)
        ensures
            r == self.raw(),
        decreases self,
    {
        match self {
            VerilogData::Raw(x) => x,
            VerilogData::Macro { value, .. } => value.into_raw(),
        }
    }

    /// The names of the guards, the outermost first.
    pub fn guard_names(&self) -> (r: Vec<String>)
        ensures
            views(r@) == self.guards(),
        decreases self,
    {
        match self {
            VerilogData::Raw(_) => {
                let r: Vec<String> = Vec::new();
                assert(views(r@) =~= Seq::<Seq<char>>::empty());
                r
            },
            VerilogData::Macro { name, value } => {
                let mut r: Vec<String> = Vec::new();
                r.push(name.clone());
                let mut rest = value.guard_names();
                let ghost rest_views = views(rest@);
                r.append(&mut rest);
                assert(views(r@) =~= seq![name@] + rest_views);
                r
            },
        }
    }

    /// The names of the guards in one text, each followed by `, `.
    pub fn get_macro_name(&self) -> (r: String)
        ensures
            r@ == guard_list(self.guards()),
        decreases self,
    {
        match self {
            VerilogData::Raw(_) => String::from_str(""),
            VerilogData::Macro { name, value } => {
                let mut r = name.clone();
                r.append(", ");
                r.append(value.get_macro_name().as_str());
                assert((seq![name@] + value.guards()).skip(1) =~= value.guards());
                r
            },
        }
    }
}

/// Wrapping a value in guards.
pub trait WrapMacro<T> {
    /// The value under the guards `name`, the first name outermost.
    fn wrap_macro_with(self, name: Vec<String>) -> (r: VerilogData<T>)
        ensures
            r.guards() == views(name@),
    ;

    /// The value without a guard.
    fn wrap_raw(self) -> (r: VerilogData<T>)
        ensures
            r.guards() == Seq::<Seq<char>>::empty(),
    ;

    /// The value under the guards of `other`.
    fn wrap_macro_as(self, other: &VerilogData<T>) -> (r: VerilogData<T>)
        ensures
            r.guards() == other.guards(),
    ;
}

/// `x` under the guards `name`, the first name outermost.
pub fn wrap_with<T>(x: T, name: Vec<String>) -> (r: VerilogData<T>)
    ensures
        r.raw() == x,
        r.guards() == views(name@),
{
    let mut names = name;
    let mut t = VerilogData::Raw(x);
    let ghost all = views(names@);
    assert(all.skip(all.len() as int) =~= Seq::<Seq<char>>::empty());
    while names.len() > 0
        invariant
            t.raw() == x,
            views(names@) == all.take(names@.len() as int),
            names@.len() <= all.len(),
            t.guards() == all.skip(names@.len() as int),
        decreases names@.len(),
    {
        let ghost before = names@;
        let s = names.pop().unwrap();
        proof {
            assert(views(before)[before.len() - 1] == before[before.len() - 1]@);
            assert(all.take(before.len() as int)[before.len() - 1] == all[before.len() - 1]);
            assert(s@ == all[names@.len() as int]);
            assert(views(names@) =~= all.take(names@.len() as int));
            assert(seq![s@] + all.skip(before.len() as int) =~= all.skip(names@.len() as int));
        }
        t = VerilogData::Macro { name: s, value: Box::new(t) };
    }
    assert(all.skip(0) =~= all);
    t
}

/// `x` under the guards of `other`.
pub fn wrap_as<T, U>(x: T, other: &VerilogData<U>) -> (r: VerilogData<T>)
    ensures
        r.raw() == x,
        r.guards() == other.guards(),
{
    wrap_with(x, other.guard_names())
}

impl<T> WrapMacro<T> for T {
    fn wrap_macro_with(self, name: Vec<String>) -> (r: VerilogData<T>)
        ensures
            r.raw() == self,
    {
        wrap_with(self, name)
    }

    fn wrap_raw(self) -> (r: VerilogData<T>)
        ensures
            r == VerilogData::Raw(self),
    {
        VerilogData::Raw(self)
    }

    fn wrap_macro_as(self, other: &VerilogData<T>) -> (r: VerilogData<T>)
        ensures
            r.raw() == self,
    {
        wrap_as(self, other)
    }
}

/// Puts `lines` between the opening and closing lines of `guards`.
pub fn guard_lines(lines: Vec<String>, guards: &Vec<String>) -> (r: Vec<String>)
    ensures
        views(r@) == guarded(views(lines@), views(guards@)),
{
    let mut body = lines;
    let ghost inner = views(body@);
    let ghost all = views(guards@);
    let mut k: usize = guards.len();
    assert(all.skip(all.len() as int) =~= Seq::<Seq<char>>::empty());
    while k > 0
        invariant
            k <= guards@.len(),
            all == views(guards@),
            views(body@) == guarded(inner, all.skip(k as int)),
        decreases k,
    {
        k -= 1;
        let mut open = String::from_str("`ifdef ");
        open.append(guards[k].as_str());
        let mut close = String::from_str("`endif  // ");
        close.append(guards[k].as_str());
        let ghost before = views(body@);
        let mut out: Vec<String> = Vec::new();
        out.push(open);
        out.append(&mut body);
        out.push(close);
        proof {
            assert(all.skip(k as int).skip(1) =~= all.skip(k + 1));
            assert(all.skip(k as int)[0] == guards@[k as int]@);
            assert(views(out@) =~= seq![ifdef_line(all[k as int])] + before + seq![
                endif_line(all[k as int]),
            ]);
        }
        body = out;
    }
    assert(all.skip(0) =~= all);
    body
}

impl<T: PartialEq> PartialEq for VerilogData<T> {
    fn eq(&self, other: &Self) -> (r: bool) {
        *self.get_raw() == *other.get_raw()
    }
}

impl<T: PartialEq> PartialEqSpecImpl for VerilogData<T> {
    open spec fn obeys_eq_spec() -> bool {
        T::obeys_eq_spec()
    }

    open spec fn eq_spec(&self, other: &Self) -> bool {
        self.raw().eq_spec(&other.raw())
    }
}

impl<T: Eq> Eq for VerilogData<T> {

}

impl VerilogData<VerilogPort> {
    /// Whether two ports are the same port, whatever their guards.
    pub open spec fn same_port(self, other: VerilogData<VerilogPort>) -> bool {
        self.raw().same_port(other.raw())
    }

    /// Whether two ports are the same port, whatever their guards.
    pub fn same(&self, other: &VerilogData<VerilogPort>) -> (r: bool)
        ensures
            r == self.same_port(*other),
            r == PartialEqSpec::eq_spec(self, other),
    {
        *self.get_raw() == *other.get_raw()
    }

    /// The binding of the port in an instance, between its guards.
    pub fn to_inst_string(&self, is_last: bool) -> (r: Vec<String>)
        ensures
            views(r@) == guarded(
                seq![
                    crate::port::binding_line(
                        self.raw().name@,
                        crate::port::signal_text(self.raw().fragments()),
                        is_last,
                    ),
                ],
                self.guards(),
            ),
    {
        let lines = self.get_raw().to_inst_string(is_last);
        assert(views(lines@) =~= seq![
            crate::port::binding_line(
                self.raw().name@,
                crate::port::signal_text(self.raw().fragments()),
                is_last,
            ),
        ]);
        guard_lines(lines, &self.guard_names())
    }

    /// The declaration of the port in its module, between its guards.
    pub fn to_port_string(&self, is_last: bool) -> (r: Vec<String>)
        ensures
            views(r@) == guarded(
                seq![
                    crate::port::declaration_line(
                        self.raw().inout,
                        self.raw().width,
                        self.raw().name@,
                        is_last,
                    ),
                ],
                self.guards(),
            ),
    {
        let lines = self.get_raw().to_port_string(is_last);
        assert(views(lines@) =~= seq![
            crate::port::declaration_line(
                self.raw().inout,
                self.raw().width,
                self.raw().name@,
                is_last,
            ),
        ]);
        guard_lines(lines, &self.guard_names())
    }

    /// The assignment of a concatenation to the port, between its guards;
    /// none for a port with fewer than two fragments.
    pub fn to_assign_string(&self) -> (r: Option<Vec<String>>)
        ensures
            r is Some <==> self.raw().fragments().len() > 2,
            r matches Some(v) ==> views(v@) == guarded(
                seq![
                    crate::port::assign_line(
                        self.raw().name@,
                        crate::port::signal_text(self.raw().fragments()),
                    ),
                ],
                self.guards(),
            ),
    {
        match self.get_raw().to_assign_string() {
            Some(lines) => {
                assert(views(lines@) =~= seq![
                    crate::port::assign_line(
                        self.raw().name@,
                        crate::port::signal_text(self.raw().fragments()),
                    ),
                ]);
                Some(guard_lines(lines, &self.guard_names()))
            },
            None => None,
        }
    }
}

/// Equality looks through the guards: two guarded values are equal
/// exactly when the values under their guards are, whatever guards
/// either of them has. So a guarded value compares with the bare value
/// as the value under its guards does.
pub proof fn lemma_wrap_transparent<T: PartialEq>(a: VerilogData<T>, b: VerilogData<T>, x: T)
    ensures
        PartialEqSpec::eq_spec(&a, &b) == a.raw().eq_spec(&b.raw()),
        PartialEqSpec::eq_spec(&a, &VerilogData::Raw(x)) == a.raw().eq_spec(&x),
        PartialEqSpec::eq_spec(&VerilogData::Raw(x), &a) == x.eq_spec(&a.raw()),
{
}

/// A guarded port equals the port itself, whatever its guards: ports are
/// compared by `same_port`, under which every port equals itself.
pub proof fn lemma_guarded_port_is_the_port(wrapped: VerilogData<VerilogPort>, port: VerilogPort)
    requires
        wrapped.raw() == port,
    ensures
        PartialEqSpec::eq_spec(&wrapped, &VerilogData::Raw(port)),
        PartialEqSpec::eq_spec(&VerilogData::Raw(port), &wrapped),
        wrapped.same_port(VerilogData::Raw(port)),
{
}

/// The bindings of a list of ports, each line ended by a comma but the
/// last, which is ended by one unless `is_last`.
pub open spec fn binding_lines(ports: Seq<VerilogPort>, is_last: bool) -> Seq<Seq<char>> {
    Seq::new(
        ports.len(),
        |i: int|
            crate::port::binding_line(
                ports[i].name@,
                crate::port::signal_text(ports[i].fragments()),
                is_last && i == ports.len() - 1,
            ),
    )
}

impl VerilogData<Vec<VerilogPort>> {
    /// The bindings of the ports in an instance, between the guards.
    pub fn to_inst_string(&self, is_last: bool) -> (r: Vec<String>)
        ensures
            views(r@) == guarded(binding_lines(self.raw()@, is_last), self.guards()),
    {
        let ports = self.get_raw();
        let mut res: Vec<String> = Vec::new();
        let mut i: usize = 0;
        let ghost target = binding_lines(ports@, is_last);
        assert(views(res@) =~= target.take(0));
        while i < ports.len()
            invariant
                i <= ports@.len(),
                target == binding_lines(ports@, is_last),
                views(res@) == target.take(i as int),
            decreases ports@.len() - i,
        {
            let last = is_last && i == ports.len() - 1;
            let mut line = ports[i].to_inst_string(last);
            let ghost before = views(res@);
            let ghost added = views(line@);
            res.append(&mut line);
            i += 1;
            assert(views(res@) =~= before + added);
            assert(views(res@) =~= target.take(i as int));
        }
        assert(target.take(target.len() as int) =~= target);
        guard_lines(res, &self.guard_names())
    }
}

} // verus!
