//! Sets of bit positions, held as a vector of flags.
use vstd::prelude::*;

verus! {

/// The positions from `lo` up to, not including, `hi`.
pub open spec fn span(lo: int, hi: int) -> Set<int> {
    Set::new(|i: int| lo <= i < hi)
}

/// `s` holds each of its members once, smaller before larger.
pub open spec fn ascending(s: Seq<usize>) -> bool {
    forall|i: int, j: int| 0 <= i < j < s.len() ==> s[i] < s[j]
}

/// `s` lists the members of `set`, smaller before larger.
pub open spec fn lists(s: Seq<usize>, set: Set<int>) -> bool {
    &&& ascending(s)
    &&& forall|i: int| 0 <= i < s.len() ==> set.contains(#[trigger] s[i] as int)
    &&& forall|b: int| #[trigger] set.contains(b) ==> exists|i: int| 0 <= i < s.len() && s[i] == b
}

/// A set of bit positions.
#[derive(Debug)]
pub struct BitSet {
    bits: Vec<bool>,
}

impl View for BitSet {
    type V = Set<int>;

    closed spec fn view(&self) -> Set<int> {
        Set::new(|i: int| 0 <= i < self.bits@.len() && self.bits@[i])
    }
}

impl BitSet {
    /// The empty set.
    pub fn new() -> (r: BitSet)
        ensures
            r@ == Set::<int>::empty(),
    {
        let r = BitSet { bits: Vec::new() };
        assert(r@ =~= Set::<int>::empty());
        r
    }

    /// Whether `i` is a member.
    pub fn contains(&self, i: usize) -> (r: bool)
        ensures
            r == self@.contains(i as int),
    {
        i < self.bits.len() && self.bits[i]
    }

    /// Adds `i`; the result says whether it was not yet a member.
    pub fn insert(&mut self, i: usize) -> (fresh: bool)
        requires
            i < usize::MAX,
        ensures
            final(self)@ == old(self)@.insert(i as int),
            fresh == !old(self)@.contains(i as int),
    {
        while self.bits.len() <= i
            invariant
                self@ == old(self)@,
                i < usize::MAX,
            decreases i + 1 - self.bits.len(),
        {
            let ghost before = self.bits@;
            self.bits.push(false);
            assert(self@ =~= old(self)@) by {
                assert forall|k: int|
                    (0 <= k < before.len() && before[k]) == (0 <= k < self.bits@.len()
                        && self.bits@[k]) by {}
            }
        }
        let fresh = !self.bits[i];
        self.bits[i] = true;
        assert(self@ =~= old(self)@.insert(i as int));
        fresh
    }

    /// Whether the set has no member.
    pub fn is_empty(&self) -> (r: bool)
        ensures
            r == (self@ == Set::<int>::empty()),
    {
        let mut i: usize = 0;
        while i < self.bits.len()
            invariant
                i <= self.bits.len(),
                forall|k: int| 0 <= k < i ==> !self.bits@[k],
            decreases self.bits.len() - i,
        {
            if self.bits[i] {
                assert(self@.contains(i as int));
                return false;
            }
            i += 1;
        }
        assert(self@ =~= Set::<int>::empty());
        true
    }

    /// The largest member, if there is one.
    pub fn max(&self) -> (r: Option<usize>)
        ensures
            r is None <==> self@ == Set::<int>::empty(),
            r matches Some(m) ==> self@.contains(m as int) && m < usize::MAX && forall|k: int|
                #[trigger] self@.contains(k) ==> k <= m,
    {
        let mut i: usize = self.bits.len();
        while i > 0
            invariant
                i <= self.bits.len(),
                forall|k: int| i <= k < self.bits.len() ==> !self.bits@[k],
            decreases i,
        {
            i -= 1;
            if self.bits[i] {
                assert(self@.contains(i as int));
                return Some(i);
            }
        }
        assert(self@ =~= Set::<int>::empty());
        None
    }

    /// The members that `other` lacks, smaller before larger.
    pub fn minus(&self, other: &BitSet) -> (r: Vec<usize>)
        ensures
            lists(r@, self@.difference(other@)),
    {
        let mut out: Vec<usize> = Vec::new();
        let mut i: usize = 0;
        let ghost diff = self@.difference(other@);
        while i < self.bits.len()
            invariant
                i <= self.bits.len(),
                diff == self@.difference(other@),
                ascending(out@),
                forall|k: int| 0 <= k < out.len() ==> out@[k] < i && diff.contains(out@[k] as int),
                forall|b: int|
                    0 <= b < i && #[trigger] diff.contains(b) ==> exists|k: int|
                        0 <= k < out.len() && out@[k] == b,
            decreases self.bits.len() - i,
        {
            if self.bits[i] && !other.contains(i) {
                let ghost before = out@;
                out.push(i);
                assert forall|b: int| 0 <= b < i + 1 && #[trigger] diff.contains(b) implies exists|
                    k: int,
                | 0 <= k < out.len() && out@[k] == b by {
                    if b < i {
                        let k = choose|k: int| 0 <= k < before.len() && before[k] == b;
                        assert(out@[k] == b);
                    } else {
                        assert(out@[out.len() - 1] == b);
                    }
                }
            }
            i += 1;
        }
        out
    }

    /// The members, smaller before larger.
    pub fn members(&self) -> (r: Vec<usize>)
        ensures
            lists(r@, self@),
    {
        let none = BitSet::new();
        assert(self@.difference(none@) =~= self@);
        self.minus(&none)
    }
}

/// Two ascending lists of the same set are the same list.
pub proof fn lemma_lists_unique(a: Seq<usize>, b: Seq<usize>, set: Set<int>)
    requires
        lists(a, set),
        lists(b, set),
    ensures
        a == b,
    decreases a.len(),
{
    if a.len() == 0 {
        if b.len() > 0 {
            assert(set.contains(b[0] as int));
        }
        assert(a =~= b);
    } else {
        let m = a.last();
        assert(set.contains(m as int));
        let kb = choose|k: int| 0 <= k < b.len() && b[k] == m;
        // The largest of `a` is the largest of `b`.
        assert(kb == b.len() - 1) by {
            if kb < b.len() - 1 {
                let bigger = b.last();
                assert(b[kb] < b[b.len() - 1]);
                assert(set.contains(bigger as int));
                let ka = choose|k: int| 0 <= k < a.len() && a[k] == bigger;
                if ka < a.len() - 1 {
                    assert(a[ka] < a[a.len() - 1]);
                }
            }
        }
        let rest = set.remove(m as int);
        assert(lists(a.drop_last(), rest)) by {
            assert forall|x: int| #[trigger] rest.contains(x) implies exists|i: int|
                0 <= i < a.drop_last().len() && a.drop_last()[i] == x by {
                assert(set.contains(x));
                let i = choose|i: int| 0 <= i < a.len() && a[i] == x;
                assert(a.drop_last()[i] == x);
            }
            assert forall|i: int| 0 <= i < a.drop_last().len() implies rest.contains(
                #[trigger] a.drop_last()[i] as int,
            ) by {
                assert(a[i] < a[a.len() - 1]);
                assert(set.contains(a[i] as int));
            }
        }
        assert(lists(b.drop_last(), rest)) by {
            assert forall|x: int| #[trigger] rest.contains(x) implies exists|i: int|
                0 <= i < b.drop_last().len() && b.drop_last()[i] == x by {
                assert(set.contains(x));
                let i = choose|i: int| 0 <= i < b.len() && b[i] == x;
                assert(b.drop_last()[i] == x);
            }
            assert forall|i: int| 0 <= i < b.drop_last().len() implies rest.contains(
                #[trigger] b.drop_last()[i] as int,
            ) by {
                assert(b[i] < b[b.len() - 1]);
                assert(set.contains(b[i] as int));
            }
        }
        lemma_lists_unique(a.drop_last(), b.drop_last(), rest);
        assert(a =~= a.drop_last().push(m));
        assert(b =~= b.drop_last().push(m));
    }
}

} // verus!
