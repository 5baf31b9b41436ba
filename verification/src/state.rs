//! The registry of an accumulator's members.

use crate::accumulator::{scalar_bytes, Scalar};
use vstd::prelude::*;

verus! {

/// Whether no item of `s` occurs twice.
pub open spec fn distinct(s: Seq<Seq<u8>>) -> bool {
    forall|i: int, j: int| 0 <= i < j < s.len() ==> #[trigger] s[i] != #[trigger] s[j]
}

/// `s` without the item `e`, the others in their order.
pub open spec fn without_element(s: Seq<Seq<u8>>, e: Seq<u8>) -> Seq<Seq<u8>> {
    if s.contains(e) {
        s.remove(choose|i: int| 0 <= i < s.len() && s[i] == e)
    } else {
        s
    }
}

/// The members of an accumulator: which scalars are in it now. It is kept by
/// the party that holds the secret key.
#[derive(Debug)]
pub struct InMemoryState {
    elements: Vec<Scalar>,
}

impl InMemoryState {
    #[verifier::type_invariant]
    spec fn inv(self) -> bool {
        distinct(scalar_bytes(self.elements@))
    }

    /// The members, in the order in which they came.
    pub closed spec fn view(&self) -> Seq<Seq<u8>> {
        scalar_bytes(self.elements@)
    }

    /// A registry without members.
    pub fn new() -> (r: Self)
        ensures
            r@ == Seq::<Seq<u8>>::empty(),
    {
        let r = InMemoryState { elements: Vec::new() };
        assert(r@ =~= Seq::<Seq<u8>>::empty());
        r
    }

    /// The place of `element` among the members, or their number.
    fn place(&self, element: &Scalar) -> (r: usize)
        ensures
            r <= self@.len(),
            r < self@.len() ==> self@[r as int] == element@,
            r == self@.len() ==> !self@.contains(element@),
    {
        let mut i: usize = 0;
        while i < self.elements.len()
            invariant
                i <= self.elements@.len(),
                forall|j: int| 0 <= j < i ==> self@[j] != element@,
            decreases self.elements@.len() - i,
        {
            if self.elements[i].equals(element) {
                return i;
            }
            i = i + 1;
        }
        i
    }

    /// Whether `element` is a member.
    pub fn has(&self, element: &Scalar) -> (r: bool)
        ensures
            r == self@.contains(element@),
    {
        let i = self.place(element);
        i < self.elements.len()
    }

    /// The number of members.
    pub fn size(&self) -> (r: u64)
        ensures
            r == self@.len(),
    {
        self.elements.len() as u64
    }

    /// The members but the one at `skip`, copied; all of them where `skip` is
    /// their number.
    fn copied_without(&self, skip: usize) -> (r: Vec<Scalar>)
        requires
            skip <= self@.len(),
        ensures
            scalar_bytes(r@) == if skip < self@.len() {
                self@.remove(skip as int)
            } else {
                self@
            },
    {
        let mut out: Vec<Scalar> = Vec::new();
        let mut i: usize = 0;
        while i < self.elements.len()
            invariant
                i <= self.elements@.len(),
                skip <= self.elements@.len(),
                out@.len() == if i <= skip { i as int } else { i - 1 },
                forall|j: int|
                    0 <= j < out@.len() ==> (#[trigger] out@[j])@ == if j < skip {
                        self.elements@[j]@
                    } else {
                        self.elements@[j + 1]@
                    },
            decreases self.elements@.len() - i,
        {
            if i != skip {
                out.push(self.elements[i].clone());
            }
            i = i + 1;
        }
        assert(scalar_bytes(out@) =~= if skip < self@.len() {
            self@.remove(skip as int)
        } else {
            self@
        });
        out
    }

    /// Makes `element` a member; a member stays one.
    pub fn add(&mut self, element: Scalar)
        ensures
            final(self)@ == if old(self)@.contains(element@) {
                old(self)@
            } else {
                old(self)@.push(element@)
            },
    {
        proof {
            use_type_invariant(&*self);
        }
        if !self.has(&element) {
            let ghost before = self@;
            let mut next = self.copied_without(self.elements.len());
            next.push(element);
            assert(scalar_bytes(next@) =~= before.push(element@));
            *self = InMemoryState { elements: next };
        }
    }

    /// Takes `element` out of the members.
    pub fn remove(&mut self, element: &Scalar)
        ensures
            final(self)@ == without_element(old(self)@, element@),
            !final(self)@.contains(element@),
    {
        proof {
            use_type_invariant(&*self);
        }
        let i = self.place(element);
        if i < self.elements.len() {
            let ghost before = self@;
            let next = self.copied_without(i);
            proof {
                let chosen = choose|k: int| 0 <= k < before.len() && before[k] == element@;
                assert(chosen == i);
                let after = before.remove(i as int);
                assert forall|a: int, b: int| 0 <= a < b < after.len() implies #[trigger] after[a]
                    != #[trigger] after[b] by {
                    let a0 = if a < i { a } else { a + 1 };
                    let b0 = if b < i { b } else { b + 1 };
                    assert(after[a] == before[a0]);
                    assert(after[b] == before[b0]);
                }
                assert forall|a: int| 0 <= a < after.len() implies #[trigger] after[a]
                    != element@ by {
                    let a0 = if a < i { a } else { a + 1 };
                    assert(after[a] == before[a0]);
                }
            }
            *self = InMemoryState { elements: next };
        }
    }

    /// Makes every element of `elements` a member.
    pub(crate) fn extend(&mut self, elements: &Vec<Scalar>)
        requires
            distinct(scalar_bytes(elements@)),
            forall|i: int|
                0 <= i < elements@.len() ==> !old(self)@.contains(
                    #[trigger] scalar_bytes(elements@)[i],
                ),
        ensures
            final(self)@ == old(self)@ + scalar_bytes(elements@),
    {
        proof {
            use_type_invariant(&*self);
            lemma_distinct_joined(self@, scalar_bytes(elements@));
        }
        let ghost before = self@;
        let mut next = self.copied_without(self.elements.len());
        let mut i: usize = 0;
        while i < elements.len()
            invariant
                i <= elements@.len(),
                scalar_bytes(next@) == before + scalar_bytes(elements@).take(i as int),
            decreases elements@.len() - i,
        {
            let ghost grown = scalar_bytes(next@);
            next.push(elements[i].clone());
            assert(scalar_bytes(next@) =~= grown.push(elements@[i as int]@));
            assert(scalar_bytes(elements@).take(i + 1) =~= scalar_bytes(elements@).take(
                i as int,
            ).push(elements@[i as int]@));
            i = i + 1;
        }
        assert(scalar_bytes(elements@).take(elements@.len() as int) =~= scalar_bytes(elements@));
        *self = InMemoryState { elements: next };
    }
}

/// What was added last, and was no member before, is taken out again by
/// removing it: the members are those from before.
pub proof fn lemma_remove_after_add(members: Seq<Seq<u8>>, element: Seq<u8>)
    requires
        !members.contains(element),
    ensures
        without_element(members.push(element), element) == members,
{
    let grown = members.push(element);
    assert(grown[members.len() as int] == element);
    let at = choose|i: int| 0 <= i < grown.len() && grown[i] == element;
    if at < members.len() {
        assert(members[at] == element);
    }
    assert(grown.remove(at) =~= members);
}

/// Two lists without repeats that share nothing make one without repeats.
pub proof fn lemma_distinct_joined(a: Seq<Seq<u8>>, b: Seq<Seq<u8>>)
    requires
        distinct(a),
        distinct(b),
        forall|i: int| 0 <= i < b.len() ==> !a.contains(#[trigger] b[i]),
    ensures
        distinct(a + b),
{
    let c = a + b;
    assert forall|i: int, j: int| 0 <= i < j < c.len() implies #[trigger] c[i]
        != #[trigger] c[j] by {
        if j < a.len() {
            assert(c[i] == a[i] && c[j] == a[j]);
        } else if i < a.len() {
            assert(c[i] == a[i] && c[j] == b[j - a.len()]);
            assert(a.contains(a[i]));
        } else {
            assert(c[i] == b[i - a.len()] && c[j] == b[j - a.len()]);
        }
    }
}

} // verus!
