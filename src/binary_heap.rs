use crate::order::flip;
use std::cmp::Ordering;
use vstd::arithmetic::power2::pow2;
use vstd::prelude::*;
use vstd::std_specs::iter::IteratorSpec;

verus! {

broadcast use vstd::seq_lib::group_to_multiset_ensures;

/// An ordering of `T` handed to a heap from outside the elements.
pub trait Compare<T> {
    spec fn spec_compare(&self, a: T, b: T) -> Ordering;

    /// The comparator can be called on any two elements.
    spec fn callable(&self) -> bool;

    fn compare(&self, a: &T, b: &T) -> (r: Ordering)
        requires
            self.callable(),
        ensures
            r == self.spec_compare(*a, *b),
    ;
}

/// `a` is at most `b` under `c`.
pub open spec fn below<T, C: Compare<T>>(c: C, a: T, b: T) -> bool {
    c.spec_compare(a, b) != Ordering::Greater
}

/// `c` is a total preorder: swapping the arguments flips the result, and
/// "at most" is transitive.
pub open spec fn is_total_preorder<T, C: Compare<T>>(c: C) -> bool {
    &&& forall|a: T, b: T| #[trigger] c.spec_compare(a, b) == flip(c.spec_compare(b, a))
    &&& forall|a: T, b: T, d: T| #[trigger]
        below(c, a, b) && #[trigger] below(c, b, d) ==> below(c, a, d)
}

pub open spec fn par(i: int) -> int {
    (i - 1) / 2
}

/// Every element is at most its parent.
pub open spec fn is_heap<T, C: Compare<T>>(c: C, s: Seq<T>) -> bool {
    forall|i: int| 1 <= i < s.len() ==> below(c, #[trigger] s[i], s[par(i)])
}

/// The natural order of the elements.
#[derive(Clone, Copy, Debug, PartialEq, Eq, Structural, Default)]
pub struct MaxComparator;

/// The reverse of the natural order of the elements.
#[derive(Clone, Copy, Debug, PartialEq, Eq, Structural, Default)]
pub struct MinComparator;

/// An order given by a function on two elements.
#[derive(Clone, Copy)]
pub struct FnComparator<F>(pub F);

impl<T, F: Fn(&T, &T) -> Ordering> Compare<T> for FnComparator<F> {
    open spec fn spec_compare(&self, a: T, b: T) -> Ordering {
        choose|r: Ordering| self.0.ensures((&a, &b), r)
    }

    /// The function accepts any two elements and always answers the same.
    open spec fn callable(&self) -> bool {
        &&& forall|a: &T, b: &T| #[trigger] self.0.requires((a, b))
        &&& forall|a: &T, b: &T, r: Ordering| #[trigger]
            self.0.ensures((a, b), r) ==> r == self.spec_compare(*a, *b)
    }

    fn compare(&self, a: &T, b: &T) -> (r: Ordering) {
        (self.0)(a, b)
    }
}

pub open spec fn int_cmp(a: int, b: int) -> Ordering {
    if a < b {
        Ordering::Less
    } else if a > b {
        Ordering::Greater
    } else {
        Ordering::Equal
    }
}

impl Compare<i32> for MaxComparator {
    open spec fn spec_compare(&self, a: i32, b: i32) -> Ordering {
        int_cmp(a as int, b as int)
    }

    open spec fn callable(&self) -> bool {
        true
    }

    fn compare(&self, a: &i32, b: &i32) -> (r: Ordering) {
        if *a < *b {
            Ordering::Less
        } else if *a > *b {
            Ordering::Greater
        } else {
            Ordering::Equal
        }
    }
}

impl Compare<i32> for MinComparator {
    open spec fn spec_compare(&self, a: i32, b: i32) -> Ordering {
        int_cmp(b as int, a as int)
    }

    open spec fn callable(&self) -> bool {
        true
    }

    fn compare(&self, a: &i32, b: &i32) -> (r: Ordering) {
        if *b < *a {
            Ordering::Less
        } else if *b > *a {
            Ordering::Greater
        } else {
            Ordering::Equal
        }
    }
}

impl Compare<u64> for MaxComparator {
    open spec fn spec_compare(&self, a: u64, b: u64) -> Ordering {
        int_cmp(a as int, b as int)
    }

    open spec fn callable(&self) -> bool {
        true
    }

    fn compare(&self, a: &u64, b: &u64) -> (r: Ordering) {
        if *a < *b {
            Ordering::Less
        } else if *a > *b {
            Ordering::Greater
        } else {
            Ordering::Equal
        }
    }
}

impl Compare<u64> for MinComparator {
    open spec fn spec_compare(&self, a: u64, b: u64) -> Ordering {
        int_cmp(b as int, a as int)
    }

    open spec fn callable(&self) -> bool {
        true
    }

    fn compare(&self, a: &u64, b: &u64) -> (r: Ordering) {
        if *b < *a {
            Ordering::Less
        } else if *b > *a {
            Ordering::Greater
        } else {
            Ordering::Equal
        }
    }
}

impl Compare<Box<i32>> for MaxComparator {
    open spec fn spec_compare(&self, a: Box<i32>, b: Box<i32>) -> Ordering {
        int_cmp(*a as int, *b as int)
    }

    open spec fn callable(&self) -> bool {
        true
    }

    fn compare(&self, a: &Box<i32>, b: &Box<i32>) -> (r: Ordering) {
        let x: i32 = **a;
        let y: i32 = **b;
        if x < y {
            Ordering::Less
        } else if x > y {
            Ordering::Greater
        } else {
            Ordering::Equal
        }
    }
}

impl MaxComparator {
    pub proof fn lemma_total_i32()
        ensures
            forall|c: MaxComparator| is_total_preorder::<i32, MaxComparator>(c) && #[trigger] Compare::<i32>::callable(&c),
    {
    }

    pub proof fn lemma_total_u64()
        ensures
            forall|c: MaxComparator| is_total_preorder::<u64, MaxComparator>(c) && #[trigger] Compare::<u64>::callable(&c),
    {
    }
}

impl MinComparator {
    pub proof fn lemma_total_i32()
        ensures
            forall|c: MinComparator| is_total_preorder::<i32, MinComparator>(c) && #[trigger] Compare::<i32>::callable(&c),
    {
    }

    pub proof fn lemma_total_u64()
        ensures
            forall|c: MinComparator| is_total_preorder::<u64, MinComparator>(c) && #[trigger] Compare::<u64>::callable(&c),
    {
    }
}

/// Relies on `<[T]>::swap`: exchanges two elements.
#[verifier::external_body]
fn swap_items<T>(v: &mut Vec<T>, i: usize, j: usize)
    requires
        i < old(v)@.len(),
        j < old(v)@.len(),
    ensures
        final(v)@ == old(v)@.update(i as int, old(v)@[j as int]).update(j as int, old(v)@[i as int]),
{
    v.swap(i, j)
}

pub proof fn lemma_swap_multiset<T>(s: Seq<T>, i: int, j: int)
    requires
        0 <= i < s.len(),
        0 <= j < s.len(),
    ensures
        s.update(i, s[j]).update(j, s[i]).to_multiset() == s.to_multiset(),
{
    broadcast use vstd::seq_lib::to_multiset_update;
    broadcast use vstd::multiset::group_multiset_properties;

    let s1 = s.update(i, s[j]);
    assert(s1.to_multiset() == s.to_multiset().insert(s[j]).remove(s[i]));
    let s2 = s1.update(j, s[i]);
    assert(s2.to_multiset() == s1.to_multiset().insert(s[i]).remove(s1[j]));
    assert(s2.to_multiset() =~= s.to_multiset());
}

/// Under a heap order, the first element is the greatest.
pub proof fn lemma_heap_top<T, C: Compare<T>>(c: C, s: Seq<T>, i: int)
    requires
        is_total_preorder(c),
        is_heap(c, s),
        0 <= i < s.len(),
    ensures
        below(c, s[i], s[0]),
    decreases i,
{
    if i > 0 {
        lemma_heap_top(c, s, par(i));
        assert(below(c, s[i], s[par(i)]));
    } else {
        assert(c.spec_compare(s[0], s[0]) == flip(c.spec_compare(s[0], s[0])));
    }
}

/// Every element before `end` is at most its parent.
pub open spec fn heap_upto<T, C: Compare<T>>(c: C, s: Seq<T>, end: int) -> bool {
    forall|i: int| 1 <= i < end ==> below(c, #[trigger] s[i], s[par(i)])
}

/// Every element before `end` whose parent is at `lo` or later is at most its parent.
pub open spec fn heap_from<T, C: Compare<T>>(c: C, s: Seq<T>, lo: int, end: int) -> bool {
    forall|i: int| 1 <= i < end && par(i) >= lo ==> below(c, #[trigger] s[i], s[par(i)])
}

/// Before `end`, only `p` may exceed its parent, and `p`'s children are at most
/// `p`'s parent.
pub open spec fn up_inv<T, C: Compare<T>>(c: C, s: Seq<T>, end: int, p: int) -> bool {
    &&& forall|i: int| 1 <= i < end && i != p ==> below(c, #[trigger] s[i], s[par(i)])
    &&& p > 0 ==> forall|i: int|
        1 <= i < end && par(i) == p ==> below(c, #[trigger] s[i], s[par(p)])
}

/// Below `end` and under `lo`, only `h`'s children may exceed `h`, and they are at
/// most `h`'s parent.
pub open spec fn down_inv<T, C: Compare<T>>(c: C, s: Seq<T>, lo: int, end: int, h: int) -> bool {
    &&& forall|i: int|
        1 <= i < end && par(i) >= lo && par(i) != h ==> below(c, #[trigger] s[i], s[par(i)])
    &&& h > lo ==> forall|i: int|
        1 <= i < end && par(i) == h ==> below(c, #[trigger] s[i], s[par(h)])
}

/// Below `end`, only the links into and out of `h` may be out of order, and
/// `h`'s children are at most `h`'s parent.
pub open spec fn bottom_inv<T, C: Compare<T>>(c: C, s: Seq<T>, end: int, h: int) -> bool {
    &&& forall|i: int|
        1 <= i < end && i != h && par(i) != h ==> below(c, #[trigger] s[i], s[par(i)])
    &&& h > 0 ==> forall|i: int|
        1 <= i < end && par(i) == h ==> below(c, #[trigger] s[i], s[par(h)])
}

/// Borrowing iterator over a heap's elements in heap order.
pub type Iter<'a, T> = std::slice::Iter<'a, T>;

/// Owning iterator over a heap's elements in heap order.
pub type IntoIter<T> = std::vec::IntoIter<T>;

/// The elements taken out of a heap by `drain`, in heap order.
pub type Drain<T> = std::vec::IntoIter<T>;

/// A priority queue in a binary max-heap, ordered by a comparator it holds.
#[derive(Clone)]
pub struct BinaryHeap<T, C> {
    data: Vec<T>,
    cmp: C,
}

/// The most elements a heap holds, so that child indices stay in range.
pub open spec fn max_heap_len() -> nat {
    (usize::MAX / 2) as nat
}

impl<T, C: Compare<T>> View for BinaryHeap<T, C> {
    type V = Seq<T>;

    /// The elements in heap order.
    closed spec fn view(&self) -> Seq<T> {
        self.data@
    }
}

impl<T, C: Compare<T>> BinaryHeap<T, C> {
    pub closed spec fn comparator(&self) -> C {
        self.cmp
    }

    /// The elements form a heap under the comparator, which is a total preorder.
    pub open spec fn wf(&self) -> bool {
        &&& is_total_preorder(self.comparator())
        &&& self.comparator().callable()
        &&& is_heap(self.comparator(), self@)
        &&& self@.len() < max_heap_len()
    }

    fn sift_up(&mut self, pos: usize, end: usize) -> (r: usize)
        requires
            pos < end <= old(self)@.len(),
            is_total_preorder(old(self).cmp),
            old(self).cmp.callable(),
            up_inv(old(self).cmp, old(self)@, end as int, pos as int),
        ensures
            final(self).cmp == old(self).cmp,
            final(self)@.len() == old(self)@.len(),
            final(self)@.to_multiset() == old(self)@.to_multiset(),
            heap_upto(final(self).cmp, final(self)@, end as int),
            forall|k: int| end <= k < old(self)@.len() ==> final(self)@[k] == old(self)@[k],
            r <= pos,
    {
        let ghost c = self.cmp;
        let mut p = pos;
        let mut done = false;
        while p > 0 && !done
            invariant
                p <= pos < end <= self@.len(),
                self.cmp == c,
                c == old(self).cmp,
                done ==> heap_upto(c, self@, end as int),
                is_total_preorder(c),
                c.callable(),
                self@.len() == old(self)@.len(),
                self@.to_multiset() == old(self)@.to_multiset(),
                up_inv(c, self@, end as int, p as int),
                forall|k: int| end <= k < old(self)@.len() ==> self@[k] == old(self)@[k],
            decreases p + if done {
                0int
            } else {
                1int
            },
        {
            let parent = (p - 1) / 2;
            let ghost s = self@;
            match self.cmp.compare(&self.data[p], &self.data[parent]) {
                Ordering::Greater => {},
                _ => {
                    proof {
                        assert forall|i: int| 1 <= i < end implies below(
                            c,
                            #[trigger] s[i],
                            s[par(i)],
                        ) by {}
                    }
                    done = true;
                    continue;
                },
            }
            proof {
                lemma_swap_multiset(s, p as int, parent as int);
                assert(below(c, s[parent as int], s[p as int]));
            }
            swap_items(&mut self.data, p, parent);
            proof {
                let t = self@;
                let pi = p as int;
                let q = parent as int;
                assert forall|i: int| 1 <= i < end && i != q implies below(
                    c,
                    #[trigger] t[i],
                    t[par(i)],
                ) by {
                    if i == pi {
                    } else if par(i) == pi {
                        assert(below(c, s[i], s[par(pi)]));
                    } else if par(i) == q {
                        assert(below(c, s[i], s[q]));
                    } else {
                        assert(below(c, s[i], s[par(i)]));
                    }
                }
                if q > 0 {
                    assert forall|i: int| 1 <= i < end && par(i) == q implies below(
                        c,
                        #[trigger] t[i],
                        t[par(q)],
                    ) by {
                        assert(below(c, s[q], s[par(q)]));
                        if i != pi {
                            assert(below(c, s[i], s[q]));
                        }
                    }
                }
            }
            p = parent;
        }
        proof {
            let s = self@;
            assert forall|i: int| 1 <= i < end implies below(c, #[trigger] s[i], s[par(i)]) by {}
        }
        p
    }

    fn sift_down_range(&mut self, pos: usize, end: usize)
        requires
            pos < end <= old(self)@.len(),
            old(self)@.len() < max_heap_len(),
            is_total_preorder(old(self).cmp),
            old(self).cmp.callable(),
            heap_from(old(self).cmp, old(self)@, pos + 1, end as int),
        ensures
            final(self).cmp == old(self).cmp,
            final(self)@.len() == old(self)@.len(),
            final(self)@.to_multiset() == old(self)@.to_multiset(),
            heap_from(final(self).cmp, final(self)@, pos as int, end as int),
            forall|k: int|
                0 <= k < old(self)@.len() && (k < pos || end <= k) ==> final(self)@[k] == old(
                    self,
                )@[k],
    {
        let ghost c = self.cmp;
        let mut h = pos;
        let mut child = 2 * h + 1;
        while child + 1 < end
            invariant
                pos <= h < end <= self@.len(),
                self@.len() < max_heap_len(),
                child == 2 * h + 1,
                self.cmp == c,
                c == old(self).cmp,
                is_total_preorder(c),
                c.callable(),
                self@.len() == old(self)@.len(),
                self@.to_multiset() == old(self)@.to_multiset(),
                down_inv(c, self@, pos as int, end as int, h as int),
                forall|k: int|
                    0 <= k < old(self)@.len() && (k < pos || end <= k) ==> self@[k] == old(
                        self,
                    )@[k],
            decreases end - h,
        {
            let ghost s = self@;
            match self.cmp.compare(&self.data[child], &self.data[child + 1]) {
                Ordering::Greater => {},
                _ => {
                    child = child + 1;
                },
            }
            proof {
                let o = if child == 2 * h + 1 {
                    child + 1
                } else {
                    child - 1
                };
                assert(below(c, s[o as int], s[child as int]));
            }
            match self.cmp.compare(&self.data[h], &self.data[child]) {
                Ordering::Less => {},
                _ => {
                    proof {
                        assert(below(c, s[child as int], s[h as int]));
                        assert forall|i: int|
                            1 <= i < end && par(i) >= pos implies below(
                            c,
                            #[trigger] s[i],
                            s[par(i)],
                        ) by {
                            if par(i) == h {
                                if i != child {
                                    assert(below(c, s[i], s[child as int]));
                                }
                            }
                        }
                    }
                    return ;
                },
            }
            proof {
                lemma_swap_multiset(s, h as int, child as int);
            }
            swap_items(&mut self.data, h, child);
            proof {
                let t = self@;
                let hi = h as int;
                let ch = child as int;
                assert forall|i: int|
                    1 <= i < end && par(i) >= pos && par(i) != ch implies below(
                    c,
                    #[trigger] t[i],
                    t[par(i)],
                ) by {
                    if i == ch {
                    } else if par(i) == hi {
                        assert(below(c, s[i], s[ch]));
                    } else if i == hi {
                        assert(below(c, s[ch], s[par(hi)]));
                    } else {
                        assert(below(c, s[i], s[par(i)]));
                    }
                }
                assert forall|i: int| 1 <= i < end && par(i) == ch implies below(
                    c,
                    #[trigger] t[i],
                    t[par(ch)],
                ) by {
                    assert(below(c, s[i], s[ch]));
                }
            }
            h = child;
            child = 2 * h + 1;
        }
        if child + 1 == end {
            let ghost s = self@;
            match self.cmp.compare(&self.data[h], &self.data[child]) {
                Ordering::Less => {
                    proof {
                        lemma_swap_multiset(s, h as int, child as int);
                    }
                    swap_items(&mut self.data, h, child);
                    proof {
                        let t = self@;
                        let hi = h as int;
                        let ch = child as int;
                        assert forall|i: int| 1 <= i < end && par(i) >= pos implies below(
                            c,
                            #[trigger] t[i],
                            t[par(i)],
                        ) by {
                            if i == ch {
                            } else if i == hi {
                                assert(below(c, s[ch], s[par(hi)]));
                            } else {
                                assert(par(i) != hi);
                                assert(below(c, s[i], s[par(i)]));
                            }
                        }
                    }
                },
                _ => {
                    proof {
                        assert(below(c, s[child as int], s[h as int]));
                        assert forall|i: int| 1 <= i < end && par(i) >= pos implies below(
                            c,
                            #[trigger] s[i],
                            s[par(i)],
                        ) by {
                            if par(i) == h {
                                assert(i == child);
                            }
                        }
                    }
                },
            }
        } else {
            proof {
                let s = self@;
                assert forall|i: int| 1 <= i < end && par(i) >= pos implies below(
                    c,
                    #[trigger] s[i],
                    s[par(i)],
                ) by {
                    if par(i) == h {
                        assert(i >= child);
                    }
                }
            }
        }
    }

    /// Moves the element at 0 down to a leaf along the greater children, then up
    /// to its place.
    fn sift_down_to_bottom(&mut self)
        requires
            0 < old(self)@.len() < max_heap_len(),
            is_total_preorder(old(self).cmp),
            old(self).cmp.callable(),
            bottom_inv(old(self).cmp, old(self)@, old(self)@.len() as int, 0),
        ensures
            final(self).cmp == old(self).cmp,
            final(self)@.len() == old(self)@.len(),
            final(self)@.to_multiset() == old(self)@.to_multiset(),
            is_heap(final(self).cmp, final(self)@),
    {
        let ghost c = self.cmp;
        let end = self.data.len();
        let mut h: usize = 0;
        let mut child: usize = 1;
        while child + 1 < end
            invariant
                h < end == self@.len(),
                end < max_heap_len(),
                child == 2 * h + 1,
                self.cmp == c,
                c == old(self).cmp,
                is_total_preorder(c),
                c.callable(),
                self@.len() == old(self)@.len(),
                self@.to_multiset() == old(self)@.to_multiset(),
                bottom_inv(c, self@, end as int, h as int),
            decreases end - h,
        {
            let ghost s = self@;
            match self.cmp.compare(&self.data[child], &self.data[child + 1]) {
                Ordering::Greater => {},
                _ => {
                    child = child + 1;
                },
            }
            proof {
                let o = if child == 2 * h + 1 {
                    child + 1
                } else {
                    child - 1
                };
                assert(below(c, s[o as int], s[child as int]));
                lemma_swap_multiset(s, h as int, child as int);
            }
            swap_items(&mut self.data, h, child);
            proof {
                lemma_bottom_step(c, s, self@, end as int, h as int, child as int);
            }
            h = child;
            child = 2 * h + 1;
        }
        if child + 1 == end {
            let ghost s = self@;
            proof {
                lemma_swap_multiset(s, h as int, child as int);
                assert forall|i: int| 1 <= i < end && par(i) == h implies i == child by {}
            }
            swap_items(&mut self.data, h, child);
            proof {
                lemma_bottom_step(c, s, self@, end as int, h as int, child as int);
            }
            h = child;
        }
        proof {
            let s = self@;
            assert forall|i: int| 1 <= i < end && i != h implies below(
                c,
                #[trigger] s[i],
                s[par(i)],
            ) by {
                assert(par(i) != h);
            }
        }
        self.sift_up(h, end);
    }

    /// Makes the whole vector a heap.
    fn rebuild(&mut self)
        requires
            old(self)@.len() < max_heap_len(),
            is_total_preorder(old(self).cmp),
            old(self).cmp.callable(),
        ensures
            final(self).cmp == old(self).cmp,
            final(self)@.len() == old(self)@.len(),
            final(self)@.to_multiset() == old(self)@.to_multiset(),
            is_heap(final(self).cmp, final(self)@),
    {
        let ghost c = self.cmp;
        let len = self.data.len();
        let mut n = len / 2;
        proof {
            let s = self@;
            assert forall|i: int| 1 <= i < len && par(i) >= n implies below(
                c,
                #[trigger] s[i],
                s[par(i)],
            ) by {
                assert(false) by (nonlinear_arith)
                    requires
                        1 <= i < len,
                        (i - 1) / 2 >= len / 2,
                ;
            }
        }
        while n > 0
            invariant
                n <= len / 2,
                len == self@.len(),
                len < max_heap_len(),
                self.cmp == c,
                c == old(self).cmp,
                is_total_preorder(c),
                c.callable(),
                self@.len() == old(self)@.len(),
                self@.to_multiset() == old(self)@.to_multiset(),
                heap_from(c, self@, n as int, len as int),
            decreases n,
        {
            n = n - 1;
            self.sift_down_range(n, len);
        }
        proof {
            let s = self@;
            assert forall|i: int| 1 <= i < len implies below(c, #[trigger] s[i], s[par(i)]) by {
                assert(par(i) >= 0);
            }
        }
    }

    /// Restores the heap after elements were added or changed from `start` on.
    fn rebuild_tail(&mut self, start: usize)
        requires
            start <= old(self)@.len() < max_heap_len(),
            is_total_preorder(old(self).cmp),
            old(self).cmp.callable(),
            heap_upto(old(self).cmp, old(self)@, start as int),
        ensures
            final(self).cmp == old(self).cmp,
            final(self)@.len() == old(self)@.len(),
            final(self)@.to_multiset() == old(self)@.to_multiset(),
            is_heap(final(self).cmp, final(self)@),
    {
        let len = self.data.len();
        if start == len {
            return ;
        }
        let tail_len = len - start;
        let better_to_rebuild = if start < tail_len {
            true
        } else if len <= 2048 {
            let l = log2_floor(start);
            assert(tail_len * l <= 2048 * 64) by (nonlinear_arith)
                requires
                    tail_len <= 2048,
                    l < 64,
            ;
            2 * len < tail_len * l
        } else {
            (2 * len as u128) < (tail_len as u128) * 11
        };
        if better_to_rebuild {
            self.rebuild();
        } else {
            let ghost c = self.cmp;
            let mut i = start;
            while i < len
                invariant
                    start <= i <= len,
                    len == self@.len(),
                    self.cmp == c,
                    c == old(self).cmp,
                    is_total_preorder(c),
                    c.callable(),
                c.callable(),
                    self@.len() == old(self)@.len(),
                    self@.to_multiset() == old(self)@.to_multiset(),
                    heap_upto(c, self@, i as int),
                decreases len - i,
            {
                proof {
                    let s = self@;
                    assert forall|j: int| 1 <= j < i + 1 && par(j) == i implies below(
                        c,
                        #[trigger] s[j],
                        s[par(i as int)],
                    ) by {
                        assert(false) by (nonlinear_arith)
                            requires
                                j < i + 1,
                                (j - 1) / 2 == i,
                                1 <= j,
                        ;
                    }
                }
                self.sift_up(i, i + 1);
                i = i + 1;
            }
        }
    }
}

/// ⌊log₂ x⌋.
fn log2_floor(x: usize) -> (r: usize)
    requires
        x > 0,
    ensures
        r < 64,
{
    let mut v = x;
    let mut r: usize = 0;
    proof {
        vstd::arithmetic::power2::lemma2_to64();
    }
    while v > 1
        invariant
            v >= 1,
            r < 64,
            v * pow2(r as nat) <= x,
        decreases v,
    {
        proof {
            vstd::arithmetic::power2::lemma_pow2_pos(r as nat);
            vstd::arithmetic::power2::lemma_pow2_unfold((r + 1) as nat);
            assert((v / 2) * (2 * pow2(r as nat)) <= v * pow2(r as nat)) by (nonlinear_arith)
                requires
                    v > 1,
                    pow2(r as nat) > 0,
            ;
            if r + 1 >= 64 {
                vstd::arithmetic::power2::lemma2_to64();
                vstd::arithmetic::power2::lemma_pow2_strictly_increases(63, (r + 1) as nat);
                assert(x <= usize::MAX);
                assert((v / 2) * pow2((r + 1) as nat) >= pow2(64)) by (nonlinear_arith)
                    requires
                        v / 2 >= 1,
                        pow2((r + 1) as nat) >= pow2(64),
                ;
            }
        }
        v = v / 2;
        r = r + 1;
    }
    r
}

/// After moving `h`'s greater child `ch` into `h`, only the links into and out
/// of `ch` may be out of order.
proof fn lemma_bottom_step<T, C: Compare<T>>(c: C, s: Seq<T>, t: Seq<T>, end: int, h: int, ch: int)
    requires
        is_total_preorder(c),
        0 <= h < ch < end == s.len(),
        par(ch) == h,
        bottom_inv(c, s, end, h),
        forall|i: int| 1 <= i < end && par(i) == h && i != ch ==> below(c, #[trigger] s[i], s[ch]),
        t == s.update(h, s[ch]).update(ch, s[h]),
    ensures
        bottom_inv(c, t, end, ch),
{
    assert forall|i: int| 1 <= i < end && i != ch && par(i) != ch implies below(
        c,
        #[trigger] t[i],
        t[par(i)],
    ) by {
        if par(i) == h {
            assert(below(c, s[i], s[ch]));
        } else if i == h {
            assert(below(c, s[ch], s[par(h)]));
        } else {
            assert(below(c, s[i], s[par(i)]));
        }
    }
    assert forall|i: int| 1 <= i < end && par(i) == ch implies below(
        c,
        #[trigger] t[i],
        t[par(ch)],
    ) by {
        assert(below(c, s[i], s[ch]));
    }
}

impl<T, C: Compare<T> + Default> BinaryHeap<T, C> {
    /// An empty heap with the comparator's default value.
    pub fn new() -> (r: BinaryHeap<T, C>)
        requires
            forall|c: C| is_total_preorder::<T, C>(c) && c.callable(),
        ensures
            r@ == Seq::<T>::empty(),
            r.wf(),
    {
        BinaryHeap { data: Vec::new(), cmp: C::default() }
    }

    /// An empty heap with room for `capacity` elements.
    pub fn with_capacity(capacity: usize) -> (r: BinaryHeap<T, C>)
        requires
            forall|c: C| is_total_preorder::<T, C>(c) && c.callable(),
        ensures
            r@ == Seq::<T>::empty(),
            r.wf(),
    {
        BinaryHeap { data: Vec::with_capacity(capacity), cmp: C::default() }
    }

    /// A heap of the given elements.
    pub fn from_vec(data: Vec<T>) -> (r: BinaryHeap<T, C>)
        requires
            forall|c: C| is_total_preorder::<T, C>(c) && c.callable(),
            data@.len() < max_heap_len(),
        ensures
            r@.to_multiset() == data@.to_multiset(),
            r.wf(),
    {
        let mut heap = BinaryHeap { data, cmp: C::default() };
        heap.rebuild();
        heap
    }
}

impl<T, C: Compare<T>> BinaryHeap<T, C> {
    /// An empty heap ordered by `cmp`.
    pub fn new_by(cmp: C) -> (r: BinaryHeap<T, C>)
        requires
            is_total_preorder(cmp),
            cmp.callable(),
        ensures
            r@ == Seq::<T>::empty(),
            r.comparator() == cmp,
            r.wf(),
    {
        BinaryHeap { data: Vec::new(), cmp }
    }

    /// Adds an element.
    pub fn push(&mut self, item: T)
        requires
            old(self).wf(),
            old(self)@.len() + 1 < max_heap_len(),
        ensures
            final(self).wf(),
            final(self).comparator() == old(self).comparator(),
            final(self)@.to_multiset() == old(self)@.to_multiset().insert(item),
            final(self)@.len() == old(self)@.len() + 1,
    {
        let old_len = self.data.len();
        self.data.push(item);
        proof {
            let s = self@;
            let c = self.cmp;
            assert(s.drop_last() =~= old(self)@);
            assert(s =~= old(self)@.push(item));
            assert forall|i: int| 1 <= i < old_len + 1 && i != old_len implies below(
                c,
                #[trigger] s[i],
                s[par(i)],
            ) by {
                assert(s[i] == old(self)@[i]);
                assert(s[par(i)] == old(self)@[par(i)]);
            }
            assert forall|i: int| 1 <= i < old_len + 1 && par(i) == old_len implies below(
                c,
                #[trigger] s[i],
                s[par(old_len as int)],
            ) by {
                assert(false) by (nonlinear_arith)
                    requires
                        1 <= i < old_len + 1,
                        (i - 1) / 2 == old_len,
                ;
            }
        }
        self.sift_up(old_len, old_len + 1);
    }

    /// Removes and returns the greatest element.
    pub fn pop(&mut self) -> (r: Option<T>)
        requires
            old(self).wf(),
        ensures
            final(self).wf(),
            final(self).comparator() == old(self).comparator(),
            old(self)@.len() == 0 ==> r is None && final(self)@ == old(self)@,
            old(self)@.len() > 0 ==> r == Some(old(self)@[0]) && final(self)@.to_multiset()
                == old(self)@.to_multiset().remove(old(self)@[0]) && final(self)@.len()
                == old(self)@.len() - 1,
            r matches Some(x) ==> forall|i: int|
                0 <= i < old(self)@.len() ==> below(old(self).comparator(), old(self)@[i], x),
    {
        let len = self.data.len();
        if len == 0 {
            return None;
        }
        proof {
            assert forall|i: int| 0 <= i < len implies below(
                self.cmp,
                old(self)@[i],
                old(self)@[0],
            ) by {
                lemma_heap_top(self.cmp, old(self)@, i);
            }
            lemma_swap_multiset(self@, 0, len - 1);
        }
        swap_items(&mut self.data, 0, len - 1);
        let item = self.data.pop();
        proof {
            let s = self@;
            let t = old(self)@.update(0, old(self)@[len - 1]).update(len - 1, old(self)@[0]);
            assert(s =~= t.drop_last());
            assert(t =~= s.push(old(self)@[0]));
            assert(t.to_multiset() == s.to_multiset().insert(old(self)@[0]));
            assert(s.to_multiset() =~= old(self)@.to_multiset().remove(old(self)@[0]));
        }
        if self.data.len() > 0 {
            proof {
                let s = self@;
                let c = self.cmp;
                assert forall|i: int| 1 <= i < s.len() && i != 0 && par(i) != 0 implies below(
                    c,
                    #[trigger] s[i],
                    s[par(i)],
                ) by {
                    assert(s[i] == old(self)@[i]);
                    assert(s[par(i)] == old(self)@[par(i)]);
                }
            }
            self.sift_down_to_bottom();
        }
        item
    }

    /// The greatest element, if any.
    pub fn peek(&self) -> (r: Option<&T>)
        ensures
            self@.len() == 0 ==> r is None,
            self@.len() > 0 ==> r == Some(&self@[0]),
            self.wf() && r is Some ==> forall|i: int|
                0 <= i < self@.len() ==> below(self.comparator(), self@[i], self@[0]),
    {
        proof {
            if self.wf() {
                assert forall|i: int| 0 <= i < self@.len() implies below(
                    self.comparator(),
                    self@[i],
                    self@[0],
                ) by {
                    lemma_heap_top(self.cmp, self@, i);
                }
            }
        }
        if self.data.len() == 0 {
            None
        } else {
            Some(&self.data[0])
        }
    }

    pub fn len(&self) -> (r: usize)
        ensures
            r == self@.len(),
    {
        self.data.len()
    }

    pub fn is_empty(&self) -> (r: bool)
        ensures
            r == (self@.len() == 0),
    {
        self.len() == 0
    }

    /// The elements in heap order.
    pub fn as_slice(&self) -> (r: &[T])
        ensures
            r@ == self@,
    {
        self.data.as_slice()
    }

    /// The elements in heap order.
    pub fn into_vec(self) -> (r: Vec<T>)
        ensures
            r@ == self@,
    {
        self.data
    }

    /// Iterates over the elements in heap order.
    pub fn iter(&self) -> (r: Iter<'_, T>)
        ensures
            r.remaining() == self@.as_ref(),
    {
        let sl = self.data.as_slice();
        proof {
            vstd::std_specs::slice::axiom_spec_slice_iter(sl);
        }
        sl.iter()
    }

    /// The elements in heap order, by value.
    pub fn into_iter(self) -> (r: IntoIter<T>)
        ensures
            r.remaining() == self@,
    {
        let v = self.data;
        proof {
            vstd::std_specs::vec::axiom_spec_into_iter(v);
        }
        v.into_iter()
    }

    /// Removes all elements and hands them out in heap order.
    pub fn drain(&mut self) -> (r: Drain<T>)
        ensures
            r.remaining() == old(self)@,
            final(self)@ == Seq::<T>::empty(),
            final(self).comparator() == old(self).comparator(),
    {
        let mut taken = Vec::new();
        std::mem::swap(&mut self.data, &mut taken);
        proof {
            vstd::std_specs::vec::axiom_spec_into_iter(taken);
        }
        taken.into_iter()
    }

    /// Removes all elements.
    pub fn clear(&mut self)
        ensures
            final(self)@ == Seq::<T>::empty(),
            final(self).comparator() == old(self).comparator(),
    {
        self.data.clear();
    }

    /// Adds all of `items`, then restores the heap.
    pub fn extend(&mut self, items: Vec<T>)
        requires
            old(self).wf(),
            old(self)@.len() + items@.len() < max_heap_len(),
        ensures
            final(self).wf(),
            final(self).comparator() == old(self).comparator(),
            final(self)@.to_multiset() == old(self)@.to_multiset().add(items@.to_multiset()),
    {
        let start = self.data.len();
        let ghost a = self@;
        let mut items = items;
        let ghost b = items@;
        self.data.append(&mut items);
        proof {
            let s = self@;
            let c = self.cmp;
            assert(s =~= a + b);
            vstd::seq_lib::lemma_multiset_commutative(a, b);
            assert forall|i: int| 1 <= i < start implies below(c, #[trigger] s[i], s[par(i)]) by {
                assert(s[i] == a[i]);
                assert(s[par(i)] == a[par(i)]);
            }
        }
        self.rebuild_tail(start);
    }

    /// Moves all elements of `other` into `self`, leaving `other` empty.
    pub fn append(&mut self, other: &mut Self)
        requires
            old(self).wf(),
            old(other).wf(),
            old(self).comparator() == old(other).comparator(),
            old(self)@.len() + old(other)@.len() < max_heap_len(),
        ensures
            final(self).wf(),
            final(other).wf(),
            final(self).comparator() == old(self).comparator(),
            final(other).comparator() == old(self).comparator(),
            final(self)@.to_multiset() == old(self)@.to_multiset().add(old(other)@.to_multiset()),
            final(other)@ == Seq::<T>::empty(),
    {
        if self.data.len() < other.data.len() {
            std::mem::swap(self, other);
        }
        let start = self.data.len();
        let ghost a = self@;
        let ghost b = other@;
        self.data.append(&mut other.data);
        proof {
            let s = self@;
            let c = self.cmp;
            assert(s =~= a + b);
            vstd::seq_lib::lemma_multiset_commutative(a, b);
            assert forall|i: int| 1 <= i < start implies below(c, #[trigger] s[i], s[par(i)]) by {
                assert(s[i] == a[i]);
                assert(s[par(i)] == a[par(i)]);
            }
        }
        self.rebuild_tail(start);
        proof {
            assert(old(self)@.to_multiset().add(old(other)@.to_multiset()) =~= old(
                other,
            )@.to_multiset().add(old(self)@.to_multiset()));
        }
    }
}

/// The elements of `s` whose decision in `d` is `true`, in order.
pub open spec fn kept<T>(s: Seq<T>, d: Seq<bool>) -> Seq<T>
    decreases s.len(),
{
    if s.len() == 0 || d.len() == 0 {
        Seq::empty()
    } else if d.last() {
        kept(s.drop_last(), d.drop_last()).push(s.last())
    } else {
        kept(s.drop_last(), d.drop_last())
    }
}

/// Relies on `Vec::capacity`, which is never below the length.
#[verifier::external_body]
fn vec_capacity<T>(v: &Vec<T>) -> (r: usize)
    ensures
        r >= v@.len(),
{
    v.capacity()
}

/// Relies on `Vec::reserve_exact`, which keeps the elements.
#[verifier::external_body]
fn vec_reserve_exact<T>(v: &mut Vec<T>, additional: usize)
    ensures
        final(v)@ == old(v)@,
{
    v.reserve_exact(additional)
}

/// Relies on `Vec::try_reserve_exact`, which keeps the elements.
#[verifier::external_body]
fn vec_try_reserve_exact<T>(v: &mut Vec<T>, additional: usize) -> (r: Result<
    (),
    std::collections::TryReserveError,
>)
    ensures
        final(v)@ == old(v)@,
{
    v.try_reserve_exact(additional)
}

/// Relies on `Vec::shrink_to_fit`, which keeps the elements.
#[verifier::external_body]
fn vec_shrink_to_fit<T>(v: &mut Vec<T>)
    ensures
        final(v)@ == old(v)@,
{
    v.shrink_to_fit()
}

/// Relies on `Vec::shrink_to`, which keeps the elements.
#[verifier::external_body]
fn vec_shrink_to<T>(v: &mut Vec<T>, min_capacity: usize)
    ensures
        final(v)@ == old(v)@,
{
    v.shrink_to(min_capacity)
}

impl<T, C: Compare<T>> BinaryHeap<T, C> {
    /// How many elements fit without reallocating.
    pub fn capacity(&self) -> (r: usize)
        ensures
            r >= self@.len(),
    {
        vec_capacity(&self.data)
    }

    pub fn reserve(&mut self, additional: usize)
        ensures
            final(self)@ == old(self)@,
            final(self).comparator() == old(self).comparator(),
    {
        self.data.reserve(additional);
    }

    pub fn reserve_exact(&mut self, additional: usize)
        ensures
            final(self)@ == old(self)@,
            final(self).comparator() == old(self).comparator(),
    {
        vec_reserve_exact(&mut self.data, additional);
    }

    pub fn try_reserve(&mut self, additional: usize) -> (r: Result<
        (),
        std::collections::TryReserveError,
    >)
        ensures
            final(self)@ == old(self)@,
            final(self).comparator() == old(self).comparator(),
    {
        self.data.try_reserve(additional)
    }

    pub fn try_reserve_exact(&mut self, additional: usize) -> (r: Result<
        (),
        std::collections::TryReserveError,
    >)
        ensures
            final(self)@ == old(self)@,
            final(self).comparator() == old(self).comparator(),
    {
        vec_try_reserve_exact(&mut self.data, additional)
    }

    pub fn shrink_to_fit(&mut self)
        ensures
            final(self)@ == old(self)@,
            final(self).comparator() == old(self).comparator(),
    {
        vec_shrink_to_fit(&mut self.data);
    }

    pub fn shrink_to(&mut self, min_capacity: usize)
        ensures
            final(self)@ == old(self)@,
            final(self).comparator() == old(self).comparator(),
    {
        vec_shrink_to(&mut self.data, min_capacity);
    }

    /// Keeps only the elements that `f` accepts; the elements before the first
    /// one dropped keep their places.
    pub fn retain<F: Fn(&T) -> bool>(&mut self, f: F)
        requires
            old(self).wf(),
            forall|x: &T| #[trigger] f.requires((x,)),
        ensures
            final(self).wf(),
            final(self).comparator() == old(self).comparator(),
            exists|d: Seq<bool>|
                {
                    &&& d.len() == old(self)@.len()
                    &&& forall|i: int| 0 <= i < d.len() ==> f.ensures((&old(self)@[i],), #[trigger] d[i])
                    &&& final(self)@.to_multiset() == kept(old(self)@, d).to_multiset()
                },
    {
        let ghost orig = self@;
        let n = self.data.len();
        let mut taken: Vec<T> = Vec::new();
        std::mem::swap(&mut self.data, &mut taken);
        let mut rev: Vec<T> = Vec::new();
        while taken.len() > 0
            invariant
                taken@.len() + rev@.len() == n,
                n == orig.len(),
                orig == old(self)@,
                self.cmp == old(self).cmp,
                self@ == Seq::<T>::empty(),
                forall|j: int| 0 <= j < taken@.len() ==> taken@[j] == orig[j],
                forall|j: int| 0 <= j < rev@.len() ==> rev@[j] == orig[n - 1 - j],
            decreases taken@.len(),
        {
            let x = taken.pop().unwrap();
            rev.push(x);
        }
        let ghost mut d: Seq<bool> = Seq::empty();
        let mut first_removed = n;
        let mut i: usize = 0;
        while rev.len() > 0
            invariant
                i + rev@.len() == n,
                n == orig.len(),
                orig == old(self)@,
                self.cmp == old(self).cmp,
                d.len() == i,
                forall|j: int| 0 <= j < rev@.len() ==> rev@[j] == orig[n - 1 - j],
                forall|j: int| 0 <= j < i ==> f.ensures((&orig[j],), #[trigger] d[j]),
                self@ == kept(orig.take(i as int), d),
                forall|x: &T| #[trigger] f.requires((x,)),
                first_removed == n ==> self@ == orig.take(i as int),
                first_removed < n ==> first_removed < i && self@.len() >= first_removed
                    && self@.take(first_removed as int) == orig.take(first_removed as int),
                first_removed <= n,
            decreases rev@.len(),
        {
            let x = rev.pop().unwrap();
            assert(x == orig[i as int]);
            let keep = f(&x);
            proof {
                let p = orig.take(i + 1);
                let e = d.push(keep);
                assert(p.drop_last() =~= orig.take(i as int));
                assert(e.drop_last() =~= d);
                d = e;
            }
            if keep {
                self.data.push(x);
            } else if first_removed == n {
                first_removed = i;
            }
            proof {
                if first_removed == n {
                    assert(self@ =~= orig.take(i + 1));
                } else if first_removed < i {
                    assert(self@.take(first_removed as int) =~= orig.take(first_removed as int));
                } else {
                    assert(self@.take(first_removed as int) =~= orig.take(first_removed as int));
                }
            }
            i = i + 1;
        }
        assert(orig.take(n as int) =~= orig);
        proof {
            let s = self@;
            let c = self.cmp;
            let fr = first_removed as int;
            assert forall|k: int| 1 <= k < fr implies below(c, #[trigger] s[k], s[par(k)]) by {
                assert(s[k] == s.take(fr)[k]);
                assert(s[par(k)] == s.take(fr)[par(k)]);
                assert(orig[k] == orig.take(fr)[k]);
                assert(orig[par(k)] == orig.take(fr)[par(k)]);
            }
            lemma_kept_len(orig, d);
        }
        self.rebuild_tail(first_removed);
    }
}

proof fn lemma_kept_len<T>(s: Seq<T>, d: Seq<bool>)
    ensures
        kept(s, d).len() <= s.len(),
    decreases s.len(),
{
    if s.len() > 0 && d.len() > 0 {
        lemma_kept_len(s.drop_last(), d.drop_last());
    }
}

/// Every element of a part of a sequence comes from the same part of the
/// sequence it was rearranged from.
proof fn lemma_prefix_from<T>(old_s: Seq<T>, new_s: Seq<T>, e: int, i: int) -> (k: int)
    requires
        0 <= i < e <= old_s.len(),
        old_s.len() == new_s.len(),
        old_s.to_multiset() == new_s.to_multiset(),
        forall|j: int| e <= j < old_s.len() ==> new_s[j] == old_s[j],
    ensures
        0 <= k < e,
        old_s[k] == new_s[i],
{
    broadcast use vstd::seq_lib::group_to_multiset_ensures;
    broadcast use vstd::multiset::group_multiset_properties;

    vstd::seq_lib::lemma_multiset_commutative(old_s.take(e), old_s.skip(e));
    vstd::seq_lib::lemma_multiset_commutative(new_s.take(e), new_s.skip(e));
    assert(old_s.take(e) + old_s.skip(e) =~= old_s);
    assert(new_s.take(e) + new_s.skip(e) =~= new_s);
    assert(old_s.skip(e) =~= new_s.skip(e));
    let a = old_s.take(e).to_multiset();
    let b = new_s.take(e).to_multiset();
    let rest = old_s.skip(e).to_multiset();
    assert(a.add(rest) == b.add(rest));
    assert forall|v: T| b.count(v) == a.count(v) by {
        assert(a.add(rest).count(v) == a.count(v) + rest.count(v));
        assert(b.add(rest).count(v) == b.count(v) + rest.count(v));
    }
    assert(b =~= a);
    let x = new_s[i];
    assert(new_s.take(e)[i] == x);
    assert(new_s.take(e).contains(x));
    assert(old_s.take(e).to_multiset().count(x) > 0);
    assert(old_s.take(e).contains(x));
    let k = choose|k: int| 0 <= k < e && old_s.take(e)[k] == x;
    k
}

impl<T, C: Compare<T>> BinaryHeap<T, C> {
    /// The elements in ascending order.
    pub fn into_sorted_vec(self) -> (r: Vec<T>)
        requires
            self.wf(),
        ensures
            r@.to_multiset() == self@.to_multiset(),
            forall|i: int, j: int|
                0 <= i <= j < r@.len() ==> below(self.comparator(), r@[i], r@[j]),
    {
        let mut heap = self;
        let ghost c = heap.cmp;
        let len = heap.data.len();
        let mut end = len;
        while end > 1
            invariant
                end <= len == heap@.len(),
                len < max_heap_len(),
                heap.cmp == c,
                c == self.cmp,
                is_total_preorder(c),
                c.callable(),
                heap@.to_multiset() == self@.to_multiset(),
                heap_upto(c, heap@, end as int),
                forall|i: int, j: int| end <= i <= j < len ==> below(c, #[trigger] heap@[i], #[trigger] heap@[j]),
                forall|i: int, j: int| 0 <= i < end <= j < len ==> below(c, #[trigger] heap@[i], #[trigger] heap@[j]),
                end == 0 ==> len == 0,
            decreases end,
        {
            let ghost s = heap@;
            end = end - 1;
            proof {
                assert forall|k: int| 0 <= k <= end implies below(c, s[k], s[0]) by {
                    let p = s.take(end + 1);
                    assert forall|i: int| 1 <= i < p.len() implies below(c, #[trigger] p[i], p[par(i)]) by {
                        assert(p[i] == s[i]);
                        assert(p[par(i)] == s[par(i)]);
                    }
                    lemma_heap_top(c, p, k);
                    assert(p[k] == s[k]);
                    assert(p[0] == s[0]);
                }
                lemma_swap_multiset(s, 0, end as int);
            }
            swap_items(&mut heap.data, 0, end);
            let ghost t = heap@;
            proof {
                assert forall|i: int| 1 <= i < end && par(i) >= 1 implies below(c, #[trigger] t[i], t[par(i)]) by {
                    assert(t[i] == s[i]);
                    assert(t[par(i)] == s[par(i)]);
                }
                assert forall|i: int, j: int| end <= i <= j < len implies below(c, #[trigger] t[i], #[trigger] t[j]) by {
                    if i == end {
                        if j > end {
                            assert(below(c, s[0], s[j]));
                        } else {
                            assert(c.spec_compare(s[0], s[0]) == flip(c.spec_compare(s[0], s[0])));
                        }
                    }
                }
                assert forall|i: int, j: int| 0 <= i < end <= j < len implies below(c, #[trigger] t[i], #[trigger] t[j]) by {
                    let k = if i == 0 { end as int } else { i };
                    assert(t[i] == s[k]);
                    if j == end {
                        assert(below(c, s[k], s[0]));
                    } else {
                        assert(below(c, s[k], s[j]));
                    }
                }
            }
            if end > 0 {
                heap.sift_down_range(0, end);
            }
            proof {
                let u = heap@;
                assert forall|i: int, j: int| 0 <= i < end <= j < len implies below(c, #[trigger] u[i], #[trigger] u[j]) by {
                    let k = lemma_prefix_from(t, u, end as int, i);
                    assert(below(c, t[k], t[j]));
                }
                assert forall|i: int, j: int| end <= i <= j < len implies below(c, #[trigger] u[i], #[trigger] u[j]) by {
                    assert(u[i] == t[i] && u[j] == t[j]);
                }
                if end == 0 {
                    assert forall|i: int| 1 <= i < end implies below(c, #[trigger] u[i], u[par(i)]) by {}
                }
            }
        }
        proof {
            let u = heap@;
            if len > 0 {
                assert(end == 1 || end == 0);
                assert forall|i: int, j: int| 0 <= i <= j < len implies below(c, u[i], u[j]) by {
                    if i == j {
                        assert(c.spec_compare(u[i], u[i]) == flip(c.spec_compare(u[i], u[i])));
                    } else if i >= end {
                        assert(below(c, u[i], u[j]));
                    } else {
                        assert(below(c, u[i], u[j]));
                    }
                }
            }
        }
        heap.into_vec()
    }
}

} // verus!
