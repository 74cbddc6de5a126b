//! A vector kept in order by insertion: the priority container of the sweep.

use vstd::prelude::*;
use vstd::std_specs::cmp::PartialOrdIs;
use vstd::std_specs::cmp::PartialOrdSpec;

verus! {

/// Whether `<=` on `T` computes what its specification says.
pub open spec fn comparison_is_specified<T: PartialOrd>() -> bool {
    T::obeys_partial_cmp_spec()
}

/// `a <= b`, as the specification of `T` has it.
pub open spec fn le<T: PartialOrd>(a: T, b: T) -> bool {
    a.is_le(&b)
}

/// `<=` on `T` orders any two values, and does so transitively.
pub open spec fn is_total_preorder<T: PartialOrd>() -> bool {
    &&& comparison_is_specified::<T>()
    &&& forall|a: T, b: T| #[trigger] le(a, b) || le(b, a)
    &&& forall|a: T, b: T, c: T| #[trigger] le(a, b) && #[trigger] le(b, c) ==> le(a, c)
}

/// No value of `s` is followed by one that it is not `<=` to.
pub open spec fn is_sorted<T: PartialOrd>(s: Seq<T>) -> bool {
    forall|i: int, j: int| 0 <= i < j < s.len() ==> le(s[i], s[j])
}

/// Where `push` puts `value` into `s`: just behind the last value that is
/// `<=` to it, and at the front where there is none.
pub open spec fn insertion_point<T: PartialOrd>(s: Seq<T>, value: T) -> int
    decreases s.len(),
{
    if s.len() == 0 || le(s.last(), value) {
        s.len() as int
    } else {
        insertion_point(s.drop_last(), value)
    }
}

/// What a container holds after the values of `values` were pushed into an
/// empty one, the first of them first.
pub open spec fn push_all<T: PartialOrd>(values: Seq<T>) -> Seq<T>
    decreases values.len(),
{
    if values.len() == 0 {
        Seq::empty()
    } else {
        let rest = push_all(values.drop_last());
        rest.insert(insertion_point(rest, values.last()), values.last())
    }
}

/// The values that come out of a container that holds `s` when it is popped
/// until it is empty, in the order in which they come out.
pub open spec fn pop_all<T>(s: Seq<T>) -> Seq<T>
    decreases s.len(),
{
    if s.len() == 0 {
        Seq::empty()
    } else {
        seq![s.last()] + pop_all(s.drop_last())
    }
}

/// `<=` on `T` as a relation.
pub open spec fn le_relation<T: PartialOrd>() -> spec_fn(T, T) -> bool {
    |a: T, b: T| le(a, b)
}

/// A vector that `push` keeps in ascending order, so that its greatest value
/// is its last: `peek` and `pop` give that one.
#[derive(Clone, Debug)]
pub struct SortedVector<T> where T: PartialOrd {
    pub array: Vec<T>,
}

impl<T: PartialOrd> View for SortedVector<T> {
    type V = Seq<T>;

    open spec fn view(&self) -> Seq<T> {
        self.array@
    }
}

/// `<[T]>::swap` of the standard library on a vector: the values at the two
/// places change places, and nothing else changes. Both places are asked to
/// be in bounds, where the standard library would panic.
#[verifier::external_body]
fn swap_places<T>(array: &mut Vec<T>, a: usize, b: usize)
    requires
        a < old(array)@.len(),
        b < old(array)@.len(),
    ensures
        final(array)@ == old(array)@.update(a as int, old(array)@[b as int]).update(
            b as int,
            old(array)@[a as int],
        ),
{
    array.swap(a, b);
}

impl<T: PartialOrd> SortedVector<T> {
    /// An empty container.
    pub fn new() -> (vector: SortedVector<T>)
        ensures
            vector@ == Seq::<T>::empty(),
    {
        SortedVector { array: Vec::new() }
    }

    /// Puts `value` in: it is appended and then moved towards the front for
    /// as long as the value before it is not `<=` to it.
    pub fn push(&mut self, value: T)
        ensures
            exists|k: int|
                0 <= k <= old(self)@.len() && final(self)@ == #[trigger] old(self)@.insert(
                    k,
                    value,
                ),
            comparison_is_specified::<T>() ==> final(self)@ == old(self)@.insert(
                insertion_point(old(self)@, value),
                value,
            ),
    {
        self.array.push(value);
        let mut index: usize = self.array.len() - 1;
        let ghost before = old(self)@;
        assert(self.array@ =~= before.insert(index as int, value));
        proof {
            lemma_insertion_point_start(before, value);
        }
        while index > 0
            invariant_except_break
                comparison_is_specified::<T>() ==> insertion_point(before, value)
                    == insertion_point(before.take(index as int), value),
            invariant
                0 <= index <= before.len(),
                before == old(self)@,
                self.array@ == before.insert(index as int, value),
            ensures
                comparison_is_specified::<T>() ==> insertion_point(before, value) == index,
            decreases index,
        {
            index -= 1;
            let in_order = self.array[index] <= self.array[index + 1];
            proof {
                let prefix = before.take(index + 1);
                assert(prefix.last() == before[index as int]);
                assert(prefix.drop_last() =~= before.take(index as int));
            }
            if in_order {
                index += 1;
                break ;
            }
            swap_places(&mut self.array, index, index + 1);
            assert(self.array@ =~= before.insert(index as int, value));
        }
    }

    /// The greatest value, where there is one.
    pub fn peek(&self) -> (top: Option<&T>)
        ensures
            self@.len() == 0 ==> top.is_none(),
            self@.len() > 0 ==> top == Some(&self@.last()),
    {
        if self.array.len() == 0 {
            None
        } else {
            Some(&self.array[self.array.len() - 1])
        }
    }

    /// Takes the greatest value out, where there is one.
    pub fn pop(&mut self) -> (top: Option<T>)
        ensures
            old(self)@.len() == 0 ==> top.is_none() && final(self)@ == old(self)@,
            old(self)@.len() > 0 ==> top == Some(old(self)@.last()) && final(self)@ == old(
                self,
            )@.drop_last(),
    {
        let top = self.array.pop();
        assert(old(self)@.len() > 0 ==> self.array@ =~= old(self)@.drop_last());
        top
    }

    /// Takes everything out.
    pub fn clear(&mut self)
        ensures
            final(self)@ == Seq::<T>::empty(),
    {
        self.array.clear();
    }

    /// Tells whether the container holds nothing.
    pub fn is_empty(&self) -> (empty: bool)
        ensures
            empty == (self@.len() == 0),
    {
        self.array.len() == 0
    }
}

/// The insertion point lies within the sequence.
proof fn lemma_insertion_point_start<T: PartialOrd>(s: Seq<T>, value: T)
    ensures
        0 <= insertion_point(s, value) <= s.len(),
        insertion_point(s, value) == insertion_point(s.take(s.len() as int), value),
    decreases s.len(),
{
    assert(s.take(s.len() as int) =~= s);
    if s.len() > 0 && !le(s.last(), value) {
        lemma_insertion_point_start(s.drop_last(), value);
    }
}

/// The value just before the insertion point is `<=` to the new value, and no
/// value from the insertion point on is.
pub proof fn lemma_insertion_point<T: PartialOrd>(s: Seq<T>, value: T)
    ensures
        0 <= insertion_point(s, value) <= s.len(),
        insertion_point(s, value) > 0 ==> le(s[insertion_point(s, value) - 1], value),
        forall|j: int| insertion_point(s, value) <= j < s.len() ==> !le(#[trigger] s[j], value),
    decreases s.len(),
{
    if s.len() > 0 && !le(s.last(), value) {
        lemma_insertion_point(s.drop_last(), value);
        let k = insertion_point(s.drop_last(), value);
        assert forall|j: int| k <= j < s.len() implies !le(#[trigger] s[j], value) by {
            if j < s.len() - 1 {
                assert(s.drop_last()[j] == s[j]);
            }
        }
        if k > 0 {
            assert(s.drop_last()[k - 1] == s[k - 1]);
        }
    }
}

/// Where `<=` is a total preorder, `push` keeps a sorted container sorted.
pub proof fn lemma_push_keeps_sorted<T: PartialOrd>(s: Seq<T>, value: T)
    requires
        is_total_preorder::<T>(),
        is_sorted(s),
    ensures
        is_sorted(s.insert(insertion_point(s, value), value)),
{
    lemma_insertion_point(s, value);
    let k = insertion_point(s, value);
    let t = s.insert(k, value);
    assert forall|i: int, j: int| 0 <= i < j < t.len() implies le(t[i], t[j]) by {
        if j < k {
            assert(t[i] == s[i] && t[j] == s[j]);
        } else if j == k {
            assert(t[i] == s[i]);
            assert(le(s[k - 1], value));
            if i < k - 1 {
                assert(le(s[i], s[k - 1]));
            }
        } else if i == k {
            assert(t[j] == s[j - 1]);
            assert(!le(s[j - 1], value));
            assert(le(value, s[j - 1]) || le(s[j - 1], value));
        } else if i < k {
            assert(t[i] == s[i] && t[j] == s[j - 1]);
        } else {
            assert(t[i] == s[i - 1] && t[j] == s[j - 1]);
        }
    }
}

/// Where `<=` is a total preorder, pushing values into an empty container,
/// in any order, leaves it sorted, and it holds the values that were pushed,
/// each as often as it was pushed.
pub proof fn lemma_push_all_sorted<T: PartialOrd>(values: Seq<T>)
    requires
        is_total_preorder::<T>(),
    ensures
        is_sorted(push_all(values)),
        push_all(values).len() == values.len(),
        push_all(values).to_multiset() == values.to_multiset(),
    decreases values.len(),
{
    if values.len() == 0 {
        assert(push_all(values) =~= values);
    } else {
        let front = values.drop_last();
        let rest = push_all(front);
        lemma_push_all_sorted(front);
        lemma_insertion_point(rest, values.last());
        lemma_push_keeps_sorted(rest, values.last());
        vstd::seq_lib::to_multiset_insert(
            rest,
            insertion_point(rest, values.last()),
            values.last(),
        );
        vstd::seq_lib::to_multiset_build(front, values.last());
        assert(front.push(values.last()) =~= values);
    }
}

/// Popping until the container is empty gives its values from the last to
/// the first.
pub proof fn lemma_pop_all_reverses<T>(s: Seq<T>)
    ensures
        pop_all(s) == s.reverse(),
    decreases s.len(),
{
    if s.len() > 0 {
        lemma_pop_all_reverses(s.drop_last());
    }
    assert(pop_all(s) =~= s.reverse());
}

/// Where `<=` is a total order, pushing the values of a sequence, in any
/// order, and then popping until the container is empty gives the sequence
/// sorted, from its greatest value down.
pub proof fn lemma_push_all_pop_all_sorts<T: PartialOrd>(values: Seq<T>)
    requires
        comparison_is_specified::<T>(),
        vstd::relations::total_ordering(le_relation::<T>()),
    ensures
        push_all(values) == values.sort_by(le_relation::<T>()),
        pop_all(push_all(values)) == values.sort_by(le_relation::<T>()).reverse(),
{
    let leq = le_relation::<T>();
    assert(is_total_preorder::<T>()) by {
        assert forall|a: T, b: T| #[trigger] le(a, b) || le(b, a) by {
            assert(leq(a, b) || leq(b, a));
        }
        assert forall|a: T, b: T, c: T| #[trigger] le(a, b) && #[trigger] le(b, c) implies le(
            a,
            c,
        ) by {
            assert(leq(a, b) && leq(b, c));
        }
    }
    lemma_push_all_sorted(values);
    values.lemma_sort_by_ensures(leq);
    let pushed = push_all(values);
    assert(vstd::relations::sorted_by(pushed, leq)) by {
        assert forall|i: int, j: int| 0 <= i < j < pushed.len() implies #[trigger] leq(
            pushed[i],
            pushed[j],
        ) by {
            assert(le(pushed[i], pushed[j]));
        }
    }
    vstd::seq_lib::lemma_sorted_unique(pushed, values.sort_by(leq), leq);
    lemma_pop_all_reverses(pushed);
}

/// On 32-bit integers `<=` is a total order and is computed as specified, so
/// what holds of every total order holds of them.
pub proof fn lemma_integers_are_totally_ordered()
    ensures
        comparison_is_specified::<i32>(),
        is_total_preorder::<i32>(),
        vstd::relations::total_ordering(le_relation::<i32>()),
        forall|a: i32, b: i32| le(a, b) <==> a <= b,
{
    let leq = le_relation::<i32>();
    assert forall|a: i32, b: i32| #[trigger] le(a, b) <==> a <= b by {}
    assert(vstd::relations::reflexive(leq)) by {
        assert forall|a: i32| #[trigger] leq(a, a) by {
            assert(le(a, a));
        }
    }
    assert(vstd::relations::antisymmetric(leq)) by {
        assert forall|a: i32, b: i32| #[trigger] leq(a, b) && #[trigger] leq(b, a) implies a
            == b by {
            assert(le(a, b) && le(b, a));
        }
    }
    assert(vstd::relations::transitive(leq)) by {
        assert forall|a: i32, b: i32, c: i32| #[trigger] leq(a, b) && #[trigger] leq(
            b,
            c,
        ) implies leq(a, c) by {
            assert(le(a, b) && le(b, c));
            assert(le(a, c));
        }
    }
    assert(vstd::relations::strongly_connected(leq)) by {
        assert forall|a: i32, b: i32| #[trigger] leq(a, b) || #[trigger] leq(b, a) by {
            assert(le(a, b) || le(b, a));
        }
    }
}

} // verus!
