//! A stable sort of copyable items by an integer key.
use vstd::prelude::*;

verus! {

/// An item with a key to sort by.
pub trait Keyed: Copy {
    /// The key.
    spec fn key(&self) -> int;

    /// The key.
    fn sort_key(&self) -> (result: u64)
        ensures
            result as int == self.key(),
    ;
}

/// The items of one key, in their sequence.
pub open spec fn with_key<T: Keyed>(items: Seq<T>, key: int) -> Seq<T>
    decreases items.len(),
{
    if items.len() == 0 {
        Seq::empty()
    } else {
        let rest = with_key(items.drop_last(), key);
        if items.last().key() == key {
            rest.push(items.last())
        } else {
            rest
        }
    }
}

/// Whether no key is smaller than one before it.
pub open spec fn ascending<T: Keyed>(items: Seq<T>) -> bool {
    forall|i: int, j: int|
        0 <= i < j < items.len() ==> (#[trigger] items[i]).key() <= (#[trigger] items[j]).key()
}

/// Whether `output` holds the items of `input` by ascending key, those of one key
/// in the sequence that they had.
pub open spec fn stably_sorted<T: Keyed>(input: Seq<T>, output: Seq<T>) -> bool {
    &&& ascending(output)
    &&& output.len() == input.len()
    &&& forall|key: int| #[trigger] with_key(output, key) == with_key(input, key)
}

/// The items of one key in a concatenation are those of the first part, then
/// those of the second.
pub proof fn with_key_of_concatenation<T: Keyed>(a: Seq<T>, b: Seq<T>, key: int)
    ensures
        with_key(a + b, key) == with_key(a, key) + with_key(b, key),
    decreases b.len(),
{
    if b.len() == 0 {
        assert(a + b =~= a);
        assert(with_key(a, key) + with_key(b, key) =~= with_key(a, key));
    } else {
        assert((a + b).drop_last() =~= a + b.drop_last());
        assert((a + b).last() == b.last());
        with_key_of_concatenation(a, b.drop_last(), key);
        assert(with_key(a + b, key) =~= with_key(a, key) + with_key(b, key));
    }
}

proof fn absent_key<T: Keyed>(items: Seq<T>, key: int)
    requires
        forall|i: int| 0 <= i < items.len() ==> (#[trigger] items[i]).key() != key,
    ensures
        with_key(items, key) == Seq::<T>::empty(),
    decreases items.len(),
{
    if items.len() > 0 {
        assert(items[items.len() - 1].key() != key);
        assert forall|i: int| 0 <= i < items.drop_last().len() implies (
        #[trigger] items.drop_last()[i]).key() != key by {
            assert(items[i].key() != key);
        }
        absent_key(items.drop_last(), key);
    }
}

proof fn head_of_suffix<T: Keyed>(items: Seq<T>, i: int, key: int)
    requires
        0 <= i < items.len(),
    ensures
        with_key(items.skip(i), key) == with_key(seq![items[i]], key) + with_key(
            items.skip(i + 1),
            key,
        ),
{
    assert(items.skip(i) =~= seq![items[i]] + items.skip(i + 1));
    with_key_of_concatenation(seq![items[i]], items.skip(i + 1), key);
}

/// The state of a merge: what is out, and what is left on either side.
spec fn merged<T: Keyed>(out: Seq<T>, left: Seq<T>, right: Seq<T>, i: int, j: int) -> bool {
    forall|key: int|
        #[trigger] with_key(out, key) + with_key(left.skip(i), key) + with_key(right.skip(j), key)
            == with_key(left, key) + with_key(right, key)
}

proof fn take_left<T: Keyed>(out: Seq<T>, left: Seq<T>, right: Seq<T>, i: int, j: int)
    requires
        merged(out, left, right, i, j),
        0 <= i < left.len(),
    ensures
        merged(out.push(left[i]), left, right, i + 1, j),
{
    assert forall|key: int|
        #[trigger] with_key(out.push(left[i]), key) + with_key(left.skip(i + 1), key) + with_key(
            right.skip(j),
            key,
        ) == with_key(left, key) + with_key(right, key) by {
        assert(with_key(out, key) + with_key(left.skip(i), key) + with_key(right.skip(j), key)
            == with_key(left, key) + with_key(right, key));
        head_of_suffix(left, i, key);
        assert(out.push(left[i]) =~= out + seq![left[i]]);
        with_key_of_concatenation(out, seq![left[i]], key);
        assert(with_key(out.push(left[i]), key) + with_key(left.skip(i + 1), key) + with_key(
            right.skip(j),
            key,
        ) =~= with_key(out, key) + with_key(left.skip(i), key) + with_key(right.skip(j), key));
    }
}

proof fn take_right<T: Keyed>(out: Seq<T>, left: Seq<T>, right: Seq<T>, i: int, j: int)
    requires
        merged(out, left, right, i, j),
        0 <= i <= left.len(),
        0 <= j < right.len(),
        forall|k: int| i <= k < left.len() ==> right[j].key() < (#[trigger] left[k]).key(),
    ensures
        merged(out.push(right[j]), left, right, i, j + 1),
{
    assert forall|key: int|
        #[trigger] with_key(out.push(right[j]), key) + with_key(left.skip(i), key) + with_key(
            right.skip(j + 1),
            key,
        ) == with_key(left, key) + with_key(right, key) by {
        assert(with_key(out, key) + with_key(left.skip(i), key) + with_key(right.skip(j), key)
            == with_key(left, key) + with_key(right, key));
        head_of_suffix(right, j, key);
        assert(out.push(right[j]) =~= out + seq![right[j]]);
        with_key_of_concatenation(out, seq![right[j]], key);
        if right[j].key() == key {
            absent_key(left.skip(i), key);
        } else {
            absent_key(seq![right[j]], key);
        }
        assert(with_key(out.push(right[j]), key) + with_key(left.skip(i), key) + with_key(
            right.skip(j + 1),
            key,
        ) =~= with_key(out, key) + with_key(left.skip(i), key) + with_key(right.skip(j), key));
    }
}

fn merge<T: Keyed>(left: &Vec<T>, right: &Vec<T>) -> (out: Vec<T>)
    requires
        ascending(left@),
        ascending(right@),
        left@.len() + right@.len() <= usize::MAX,
    ensures
        stably_sorted(left@ + right@, out@),
{
    let mut out: Vec<T> = Vec::new();
    let mut i: usize = 0;
    let mut j: usize = 0;
    proof {
        assert(left@.skip(0) =~= left@);
        assert(right@.skip(0) =~= right@);
        assert forall|key: int|
            #[trigger] with_key(out@, key) + with_key(left@.skip(0), key) + with_key(
                right@.skip(0),
                key,
            ) == with_key(left@, key) + with_key(right@, key) by {
            assert(with_key(out@, key) + with_key(left@, key) =~= with_key(left@, key));
        }
    }
    while i < left.len() || j < right.len()
        invariant
            0 <= i <= left@.len(),
            0 <= j <= right@.len(),
            left@.len() + right@.len() <= usize::MAX,
            out@.len() == i + j,
            ascending(left@),
            ascending(right@),
            ascending(out@),
            forall|a: int, b: int|
                0 <= a < out@.len() && i <= b < left@.len() ==> (#[trigger] out@[a]).key() <= (
                #[trigger] left@[b]).key(),
            forall|a: int, b: int|
                0 <= a < out@.len() && j <= b < right@.len() ==> (#[trigger] out@[a]).key() <= (
                #[trigger] right@[b]).key(),
            merged(out@, left@, right@, i as int, j as int),
        decreases left@.len() + right@.len() - i - j,
    {
        let from_left: bool = if i == left.len() {
            false
        } else if j == right.len() {
            true
        } else {
            left[i].sort_key() <= right[j].sort_key()
        };
        if from_left {
            proof {
                take_left(out@, left@, right@, i as int, j as int);
            }
            out.push(left[i]);
            i = i + 1;
        } else {
            proof {
                assert forall|k: int| i <= k < left@.len() implies right@[j as int].key() < (
                #[trigger] left@[k]).key() by {
                    assert(left@[i as int].key() <= left@[k].key());
                }
                take_right(out@, left@, right@, i as int, j as int);
            }
            out.push(right[j]);
            j = j + 1;
        }
    }
    proof {
        assert(left@.skip(i as int) =~= Seq::<T>::empty());
        assert(right@.skip(j as int) =~= Seq::<T>::empty());
        assert forall|key: int| #[trigger] with_key(out@, key) == with_key(left@ + right@, key) by {
            with_key_of_concatenation(left@, right@, key);
            assert(with_key(out@, key) + with_key(left@.skip(i as int), key) + with_key(
                right@.skip(j as int),
                key,
            ) =~= with_key(out@, key));
        }
    }
    out
}

fn sort_range<T: Keyed>(items: &Vec<T>, start: usize, end: usize) -> (out: Vec<T>)
    requires
        start <= end <= items@.len(),
    ensures
        stably_sorted(items@.subrange(start as int, end as int), out@),
    decreases end - start,
{
    if end - start <= 1 {
        let mut out: Vec<T> = Vec::new();
        if start < end {
            out.push(items[start]);
        }
        proof {
            assert(out@ =~= items@.subrange(start as int, end as int));
        }
        out
    } else {
        let middle: usize = start + (end - start) / 2;
        let left = sort_range(items, start, middle);
        let right = sort_range(items, middle, end);
        let out = merge(&left, &right);
        proof {
            let a = items@.subrange(start as int, middle as int);
            let b = items@.subrange(middle as int, end as int);
            assert(items@.subrange(start as int, end as int) =~= a + b);
            assert forall|key: int|
                #[trigger] with_key(out@, key) == with_key(
                    items@.subrange(start as int, end as int),
                    key,
                ) by {
                with_key_of_concatenation(a, b, key);
                with_key_of_concatenation(left@, right@, key);
                assert(with_key(out@, key) == with_key(left@ + right@, key));
                assert(with_key(left@, key) == with_key(a, key));
                assert(with_key(right@, key) == with_key(b, key));
            }
        }
        out
    }
}

/// Sorts items by ascending key and keeps the sequence of those that share one.
pub fn sort<T: Keyed>(items: &mut Vec<T>)
    ensures
        stably_sorted(old(items)@, final(items)@),
{
    let sorted = sort_range(items, 0, items.len());
    proof {
        assert(items@.subrange(0, items@.len() as int) =~= items@);
    }
    *items = sorted;
}

/// There is only one stable order: two stably sorted arrangements of the same
/// items are equal.
pub proof fn stable_order_is_unique<T: Keyed>(input: Seq<T>, a: Seq<T>, b: Seq<T>)
    requires
        stably_sorted(input, a),
        stably_sorted(input, b),
    ensures
        a == b,
{
    assert forall|key: int| #[trigger] with_key(a, key) == with_key(b, key) by {
        assert(with_key(a, key) == with_key(input, key));
        assert(with_key(b, key) == with_key(input, key));
    }
    same_keys_same_order(a, b);
}

proof fn same_keys_same_order<T: Keyed>(a: Seq<T>, b: Seq<T>)
    requires
        ascending(a),
        ascending(b),
        a.len() == b.len(),
        forall|key: int| #[trigger] with_key(a, key) == with_key(b, key),
    ensures
        a == b,
    decreases a.len(),
{
    if a.len() == 0 {
        assert(a =~= b);
    } else {
        let x = a.last();
        let y = b.last();
        assert(with_key(a, x.key()).len() > 0);
        assert(with_key(b, y.key()).len() > 0);
        assert(x.key() == y.key()) by {
            if x.key() < y.key() {
                assert forall|i: int| 0 <= i < a.len() implies (#[trigger] a[i]).key()
                    != y.key() by {
                    if i < a.len() - 1 {
                        assert(a[i].key() <= a[a.len() - 1].key());
                    }
                }
                absent_key(a, y.key());
                assert(with_key(a, y.key()) == with_key(b, y.key()));
            } else if y.key() < x.key() {
                assert forall|i: int| 0 <= i < b.len() implies (#[trigger] b[i]).key()
                    != x.key() by {
                    if i < b.len() - 1 {
                        assert(b[i].key() <= b[b.len() - 1].key());
                    }
                }
                absent_key(b, x.key());
                assert(with_key(a, x.key()) == with_key(b, x.key()));
            }
        }
        assert(with_key(a, x.key()) == with_key(b, x.key()));
        assert(with_key(a, x.key()).last() == x);
        assert(with_key(b, x.key()).last() == y);
        assert forall|key: int| #[trigger]
            with_key(a.drop_last(), key) == with_key(b.drop_last(), key) by {
            assert(with_key(a, key) == with_key(b, key));
            if key == x.key() {
                assert(with_key(a.drop_last(), key) =~= with_key(a, key).drop_last());
                assert(with_key(b.drop_last(), key) =~= with_key(b, key).drop_last());
            }
        }
        same_keys_same_order(a.drop_last(), b.drop_last());
        assert(a =~= a.drop_last().push(x));
        assert(b =~= b.drop_last().push(y));
    }
}

proof fn with_key_holds<T: Keyed>(items: Seq<T>, key: int, i: int) -> (at: int)
    requires
        0 <= i < items.len(),
        items[i].key() == key,
    ensures
        0 <= at < with_key(items, key).len(),
        with_key(items, key)[at] == items[i],
    decreases items.len(),
{
    if i == items.len() - 1 {
        with_key(items, key).len() - 1
    } else {
        assert(items.drop_last()[i] == items[i]);
        with_key_holds(items.drop_last(), key, i)
    }
}

proof fn with_key_comes_from<T: Keyed>(items: Seq<T>, key: int, at: int) -> (i: int)
    requires
        0 <= at < with_key(items, key).len(),
    ensures
        0 <= i < items.len(),
        with_key(items, key)[at] == items[i],
        items[i].key() == key,
    decreases items.len(),
{
    if items.last().key() == key && at == with_key(items, key).len() - 1 {
        items.len() - 1
    } else {
        with_key_comes_from(items.drop_last(), key, at)
    }
}

/// Sorting neither loses nor invents an item.
pub proof fn item_kept_by_sort<T: Keyed>(input: Seq<T>, output: Seq<T>, item: T)
    requires
        stably_sorted(input, output),
    ensures
        input.contains(item) <==> output.contains(item),
{
    assert(with_key(output, item.key()) == with_key(input, item.key()));
    if input.contains(item) {
        let i = choose|i: int| 0 <= i < input.len() && input[i] == item;
        let at = with_key_holds(input, item.key(), i);
        let j = with_key_comes_from(output, item.key(), at);
        assert(output[j] == item);
    }
    if output.contains(item) {
        let j = choose|j: int| 0 <= j < output.len() && output[j] == item;
        let at = with_key_holds(output, item.key(), j);
        let i = with_key_comes_from(input, item.key(), at);
        assert(input[i] == item);
    }
}

proof fn distinct_keys_stand_alone<T: Keyed>(items: Seq<T>, key: int)
    requires
        forall|a: int, b: int|
            0 <= a < b < items.len() ==> (#[trigger] items[a]).key() != (
            #[trigger] items[b]).key(),
    ensures
        with_key(items, key).len() <= 1,
    decreases items.len(),
{
    if items.len() > 0 {
        let rest = items.drop_last();
        assert forall|a: int, b: int| 0 <= a < b < rest.len() implies (
        #[trigger] rest[a]).key() != (#[trigger] rest[b]).key() by {
            assert(items[a].key() != items[b].key());
        }
        distinct_keys_stand_alone(rest, key);
        if items.last().key() == key {
            assert forall|i: int| 0 <= i < rest.len() implies (#[trigger] rest[i]).key()
                != key by {
                assert(items[i].key() != items[items.len() - 1].key());
            }
            absent_key(rest, key);
        }
    }
}

proof fn twice_in_with_key<T: Keyed>(items: Seq<T>, a: int, b: int)
    requires
        0 <= a < b < items.len(),
        items[a].key() == items[b].key(),
    ensures
        with_key(items, items[a].key()).len() >= 2,
    decreases items.len(),
{
    let key = items[a].key();
    let rest = items.drop_last();
    if b == items.len() - 1 {
        assert(rest[a] == items[a]);
        let at = with_key_holds(rest, key, a);
    } else {
        assert(rest[a] == items[a] && rest[b] == items[b]);
        twice_in_with_key(rest, a, b);
    }
}

/// Items with different keys still have different keys after sorting.
pub proof fn keys_stay_distinct<T: Keyed>(input: Seq<T>, output: Seq<T>)
    requires
        stably_sorted(input, output),
        forall|a: int, b: int|
            0 <= a < b < input.len() ==> (#[trigger] input[a]).key() != (
            #[trigger] input[b]).key(),
    ensures
        forall|a: int, b: int|
            0 <= a < b < output.len() ==> (#[trigger] output[a]).key() != (
            #[trigger] output[b]).key(),
{
    assert forall|a: int, b: int| 0 <= a < b < output.len() implies (
    #[trigger] output[a]).key() != (#[trigger] output[b]).key() by {
        if output[a].key() == output[b].key() {
            twice_in_with_key(output, a, b);
            distinct_keys_stand_alone(input, output[a].key());
            assert(with_key(output, output[a].key()) == with_key(input, output[a].key()));
        }
    }
}

proof fn place_for<T: Keyed>(sorted: Seq<T>, key: int, n: int) -> (place: int)
    requires
        ascending(sorted),
        0 <= n <= sorted.len(),
        forall|i: int| n <= i < sorted.len() ==> (#[trigger] sorted[i]).key() > key,
    ensures
        0 <= place <= n,
        forall|i: int| 0 <= i < place ==> (#[trigger] sorted[i]).key() <= key,
        forall|i: int| place <= i < sorted.len() ==> (#[trigger] sorted[i]).key() > key,
    decreases n,
{
    if n > 0 && sorted[n - 1].key() > key {
        place_for(sorted, key, n - 1)
    } else {
        if n > 0 {
            assert forall|i: int| 0 <= i < n implies (#[trigger] sorted[i]).key() <= key by {
                if i < n - 1 {
                    assert(sorted[i].key() <= sorted[n - 1].key());
                }
            }
        }
        n
    }
}

/// Every sequence has a stable order.
pub proof fn a_stable_order_exists<T: Keyed>(items: Seq<T>) -> (sorted: Seq<T>)
    ensures
        stably_sorted(items, sorted),
    decreases items.len(),
{
    if items.len() == 0 {
        items
    } else {
        let rest = a_stable_order_exists(items.drop_last());
        let item = items.last();
        let place = place_for(rest, item.key(), rest.len() as int);
        let low = rest.take(place);
        let high = rest.skip(place);
        let sorted = low.push(item) + high;
        assert forall|i: int, j: int| 0 <= i < j < sorted.len() implies (
        #[trigger] sorted[i]).key() <= (#[trigger] sorted[j]).key() by {
            if j < place {
                assert(rest[i].key() <= rest[j].key());
            } else if i < place && j > place {
                assert(rest[i].key() <= rest[j - 1].key());
            } else if i == place {
                assert(rest[j - 1].key() > item.key());
            } else if i > place {
                assert(rest[i - 1].key() <= rest[j - 1].key());
            } else {
                assert(rest[i].key() <= item.key());
            }
        }
        assert forall|key: int| #[trigger] with_key(sorted, key) == with_key(items, key) by {
            with_key_of_concatenation(low.push(item), high, key);
            assert(low.push(item).drop_last() =~= low);
            assert(rest =~= low + high);
            with_key_of_concatenation(low, high, key);
            assert(with_key(rest, key) == with_key(items.drop_last(), key));
            if key == item.key() {
                assert forall|i: int| 0 <= i < high.len() implies (#[trigger] high[i]).key()
                    != key by {
                    assert(rest[place + i].key() > item.key());
                }
                absent_key(high, key);
            }
            assert(with_key(sorted, key) =~= with_key(items, key));
        }
        sorted
    }
}

} // verus!
