use vstd::prelude::*;
use crate::listed::{comparator_orders, insertion_sorted, is_permutation, seq_cloned, List, ListBuilder, ToListed};

verus! {

/// A fresh, empty list builder.
pub fn new_builder<T>() -> (r: ListBuilder<T>)
    ensures
        r@.len() == 0,
{
    ListBuilder::with_vec(Vec::new())
}

/// Appends `value`, or inserts it at `index` when one is given;
/// a given index must lie within the list.
pub fn add<T>(builder: &mut ListBuilder<T>, value: T, index: Option<i32>)
    requires
        index matches Some(i) ==> 0 <= i <= old(builder)@.len(),
        old(builder)@.len() < usize::MAX,
    ensures
        index matches Some(i) ==> final(builder)@ == old(builder)@.insert(i as int, value),
        index is None ==> final(builder)@ == old(builder)@.push(value),
{
    match index {
        Some(i) => {
            builder.items.insert(i as usize, value);
        },
        None => {
            builder.items.push(value);
        },
    }
}

/// Inserts a clone of every element of `values` at `index` — at the
/// end when no index is given — keeping their order.
pub fn add_all<T: Clone, V: ToListed<T>>(builder: &mut ListBuilder<T>, values: V, index: Option<
    i32,
>)
    requires
        index matches Some(i) ==> 0 <= i <= old(builder)@.len(),
    ensures
        ({
            let at = match index {
                Some(i) => i as int,
                None => old(builder)@.len() as int,
            };
            exists|mid: Seq<T>|
                #[trigger] seq_cloned(values.spec_items(), mid) && final(builder)@ == old(
                    builder,
                )@.take(at) + mid + old(builder)@.skip(at)
        }),
{
    let listed = values.to_listed();
    let mut mid: Vec<T> = listed.items;
    let ghost mid_view = mid@;
    let at: usize = match index {
        Some(i) => i as usize,
        None => builder.items.len(),
    };
    let ghost before = builder@;
    let mut tail = builder.items.split_off(at);
    builder.items.append(&mut mid);
    builder.items.append(&mut tail);
    proof {
        assert(builder@ =~= before.take(at as int) + mid_view + before.skip(at as int));
    }
}

/// Removes every element.
pub fn clear<T>(builder: &mut ListBuilder<T>)
    ensures
        final(builder)@.len() == 0,
{
    builder.items.clear();
}

/// Removes and returns the newest element; the list must be nonempty.
pub fn remove_last<T>(builder: &mut ListBuilder<T>) -> (r: T)
    requires
        old(builder)@.len() > 0,
    ensures
        r == old(builder)@.last(),
        final(builder)@ == old(builder)@.drop_last(),
{
    let r = builder.items.pop().unwrap();
    proof {
        assert(builder@ =~= old(builder)@.drop_last());
    }
    r
}

/// Reverses the element order in place.
pub fn reverse<T>(builder: &mut ListBuilder<T>)
    ensures
        final(builder)@ == old(builder)@.reverse(),
{
    let ghost before = builder@;
    let mut reversed: Vec<T> = Vec::new();
    while builder.items.len() > 0
        invariant
            reversed@.len() + builder.items@.len() == before.len(),
            builder.items@ == before.take(builder.items@.len() as int),
            forall|j: int|
                0 <= j < reversed@.len() ==> #[trigger] reversed@[j] == before[before.len() - 1
                    - j],
        decreases builder.items@.len(),
    {
        let v = builder.items.pop().unwrap();
        reversed.push(v);
        proof {
            assert(builder.items@ =~= before.take(builder.items@.len() as int));
        }
    }
    builder.items = reversed;
    proof {
        assert(builder@ =~= before.reverse());
    }
}

/// Replaces the element at `index`, which must lie within the list.
pub fn set<T>(builder: &mut ListBuilder<T>, index: i32, value: T)
    requires
        0 <= index < old(builder)@.len(),
    ensures
        final(builder)@ == old(builder)@.update(index as int, value),
{
    builder.items.set(index as usize, value);
}

/// Rearranges the elements in place by `compare`: the new contents
/// are a clone of the old elements at some permutation of positions,
/// and the comparator justifies every adjacent pair.
pub fn sort<T: Clone, F: Fn(T, T) -> i32>(builder: &mut ListBuilder<T>, compare: F)
    requires
        old(builder)@.len() <= i32::MAX,
        forall|a: T, b: T| call_requires(compare, (a, b)),
    ensures
        exists|perm: Seq<int>|
            #[trigger] is_permutation(perm, old(builder)@.len() as int) && final(builder)@.len()
                == old(builder)@.len() && forall|j: int|
                0 <= j < final(builder)@.len() ==> cloned::<T>(
                    old(builder)@[perm[j]],
                    #[trigger] final(builder)@[j],
                ),
        forall|j: int|
            0 <= j < final(builder)@.len() - 1 ==> comparator_orders(
                compare,
                final(builder)@[j],
                #[trigger] final(builder)@[j + 1],
            ),
{
    let sorted_items = insertion_sorted(builder, &compare);
    builder.items = sorted_items;
}

/// Removes the elements from `index` (or the start) through the given
/// count (or the rest), returns them, and inserts a clone of `values`
/// in their place. A given index must lie within the list.
pub fn splice<T: Clone, V: ToListed<T>>(
    builder: &mut ListBuilder<T>,
    index: Option<i32>,
    remove_count: Option<i32>,
    values: Option<V>,
) -> (r: List<T>)
    requires
        ({
            let begin = match index {
                Some(i) => if i > 0 { i as int } else { 0 },
                None => 0,
            };
            begin <= old(builder)@.len()
        }),
    ensures
        ({
            let len = old(builder)@.len() as int;
            let begin = match index {
                Some(i) => if i > 0 { i as int } else { 0 },
                None => 0,
            };
            let wanted = match remove_count {
                Some(c) => if c > 0 { c as int } else { 0 },
                None => len,
            };
            let end = begin + (if wanted < len - begin { wanted } else { len - begin });
            &&& r@ == old(builder)@.subrange(begin, end)
            &&& (values is None ==> final(builder)@ == old(builder)@.take(begin) + old(
                builder,
            )@.skip(end))
            &&& (values matches Some(vs) ==> exists|mid: Seq<T>|
                #[trigger] seq_cloned(vs.spec_items(), mid) && final(builder)@ == old(
                    builder,
                )@.take(begin) + mid + old(builder)@.skip(end))
        }),
{
    let len = builder.items.len();
    let begin: usize = match index {
        Some(i) => if i > 0 { i as usize } else { 0 },
        None => 0,
    };
    let wanted: usize = match remove_count {
        Some(c) => if c > 0 { c as usize } else { 0 },
        None => len,
    };
    let count = if wanted < len - begin { wanted } else { len - begin };
    let ghost before = builder@;
    let mut removed = builder.items.split_off(begin);
    let mut kept_tail = removed.split_off(count);
    match values {
        Some(vs) => {
            let listed = vs.to_listed();
            let mut mid: Vec<T> = listed.items;
            let ghost mid_view = mid@;
            builder.items.append(&mut mid);
            builder.items.append(&mut kept_tail);
            proof {
                assert(builder@ =~= before.take(begin as int) + mid_view + before.skip(
                    begin + count,
                ));
            }
        },
        None => {
            builder.items.append(&mut kept_tail);
            proof {
                assert(builder@ =~= before.take(begin as int) + before.skip(begin + count));
            }
        },
    }
    proof {
        assert(removed@ =~= before.subrange(begin as int, begin + count));
    }
    List::with_vec(removed)
}

} // verus!
