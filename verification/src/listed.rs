use vstd::prelude::*;
use vstd::string::StringExecFns;

verus! {

/// Element-wise clone closeness: `b` could be `a` copied element by
/// element, each element through `Clone` or moved as-is.
pub open spec fn seq_cloned<T: Clone>(a: Seq<T>, b: Seq<T>) -> bool {
    &&& a.len() == b.len()
    &&& forall|i: int| 0 <= i < a.len() ==> cloned::<T>(a[i], #[trigger] b[i])
}

/// An immutable list of shareable values.
pub struct List<T> {
    pub items: Vec<T>,
}

impl<T> View for List<T> {
    type V = Seq<T>;

    open spec fn view(&self) -> Seq<T> {
        self.items@
    }
}

impl<T> List<T> {
    /// Wraps a vector, keeping its elements and order.
    pub fn with_vec(items: Vec<T>) -> (r: List<T>)
        ensures
            r@ == items@,
    {
        List { items }
    }
}

/// A growable list under construction.
pub struct ListBuilder<T> {
    pub items: Vec<T>,
}

impl<T> View for ListBuilder<T> {
    type V = Seq<T>;

    open spec fn view(&self) -> Seq<T> {
        self.items@
    }
}

impl<T> ListBuilder<T> {
    /// Wraps a vector, keeping its elements and order.
    pub fn with_vec(items: Vec<T>) -> (r: ListBuilder<T>)
        ensures
            r@ == items@,
    {
        ListBuilder { items }
    }
}

/// A read-only snapshot view of any listed value.
pub struct Listed<T> {
    pub items: Vec<T>,
}

impl<T> View for Listed<T> {
    type V = Seq<T>;

    open spec fn view(&self) -> Seq<T> {
        self.items@
    }
}

/// Read access shared by lists, list builders and snapshots:
/// `contents` is the mathematical sequence a value currently holds,
/// and every accessor is specified against it. Reading hands out
/// clones, so results are tied to `contents` through [`seq_cloned`]
/// and [`cloned`].
pub trait ListedTrait<T: Clone>: Sized {
    /// The elements, in order.
    spec fn contents(&self) -> Seq<T>;

    /// The element at `index`, which must be in range.
    fn get(&self, index: i32) -> (r: T)
        requires
            0 <= index < self.contents().len(),
        ensures
            cloned::<T>(self.contents()[index as int], r),
    ;

    /// The element at `index`, or `fallback` when `index` is out of
    /// range.
    fn get_or(&self, index: i32, fallback: T) -> (r: T)
        ensures
            0 <= index < self.contents().len() ==> cloned::<T>(
                self.contents()[index as int],
                r,
            ),
            !(0 <= index < self.contents().len()) ==> r == fallback,
    ;

    /// Whether there are no elements.
    fn is_empty(&self) -> (r: bool)
        ensures
            r == (self.contents().len() == 0),
    ;

    /// The number of elements, which must fit an `i32`.
    fn len(&self) -> (r: i32)
        requires
            self.contents().len() <= i32::MAX,
        ensures
            r == self.contents().len(),
    ;

    /// The elements as an immutable list.
    fn to_list(&self) -> (r: List<T>)
        ensures
            seq_cloned(self.contents(), r@),
    ;

    /// The elements as a fresh vector.
    fn to_vec(&self) -> (r: Vec<T>)
        ensures
            seq_cloned(self.contents(), r@),
    ;

    /// The elements as a fresh builder.
    fn to_list_builder(&self) -> (r: ListBuilder<T>)
        ensures
            seq_cloned(self.contents(), r@),
    ;
}

/// Copies the elements of a vector one by one.
fn clone_items<T: Clone>(items: &Vec<T>) -> (r: Vec<T>)
    ensures
        seq_cloned(items@, r@),
{
    let mut r: Vec<T> = Vec::new();
    let mut i: usize = 0;
    while i < items.len()
        invariant
            0 <= i <= items@.len(),
            r@.len() == i,
            forall|j: int| 0 <= j < i ==> cloned::<T>(items@[j], #[trigger] r@[j]),
        decreases items@.len() - i,
    {
        r.push(items[i].clone());
        i = i + 1;
    }
    r
}

impl<T: Clone> ListedTrait<T> for List<T> {
    open spec fn contents(&self) -> Seq<T> {
        self.items@
    }

    fn get(&self, index: i32) -> (r: T) {
        self.items[index as usize].clone()
    }

    fn get_or(&self, index: i32, fallback: T) -> (r: T) {
        if 0 <= index && (index as usize) < self.items.len() {
            self.items[index as usize].clone()
        } else {
            fallback
        }
    }

    fn is_empty(&self) -> (r: bool) {
        self.items.len() == 0
    }

    fn len(&self) -> (r: i32) {
        self.items.len() as i32
    }

    fn to_list(&self) -> (r: List<T>) {
        List { items: clone_items(&self.items) }
    }

    fn to_vec(&self) -> (r: Vec<T>) {
        clone_items(&self.items)
    }

    fn to_list_builder(&self) -> (r: ListBuilder<T>) {
        ListBuilder { items: clone_items(&self.items) }
    }
}

impl<T: Clone> ListedTrait<T> for ListBuilder<T> {
    open spec fn contents(&self) -> Seq<T> {
        self.items@
    }

    fn get(&self, index: i32) -> (r: T) {
        self.items[index as usize].clone()
    }

    fn get_or(&self, index: i32, fallback: T) -> (r: T) {
        if 0 <= index && (index as usize) < self.items.len() {
            self.items[index as usize].clone()
        } else {
            fallback
        }
    }

    fn is_empty(&self) -> (r: bool) {
        self.items.len() == 0
    }

    fn len(&self) -> (r: i32) {
        self.items.len() as i32
    }

    fn to_list(&self) -> (r: List<T>) {
        List { items: clone_items(&self.items) }
    }

    fn to_vec(&self) -> (r: Vec<T>) {
        clone_items(&self.items)
    }

    fn to_list_builder(&self) -> (r: ListBuilder<T>) {
        ListBuilder { items: clone_items(&self.items) }
    }
}

impl<T: Clone> ListedTrait<T> for Listed<T> {
    open spec fn contents(&self) -> Seq<T> {
        self.items@
    }

    fn get(&self, index: i32) -> (r: T) {
        self.items[index as usize].clone()
    }

    fn get_or(&self, index: i32, fallback: T) -> (r: T) {
        if 0 <= index && (index as usize) < self.items.len() {
            self.items[index as usize].clone()
        } else {
            fallback
        }
    }

    fn is_empty(&self) -> (r: bool) {
        self.items.len() == 0
    }

    fn len(&self) -> (r: i32) {
        self.items.len() as i32
    }

    fn to_list(&self) -> (r: List<T>) {
        List { items: clone_items(&self.items) }
    }

    fn to_vec(&self) -> (r: Vec<T>) {
        clone_items(&self.items)
    }

    fn to_list_builder(&self) -> (r: ListBuilder<T>) {
        ListBuilder { items: clone_items(&self.items) }
    }
}

impl<T: Clone> Listed<T> {
    /// Takes a snapshot of any listed value.
    pub fn new<L: ListedTrait<T>>(x: L) -> (r: Listed<T>)
        ensures
            seq_cloned(x.contents(), r@),
    {
        Listed { items: x.to_vec() }
    }

    /// Renders each element through `stringify` and joins the pieces
    /// with `separator`; see [`join`].
    pub fn join<F: Fn(T) -> String>(&self, separator: &str, stringify: F) -> (r: String)
        requires
            self@.len() <= i32::MAX,
            forall|v: T| call_requires(stringify, (v,)),
        ensures
            exists|rendered: Seq<Seq<char>>|
                #![trigger join_with(rendered, separator@)]
                {
                    &&& rendered.len() == self@.len()
                    &&& forall|i: int|
                        0 <= i < rendered.len() ==> renders(
                            stringify,
                            self@[i],
                            #[trigger] rendered[i],
                        )
                    &&& r@ == join_with(rendered, separator@)
                },
    {
        join(self, separator, stringify)
    }

    /// The elements rearranged by `compare`; see [`sorted`].
    pub fn sorted<F: Fn(T, T) -> i32>(&self, compare: F) -> (r: List<T>)
        requires
            self@.len() <= i32::MAX,
            forall|a: T, b: T| call_requires(compare, (a, b)),
        ensures
            exists|perm: Seq<int>|
                #[trigger] is_permutation(perm, self@.len() as int) && r@.len() == self@.len()
                    && forall|j: int|
                    0 <= j < r@.len() ==> cloned::<T>(self@[perm[j]], #[trigger] r@[j]),
            forall|j: int|
                0 <= j < r@.len() - 1 ==> comparator_orders(compare, r@[j], #[trigger] r@[j + 1]),
    {
        sorted(self, compare)
    }
}

/// Conversion into a snapshot view.
pub trait ToListed<T: Clone>: Sized {
    /// The elements the conversion hands over.
    spec fn spec_items(&self) -> Seq<T>;

    /// The value as a snapshot view.
    fn to_listed(self) -> (r: Listed<T>)
        ensures
            seq_cloned(self.spec_items(), r@),
    ;
}

impl<T: Clone> ToListed<T> for Listed<T> {
    open spec fn spec_items(&self) -> Seq<T> {
        self@
    }

    fn to_listed(self) -> (r: Listed<T>) {
        self
    }
}

impl<T: Clone> ToListed<T> for Vec<T> {
    open spec fn spec_items(&self) -> Seq<T> {
        self@
    }

    fn to_listed(self) -> (r: Listed<T>) {
        Listed { items: self }
    }
}

impl<T: Clone> ToListed<T> for List<T> {
    open spec fn spec_items(&self) -> Seq<T> {
        self@
    }

    fn to_listed(self) -> (r: Listed<T>) {
        Listed { items: self.items }
    }
}

impl<T: Clone> ToListed<T> for ListBuilder<T> {
    open spec fn spec_items(&self) -> Seq<T> {
        self@
    }

    fn to_listed(self) -> (r: Listed<T>) {
        Listed { items: self.items }
    }
}

/// Conversion into an immutable list.
pub trait ToList<T>: Sized {
    /// The elements the conversion hands over.
    spec fn spec_items(&self) -> Seq<T>;

    /// The value as an immutable list.
    fn to_list(self) -> (r: List<T>)
        ensures
            r@ == self.spec_items(),
    ;
}

impl<T> ToList<T> for List<T> {
    open spec fn spec_items(&self) -> Seq<T> {
        self@
    }

    fn to_list(self) -> (r: List<T>) {
        self
    }
}

impl<T> ToList<T> for Vec<T> {
    open spec fn spec_items(&self) -> Seq<T> {
        self@
    }

    fn to_list(self) -> (r: List<T>) {
        List { items: self }
    }
}

/// Conversion into a list builder.
pub trait ToListBuilder<T>: Sized {
    /// The elements the conversion hands over.
    spec fn spec_items(&self) -> Seq<T>;

    /// The value as a builder.
    fn to_list_builder(self) -> (r: ListBuilder<T>)
        ensures
            r@ == self.spec_items(),
    ;
}

impl<T> ToListBuilder<T> for ListBuilder<T> {
    open spec fn spec_items(&self) -> Seq<T> {
        self@
    }

    fn to_list_builder(self) -> (r: ListBuilder<T>) {
        self
    }
}

impl<T> ToListBuilder<T> for Vec<T> {
    open spec fn spec_items(&self) -> Seq<T> {
        self@
    }

    fn to_list_builder(self) -> (r: ListBuilder<T>) {
        ListBuilder { items: self }
    }
}

/// A strictly increasing choice of `n` source positions: what a
/// filtering pass keeps, in order.
pub open spec fn picks_in_order(picked: Seq<int>, n: int) -> bool {
    &&& forall|j: int| 0 <= j < picked.len() ==> 0 <= #[trigger] picked[j] < n
    &&& forall|j1: int, j2: int| 0 <= j1 < j2 < picked.len() ==> picked[j1] < picked[j2]
}

/// Applies `action` to a clone of each element, first to last.
pub fn for_each<T: Clone, L: ListedTrait<T>, F: Fn(T)>(listed: &L, action: F)
    requires
        listed.contents().len() <= i32::MAX,
        forall|v: T| call_requires(action, (v,)),
{
    let n = listed.len();
    let mut i: i32 = 0;
    while i < n
        invariant
            forall|v: T| call_requires(action, (v,)),
            0 <= i <= n,
            n == listed.contents().len(),
        decreases n - i,
    {
        action(listed.get(i));
        i = i + 1;
    }
}

/// A clone taken from `b` — possibly through one intermediate copy —
/// makes `predicate` answer `keep`. `cloned` includes equality, so a
/// direct probe counts too.
pub open spec fn answers<T: Clone, F: Fn(T) -> bool>(predicate: F, b: T, keep: bool) -> bool {
    exists|v: T, w: T|
        cloned::<T>(b, v) && #[trigger] cloned::<T>(v, w) && call_ensures(predicate, (w,), keep)
}

/// `b` is reachable from `a` by sending some clone of `a` through
/// `transform`.
pub open spec fn image_through<T: Clone, O, F: Fn(T) -> O>(transform: F, a: T, b: O) -> bool {
    exists|v: T| cloned::<T>(a, v) && #[trigger] call_ensures(transform, (v,), b)
}

/// The elements passing `predicate`, in their original order: the
/// result is a clone of the subsequence at some strictly increasing
/// choice of positions, the predicate answered true for a clone of
/// each kept element, and false for a clone of each dropped one.
pub fn filter<T: Clone, L: ListedTrait<T>, F: Fn(T) -> bool>(listed: &L, predicate: F) -> (r:
    List<T>)
    requires
        listed.contents().len() <= i32::MAX,
        forall|v: T| call_requires(predicate, (v,)),
    ensures
        exists|picked: Seq<int>|
            #![trigger picks_in_order(picked, listed.contents().len() as int)]
            {
                &&& picked.len() == r@.len()
                &&& picks_in_order(picked, listed.contents().len() as int)
                &&& forall|j: int|
                    0 <= j < picked.len() ==> cloned::<T>(
                        listed.contents()[picked[j]],
                        #[trigger] r@[j],
                    ) && answers(predicate, r@[j], true)
                &&& forall|q: int|
                    #![trigger picked.contains(q)]
                    0 <= q < listed.contents().len() && !picked.contains(q) ==> answers(
                        predicate,
                        listed.contents()[q],
                        false,
                    )
            },
{
    let n = listed.len();
    let mut result: Vec<T> = Vec::new();
    let ghost mut picked: Seq<int> = Seq::empty();
    let mut i: i32 = 0;
    while i < n
        invariant
            forall|v: T| call_requires(predicate, (v,)),
            0 <= i <= n,
            n == listed.contents().len(),
            picked.len() == result@.len(),
            picks_in_order(picked, i as int),
            forall|j: int|
                0 <= j < picked.len() ==> cloned::<T>(
                    listed.contents()[picked[j]],
                    #[trigger] result@[j],
                ) && answers(predicate, result@[j], true),
            forall|q: int|
                #![trigger picked.contains(q)]
                0 <= q < i && !picked.contains(q) ==> answers(
                    predicate,
                    listed.contents()[q],
                    false,
                ),
        decreases n - i,
    {
        let value = listed.get(i);
        let ghost kept = value;
        let probe = value.clone();
        let ghost probed = probe;
        let keep = predicate(probe);
        let ghost picked_before = picked;
        if keep {
            result.push(value);
            proof {
                picked = picked.push(i as int);
                assert(cloned::<T>(kept, kept) && cloned::<T>(kept, probed) && call_ensures(
                    predicate,
                    (probed,),
                    true,
                ));
                assert(answers(predicate, result@[result@.len() - 1], true));
            }
        } else {
            proof {
                assert(cloned::<T>(listed.contents()[i as int], kept) && cloned::<T>(kept, probed)
                    && call_ensures(predicate, (probed,), false));
                assert(answers(predicate, listed.contents()[i as int], false));
            }
        }
        proof {
            assert forall|q: int|
                0 <= q < i + 1 && !(#[trigger] picked.contains(q)) implies answers(
                predicate,
                listed.contents()[q],
                false,
            ) by {
                if q < i {
                    if picked_before.contains(q) {
                        let k = choose|k: int|
                            0 <= k < picked_before.len() && picked_before[k] == q;
                        assert(picked[k] == q);
                        assert(picked.contains(q));
                    }
                } else {
                    if keep {
                        assert(picked[picked.len() - 1] == i);
                        assert(picked.contains(q));
                    }
                }
            }
        }
        i = i + 1;
    }
    proof {
        let n_full = listed.contents().len() as int;
        assert(picks_in_order(picked, n_full));
    }
    List::with_vec(result)
}

/// A clone of each element sent through `transform`, in order.
pub fn map<T: Clone, O, L: ListedTrait<T>, F: Fn(T) -> O>(listed: &L, transform: F) -> (r: List<
    O,
>)
    requires
        listed.contents().len() <= i32::MAX,
        forall|v: T| call_requires(transform, (v,)),
    ensures
        r@.len() == listed.contents().len(),
        forall|i: int|
            0 <= i < r@.len() ==> image_through(transform, listed.contents()[i], #[trigger] r@[i]),
{
    let n = listed.len();
    let mut result: Vec<O> = Vec::new();
    let mut i: i32 = 0;
    while i < n
        invariant
            forall|v: T| call_requires(transform, (v,)),
            0 <= i <= n,
            n == listed.contents().len(),
            result@.len() == i,
            forall|j: int|
                0 <= j < i ==> image_through(transform, listed.contents()[j], #[trigger] result@[j]),
        decreases n - i,
    {
        let value = listed.get(i);
        let ghost taken = value;
        let image = transform(value);
        result.push(image);
        proof {
            assert(cloned::<T>(listed.contents()[i as int], taken) && call_ensures(
                transform,
                (taken,),
                result@[i as int],
            ));
            assert(image_through(transform, listed.contents()[i as int], result@[i as int]));
        }
        i = i + 1;
    }
    List::with_vec(result)
}


/// `parts` joined with `sep` between neighbours.
pub open spec fn join_with(parts: Seq<Seq<char>>, sep: Seq<char>) -> Seq<char>
    decreases parts.len(),
{
    if parts.len() == 0 {
        Seq::empty()
    } else if parts.len() == 1 {
        parts[0]
    } else {
        join_with(parts.drop_last(), sep) + sep + parts.last()
    }
}

proof fn lemma_join_with_push(parts: Seq<Seq<char>>, sep: Seq<char>, part: Seq<char>)
    ensures
        parts.len() == 0 ==> join_with(parts.push(part), sep) == part,
        parts.len() > 0 ==> join_with(parts.push(part), sep) == join_with(parts, sep) + sep
            + part,
{
    let grown = parts.push(part);
    assert(grown.last() == part);
    assert(grown.drop_last() =~= parts);
}

/// Some clone of `a` renders through `stringify` as the text `s`.
pub open spec fn renders<T: Clone, F: Fn(T) -> String>(stringify: F, a: T, s: Seq<char>) -> bool {
    exists|v: T, t: String|
        cloned::<T>(a, v) && #[trigger] call_ensures(stringify, (v,), t) && t@ == s
}

/// Renders a clone of each element through `stringify` and joins the
/// pieces with `separator` between neighbours.
pub fn join<T: Clone, L: ListedTrait<T>, F: Fn(T) -> String>(
    listed: &L,
    separator: &str,
    stringify: F,
) -> (r: String)
    requires
        listed.contents().len() <= i32::MAX,
        forall|v: T| call_requires(stringify, (v,)),
    ensures
        exists|rendered: Seq<Seq<char>>|
            #![trigger join_with(rendered, separator@)]
            {
                &&& rendered.len() == listed.contents().len()
                &&& forall|i: int|
                    0 <= i < rendered.len() ==> renders(
                        stringify,
                        listed.contents()[i],
                        #[trigger] rendered[i],
                    )
                &&& r@ == join_with(rendered, separator@)
            },
{
    let n = listed.len();
    let mut result = String::new();
    let ghost mut rendered: Seq<Seq<char>> = Seq::empty();
    let mut i: i32 = 0;
    while i < n
        invariant
            forall|v: T| call_requires(stringify, (v,)),
            0 <= i <= n,
            n == listed.contents().len(),
            rendered.len() == i,
            forall|j: int|
                0 <= j < i ==> renders(stringify, listed.contents()[j], #[trigger] rendered[j]),
            result@ == join_with(rendered, separator@),
        decreases n - i,
    {
        if i > 0 {
            result.append(separator);
        }
        let value = listed.get(i);
        let ghost taken = value;
        let text = stringify(value);
        result.append(text.as_str());
        proof {
            lemma_join_with_push(rendered, separator@, text@);
            assert(cloned::<T>(listed.contents()[i as int], taken) && call_ensures(
                stringify,
                (taken,),
                text,
            ));
            rendered = rendered.push(text@);
            assert(renders(stringify, listed.contents()[i as int], rendered[i as int]));
        }
        i = i + 1;
    }
    result
}

/// One fold step: some clone of `a` takes the accumulator from `acc`
/// to `next`.
pub open spec fn folds_step<T: Clone, O, F: Fn(O, T) -> O>(
    accumulate: F,
    acc: O,
    a: T,
    next: O,
) -> bool {
    exists|v: T| cloned::<T>(a, v) && #[trigger] call_ensures(accumulate, (acc, v), next)
}

/// `accs` is a fold trace over the elements of `elems` from position
/// `from` on: each step feeds a clone of the next element.
pub open spec fn fold_chain<T: Clone, O, F: Fn(O, T) -> O>(
    accumulate: F,
    accs: Seq<O>,
    elems: Seq<T>,
    from: int,
) -> bool {
    &&& 0 <= from <= elems.len()
    &&& accs.len() == elems.len() - from + 1
    &&& forall|k: int|
        0 <= k < accs.len() - 1 ==> folds_step(
            accumulate,
            #[trigger] accs[k],
            elems[from + k],
            accs[k + 1],
        )
}

fn reduce_from_index<T: Clone, O, L: ListedTrait<T>, F: Fn(O, T) -> O>(
    listed: &L,
    initial: O,
    index: i32,
    accumulate: F,
) -> (r: O)
    requires
        listed.contents().len() <= i32::MAX,
        0 <= index <= listed.contents().len(),
        forall|acc: O, v: T| call_requires(accumulate, (acc, v)),
    ensures
        exists|accs: Seq<O>|
            #[trigger] fold_chain(accumulate, accs, listed.contents(), index as int)
                && accs[0] == initial && r == accs.last(),
{
    let n = listed.len();
    let mut acc = initial;
    let ghost mut accs: Seq<O> = seq![initial];
    let mut i: i32 = index;
    while i < n
        invariant
            forall|a: O, v: T| call_requires(accumulate, (a, v)),
            0 <= index <= i <= n,
            n == listed.contents().len(),
            accs.len() == i - index + 1,
            accs[0] == initial,
            accs.last() == acc,
            forall|k: int|
                0 <= k < accs.len() - 1 ==> folds_step(
                    accumulate,
                    #[trigger] accs[k],
                    listed.contents()[index + k],
                    accs[k + 1],
                ),
        decreases n - i,
    {
        let value = listed.get(i);
        let ghost taken = value;
        let ghost before = acc;
        let next = accumulate(acc, value);
        acc = next;
        proof {
            accs = accs.push(acc);
            assert(cloned::<T>(listed.contents()[i as int], taken) && call_ensures(
                accumulate,
                (before, taken),
                acc,
            ));
            assert(folds_step(
                accumulate,
                accs[i - index],
                listed.contents()[i as int],
                accs[i - index + 1],
            ));
        }
        i = i + 1;
    }
    proof {
        assert(fold_chain(accumulate, accs, listed.contents(), index as int));
    }
    acc
}

/// Folds the elements onto `initial`, first to last, each step taking
/// a clone of the next element.
pub fn reduce_from<T: Clone, O, L: ListedTrait<T>, F: Fn(O, T) -> O>(
    listed: &L,
    initial: O,
    accumulate: F,
) -> (r: O)
    requires
        listed.contents().len() <= i32::MAX,
        forall|acc: O, v: T| call_requires(accumulate, (acc, v)),
    ensures
        exists|accs: Seq<O>|
            #[trigger] fold_chain(accumulate, accs, listed.contents(), 0) && accs[0] == initial
                && r == accs.last(),
{
    reduce_from_index(listed, initial, 0, accumulate)
}

/// Folds the elements onto a clone of the first element; the list
/// must be nonempty.
pub fn reduce<T: Clone, L: ListedTrait<T>, F: Fn(T, T) -> T>(listed: &L, accumulate: F) -> (r: T)
    requires
        1 <= listed.contents().len() <= i32::MAX,
        forall|acc: T, v: T| call_requires(accumulate, (acc, v)),
    ensures
        exists|accs: Seq<T>|
            #[trigger] fold_chain(accumulate, accs, listed.contents(), 1) && cloned::<T>(
                listed.contents()[0],
                accs[0],
            ) && r == accs.last(),
{
    let first = listed.get(0);
    let ghost start = first;
    let r = reduce_from_index(listed, first, 1, accumulate);
    r
}

/// A clone of the elements from `begin` through `end`, both clamped
/// to the list: `begin` below zero reads from the start, `end` past
/// the length reads to the end. The clamped range must be ordered.
pub fn slice<T: Clone, L: ListedTrait<T>>(listed: &L, begin: i32, end: i32) -> (r: List<T>)
    requires
        listed.contents().len() <= i32::MAX,
        ({
            let lo = if begin > 0 { begin as int } else { 0 };
            let hi_raw = if end > 0 { end as int } else { 0 };
            let hi = if hi_raw < listed.contents().len() { hi_raw } else { listed.contents().len() as int };
            lo <= hi
        }),
    ensures
        ({
            let lo = if begin > 0 { begin as int } else { 0 };
            let hi_raw = if end > 0 { end as int } else { 0 };
            let hi = if hi_raw < listed.contents().len() { hi_raw } else { listed.contents().len() as int };
            seq_cloned(listed.contents().subrange(lo, hi), r@)
        }),
{
    let n = listed.len();
    let lo: i32 = if begin > 0 { begin } else { 0 };
    let hi_raw: i32 = if end > 0 { end } else { 0 };
    let hi: i32 = if hi_raw < n { hi_raw } else { n };
    let mut result: Vec<T> = Vec::new();
    let mut i: i32 = lo;
    while i < hi
        invariant
            0 <= lo <= i <= hi <= n,
            n == listed.contents().len(),
            result@.len() == i - lo,
            forall|j: int|
                0 <= j < i - lo ==> cloned::<T>(
                    listed.contents()[lo + j],
                    #[trigger] result@[j],
                ),
        decreases hi - i,
    {
        result.push(listed.get(i));
        i = i + 1;
    }
    proof {
        let lo_g = if begin > 0 { begin as int } else { 0 };
        let hi_g = ({
            let hi_raw = if end > 0 { end as int } else { 0 };
            if hi_raw < listed.contents().len() { hi_raw } else { listed.contents().len() as int }
        });
        assert forall|k: int| 0 <= k < hi_g - lo_g implies cloned::<T>(
            listed.contents().subrange(lo_g, hi_g)[k],
            #[trigger] result@[k],
        ) by {
            assert(listed.contents().subrange(lo_g, hi_g)[k] == listed.contents()[lo_g + k]);
            assert(cloned::<T>(listed.contents()[lo_g + k], result@[k]));
        }
    }
    List::with_vec(result)
}


/// The comparator itself justifies `a` standing no later than `b`:
/// a probe of clones answered at most zero on the pair in order, or
/// above zero on the swapped pair.
pub open spec fn comparator_orders<T: Clone, F: Fn(T, T) -> i32>(compare: F, a: T, b: T) -> bool {
    ||| exists|x: T, y: T, c: i32|
        cloned::<T>(a, x) && cloned::<T>(b, y) && #[trigger] call_ensures(compare, (x, y), c) && c
            <= 0
    ||| exists|x: T, y: T, c: i32|
        cloned::<T>(a, x) && cloned::<T>(b, y) && #[trigger] call_ensures(compare, (y, x), c) && c
            > 0
}

/// `perm` lists each position below `n` exactly once.
pub open spec fn is_permutation(perm: Seq<int>, n: int) -> bool {
    &&& perm.len() == n
    &&& forall|i: int| 0 <= i < n ==> 0 <= #[trigger] perm[i] < n
    &&& forall|i: int, j: int| 0 <= i < j < n ==> perm[i] != perm[j]
}

/// Insertion sort driven by `compare`, reading through the listed
/// trait; the result is a clone of the elements at some permutation
/// of positions, and the comparator justifies every adjacent pair.
pub(crate) fn insertion_sorted<T: Clone, L: ListedTrait<T>, F: Fn(T, T) -> i32>(
    listed: &L,
    compare: &F,
) -> (r: Vec<T>)
    requires
        listed.contents().len() <= i32::MAX,
        forall|a: T, b: T| call_requires(*compare, (a, b)),
    ensures
        exists|perm: Seq<int>|
            #[trigger] is_permutation(perm, listed.contents().len() as int) && r@.len()
                == listed.contents().len() && forall|j: int|
                0 <= j < r@.len() ==> cloned::<T>(listed.contents()[perm[j]], #[trigger] r@[j]),
        forall|j: int|
            0 <= j < r@.len() - 1 ==> comparator_orders(*compare, r@[j], #[trigger] r@[j + 1]),
{
    let n = listed.len();
    let mut result: Vec<T> = Vec::new();
    let ghost mut perm: Seq<int> = Seq::empty();
    let mut i: i32 = 0;
    while i < n
        invariant
            forall|a: T, b: T| call_requires(*compare, (a, b)),
            0 <= i <= n,
            n == listed.contents().len(),
            perm.len() == i,
            result@.len() == i,
            forall|j: int| 0 <= j < i ==> 0 <= #[trigger] perm[j] < i,
            forall|j1: int, j2: int| 0 <= j1 < j2 < i ==> perm[j1] != perm[j2],
            forall|j: int|
                0 <= j < i ==> cloned::<T>(listed.contents()[perm[j]], #[trigger] result@[j]),
            forall|j: int|
                0 <= j < i - 1 ==> comparator_orders(*compare, result@[j], #[trigger] result@[j
                    + 1]),
        decreases n - i,
    {
        let value = listed.get(i);
        let ghost taken = value;
        let mut pos: usize = 0;
        loop
            invariant_except_break
                forall|a: T, b: T| call_requires(*compare, (a, b)),
                0 <= pos <= result@.len(),
                pos > 0 ==> comparator_orders(*compare, result@[pos - 1], value),
            ensures
                0 <= pos <= result@.len(),
                pos > 0 ==> comparator_orders(*compare, result@[pos - 1], value),
                pos < result@.len() ==> comparator_orders(*compare, value, result@[pos as int]),
            decreases result@.len() - pos,
        {
            if pos >= result.len() {
                break;
            }
            let earlier = result[pos].clone();
            let candidate = value.clone();
            let order = compare(earlier, candidate);
            if order <= 0 {
                proof {
                    assert(cloned::<T>(result@[pos as int], earlier) && cloned::<T>(
                        value,
                        candidate,
                    ) && call_ensures(*compare, (earlier, candidate), order));
                    assert(comparator_orders(*compare, result@[pos as int], value));
                }
                pos = pos + 1;
            } else {
                proof {
                    assert(cloned::<T>(result@[pos as int], earlier) && cloned::<T>(
                        value,
                        candidate,
                    ) && call_ensures(*compare, (earlier, candidate), order));
                    assert(comparator_orders(*compare, value, result@[pos as int]));
                }
                break;
            }
        }
        let ghost placed = result@;
        let ghost old_perm = perm;
        result.insert(pos, value);
        proof {
            perm = old_perm.insert(pos as int, i as int);
            old_perm.insert_ensures(pos as int, i as int);
            placed.insert_ensures(pos as int, taken);
            assert forall|j: int| 0 <= j < i + 1 implies 0 <= #[trigger] perm[j] < i + 1 by {
                if j < pos {
                    assert(perm[j] == old_perm[j]);
                } else if j == pos {
                    assert(perm[j] == i);
                } else {
                    assert(perm[j] == old_perm[j - 1]);
                }
            }
            assert forall|j1: int, j2: int| 0 <= j1 < j2 < i + 1 implies perm[j1] != perm[j2] by {
                let a1 = if j1 < pos { old_perm[j1] } else if j1 == pos { i as int } else { old_perm[j1 - 1] };
                let a2 = if j2 < pos { old_perm[j2] } else if j2 == pos { i as int } else { old_perm[j2 - 1] };
                assert(perm[j1] == a1);
                assert(perm[j2] == a2);
            }
            assert forall|j: int| 0 <= j < i + 1 implies cloned::<T>(
                listed.contents()[perm[j]],
                #[trigger] result@[j],
            ) by {
                if j < pos {
                    assert(perm[j] == old_perm[j]);
                    assert(result@[j] == placed[j]);
                } else if j == pos {
                    assert(perm[j] == i);
                    assert(result@[j] == taken);
                } else {
                    assert(perm[j] == old_perm[j - 1]);
                    assert(result@[j] == placed[j - 1]);
                }
            }
            assert forall|j: int| 0 <= j < i implies comparator_orders(
                *compare,
                result@[j],
                #[trigger] result@[j + 1],
            ) by {
                if j + 1 < pos {
                    assert(result@[j] == placed[j]);
                    assert(result@[j + 1] == placed[j + 1]);
                } else if j + 1 == pos {
                    assert(result@[j] == placed[j]);
                    assert(result@[j + 1] == taken);
                } else if j == pos {
                    assert(result@[j] == taken);
                    assert(result@[j + 1] == placed[j]);
                } else {
                    assert(result@[j] == placed[j - 1]);
                    assert(result@[j + 1] == placed[j]);
                }
            }
        }
        i = i + 1;
    }
    proof {
        assert(is_permutation(perm, listed.contents().len() as int));
    }
    result
}

/// The elements rearranged by `compare` into ascending order: the
/// result is a clone of the elements at some permutation of
/// positions, and the comparator justifies every adjacent pair of
/// the result.
pub fn sorted<T: Clone, L: ListedTrait<T>, F: Fn(T, T) -> i32>(listed: &L, compare: F) -> (r:
    List<T>)
    requires
        listed.contents().len() <= i32::MAX,
        forall|a: T, b: T| call_requires(compare, (a, b)),
    ensures
        exists|perm: Seq<int>|
            #[trigger] is_permutation(perm, listed.contents().len() as int) && r@.len()
                == listed.contents().len() && forall|j: int|
                0 <= j < r@.len() ==> cloned::<T>(listed.contents()[perm[j]], #[trigger] r@[j]),
        forall|j: int|
            0 <= j < r@.len() - 1 ==> comparator_orders(compare, r@[j], #[trigger] r@[j + 1]),
{
    List::with_vec(insertion_sorted(listed, &compare))
}

/// Applies `action` to a clone of each slice element, oldest first.
pub fn list_for_each<T: Clone, F: Fn(T)>(list: &Vec<T>, action: F)
    requires
        forall|v: T| call_requires(action, (v,)),
{
    let mut i: usize = 0;
    while i < list.len()
        invariant
            forall|v: T| call_requires(action, (v,)),
            0 <= i <= list@.len(),
        decreases list@.len() - i,
    {
        action(list[i].clone());
        i = i + 1;
    }
}

} // verus!
