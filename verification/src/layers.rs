//! The order in which layers are drawn: lower layers first, and within a
//! layer the order in which the items were collected.

use vstd::prelude::*;
use vstd::relations::injective_on;
use vstd::set_lib::{lemma_int_range, lemma_map_size, lemma_subset_equality, set_int_range};

verus! {

/// How many of `layers` lie below `bound`.
pub open spec fn count_below(layers: Seq<usize>, bound: int) -> nat
    decreases layers.len(),
{
    if layers.len() == 0 {
        0
    } else {
        count_below(layers.drop_last(), bound) + if layers.last() < bound {
            1nat
        } else {
            0nat
        }
    }
}

/// How many of `layers` are `layer`.
pub open spec fn count_at(layers: Seq<usize>, layer: int) -> nat
    decreases layers.len(),
{
    if layers.len() == 0 {
        0
    } else {
        count_at(layers.drop_last(), layer) + if layers.last() == layer {
            1nat
        } else {
            0nat
        }
    }
}

/// The place of item `i` in the drawing order: after every item of a
/// lower layer, and after the items of its own layer that stand before
/// it.
pub open spec fn rank(layers: Seq<usize>, i: int) -> int {
    (count_below(layers, layers[i] as int) + count_at(layers.take(i), layers[i] as int)) as int
}

/// Whether `order` lists the items of `layers` in drawing order: it names
/// each item once, at the place of its rank, so that layers never fall
/// along it.
pub open spec fn is_layer_order(layers: Seq<usize>, order: Seq<usize>) -> bool {
    &&& order.len() == layers.len()
    &&& forall|i: int| 0 <= i < layers.len() ==> 0 <= #[trigger] rank(layers, i) < order.len()
        && order[rank(layers, i)] == i
    &&& forall|a: int|
        0 <= a < order.len() ==> (#[trigger] order[a]) < layers.len() && rank(
            layers,
            order[a] as int,
        ) == a
    &&& forall|a: int, b: int|
        0 <= a <= b < order.len() ==> layers[#[trigger] order[a] as int] <= layers[#[trigger] order[b] as int]
}

/// The item that stands at place `a` of the drawing order.
pub open spec fn origin(layers: Seq<usize>, a: int) -> int {
    choose|i: int| 0 <= i < layers.len() && rank(layers, i) == a
}

/// The items in drawing order, given the layer of each: lower layers
/// first, the items of one layer in the order in which they stand.
pub open spec fn in_layer_order<T>(items: Seq<T>, layers: Seq<usize>) -> Seq<T> {
    Seq::new(items.len(), |a: int| items[origin(layers, a)])
}

/// No more layers lie below a bound than there are, and all do where
/// each does.
pub proof fn lemma_count_below_bounds(layers: Seq<usize>, bound: int)
    ensures
        count_below(layers, bound) <= layers.len(),
        (forall|i: int| 0 <= i < layers.len() ==> layers[i] < bound) ==> count_below(layers, bound)
            == layers.len(),
    decreases layers.len(),
{
    if layers.len() > 0 {
        lemma_count_below_bounds(layers.drop_last(), bound);
        if forall|i: int| 0 <= i < layers.len() ==> layers[i] < bound {
            assert forall|i: int| 0 <= i < layers.drop_last().len() implies layers.drop_last()[i]
                < bound by {
                assert(layers.drop_last()[i] == layers[i]);
            }
        }
    }
}

/// Where no layer lies between two bounds, as many lie below the one as
/// below the other.
pub proof fn lemma_count_below_gap(layers: Seq<usize>, low: int, high: int)
    requires
        low <= high,
        forall|i: int| 0 <= i < layers.len() ==> !(low <= #[trigger] layers[i] < high),
    ensures
        count_below(layers, low) == count_below(layers, high),
    decreases layers.len(),
{
    if layers.len() > 0 {
        assert forall|i: int| 0 <= i < layers.drop_last().len() implies !(low
            <= #[trigger] layers.drop_last()[i] < high) by {
            assert(layers.drop_last()[i] == layers[i]);
        }
        lemma_count_below_gap(layers.drop_last(), low, high);
        assert(!(low <= layers[layers.len() - 1] < high));
    }
}

/// The layers below `layer + 1` are those below `layer` and those at it.
pub proof fn lemma_count_below_next(layers: Seq<usize>, layer: int)
    ensures
        count_below(layers, layer + 1) == count_below(layers, layer) + count_at(layers, layer),
    decreases layers.len(),
{
    if layers.len() > 0 {
        lemma_count_below_next(layers.drop_last(), layer);
    }
}

/// One item more is one more of its layer, and no more of another.
pub proof fn lemma_count_at_step(layers: Seq<usize>, i: int, layer: int)
    requires
        0 <= i < layers.len(),
    ensures
        count_at(layers.take(i + 1), layer) == count_at(layers.take(i), layer) + if layers[i]
            == layer {
            1nat
        } else {
            0nat
        },
{
    assert(layers.take(i + 1).drop_last() =~= layers.take(i));
    assert(layers.take(i + 1).last() == layers[i]);
}

/// The lowest layer of `layers` that is at least `low`, if there is one.
fn lowest_from(layers: &Vec<usize>, low: usize) -> (found: Option<usize>)
    ensures
        found is None ==> forall|i: int| 0 <= i < layers@.len() ==> layers@[i] < low,
        found matches Some(layer) ==> low <= layer && (exists|i: int|
            0 <= i < layers@.len() && layers@[i] == layer) && forall|i: int|
            0 <= i < layers@.len() ==> !(low <= #[trigger] layers@[i] < layer),
{
    let mut found: Option<usize> = None;
    let mut i: usize = 0;
    while i < layers.len()
        invariant
            i <= layers@.len(),
            found is None ==> forall|j: int| 0 <= j < i ==> layers@[j] < low,
            found matches Some(layer) ==> low <= layer && (exists|j: int|
                0 <= j < i && layers@[j] == layer) && forall|j: int|
                0 <= j < i ==> !(low <= #[trigger] layers@[j] < layer),
        decreases layers@.len() - i,
    {
        let layer: usize = layers[i];
        if layer >= low {
            match found {
                None => {
                    found = Some(layer);
                },
                Some(best) => {
                    if layer < best {
                        found = Some(layer);
                    }
                },
            }
        }
        i = i + 1;
    }
    found
}

/// The drawing order of items with the given layers: the indices of the
/// items, those of lower layers first, those of one layer in rising
/// order.
pub fn layer_order(layers: &Vec<usize>) -> (order: Vec<usize>)
    ensures
        is_layer_order(layers@, order@),
{
    let n: usize = layers.len();
    let mut order: Vec<usize> = Vec::new();
    let mut next: Option<usize> = lowest_from(layers, 0);
    let ghost mut low: int = 0;
    proof {
        lemma_count_below_bounds(layers@, 0);
        assert(count_below(layers@, 0) == 0) by {
            lemma_count_none_below(layers@, 0);
        }
    }
    loop
        invariant
            n == layers@.len(),
            0 <= low <= usize::MAX + 1,
            order@.len() == count_below(layers@, low),
            next is None ==> forall|i: int| 0 <= i < n ==> layers@[i] < low,
            next matches Some(layer) ==> low <= layer && (exists|i: int|
                0 <= i < n && layers@[i] == layer) && forall|i: int|
                0 <= i < n ==> !(low <= #[trigger] layers@[i] < layer),
            forall|i: int|
                0 <= i < n && layers@[i] < low ==> 0 <= #[trigger] rank(layers@, i) < order@.len()
                    && order@[rank(layers@, i)] == i,
            forall|a: int|
                0 <= a < order@.len() ==> (#[trigger] order@[a]) < n && layers@[order@[a] as int]
                    < low && rank(layers@, order@[a] as int) == a,
            forall|a: int, b: int|
                0 <= a <= b < order@.len() ==> layers@[#[trigger] order@[a] as int]
                    <= layers@[#[trigger] order@[b] as int],
        ensures
            is_layer_order(layers@, order@),
        decreases n - order@.len(),
    {
        let layer: usize = match next {
            None => {
                proof {
                    lemma_count_below_bounds(layers@, low);
                }
                break ;
            },
            Some(layer) => layer,
        };
        let ghost base = order@.len();
        let ghost before = order@;
        proof {
            lemma_count_below_gap(layers@, low, layer as int);
            lemma_count_below_bounds(layers@, layer as int + 1);
            lemma_count_below_next(layers@, layer as int);
        }
        let mut i: usize = 0;
        while i < n
            invariant
                n == layers@.len(),
                i <= n,
                base == count_below(layers@, layer as int),
                before.len() == base,
                order@.len() == base + count_at(layers@.take(i as int), layer as int),
                order@.take(base as int) == before,
                forall|j: int|
                    0 <= j < i && layers@[j] == layer ==> 0 <= #[trigger] rank(layers@, j)
                        < order@.len() && order@[rank(layers@, j)] == j,
                forall|a: int|
                    base <= a < order@.len() ==> (#[trigger] order@[a]) < i && layers@[order@[a] as int]
                        == layer && rank(layers@, order@[a] as int) == a,
            decreases n - i,
        {
            proof {
                lemma_count_at_step(layers@, i as int, layer as int);
            }
            if layers[i] == layer {
                let ghost so_far = order@;
                order.push(i);
                proof {
                    assert(order@.take(base as int) =~= so_far.take(base as int));
                    assert(rank(layers@, i as int) == so_far.len());
                }
            }
            i = i + 1;
        }
        proof {
            assert(layers@.take(n as int) =~= layers@);
            let witness = choose|j: int| 0 <= j < n && layers@[j] == layer;
            assert(0 <= rank(layers@, witness) < order@.len() && rank(layers@, witness) >= base);
            assert forall|i: int| 0 <= i < n && layers@[i] < layer + 1 implies 0 <= #[trigger] rank(
                layers@,
                i,
            ) < order@.len() && order@[rank(layers@, i)] == i by {
                if layers@[i] < layer {
                    assert(layers@[i] < low);
                    assert(order@[rank(layers@, i)] == order@.take(base as int)[rank(layers@, i)]);
                }
            }
            assert forall|a: int| 0 <= a < order@.len() implies (#[trigger] order@[a]) < n
                && layers@[order@[a] as int] < layer + 1 && rank(layers@, order@[a] as int)
                == a by {
                if a < base {
                    assert(order@[a] == order@.take(base as int)[a]);
                }
            }
            assert forall|a: int, b: int| 0 <= a <= b < order@.len() implies layers@[#[trigger] order@[a] as int]
                <= layers@[#[trigger] order@[b] as int] by {
                if a < base {
                    assert(order@[a] == order@.take(base as int)[a]);
                }
                if b < base {
                    assert(order@[b] == order@.take(base as int)[b]);
                }
            }
            low = layer + 1;
        }
        next = if layer == usize::MAX {
            None
        } else {
            lowest_from(layers, layer + 1)
        };
    }
    order
}

/// Where no layer lies below a bound, none is counted below it.
pub proof fn lemma_count_none_below(layers: Seq<usize>, bound: int)
    requires
        forall|i: int| 0 <= i < layers.len() ==> layers[i] >= bound,
    ensures
        count_below(layers, bound) == 0,
    decreases layers.len(),
{
    if layers.len() > 0 {
        assert forall|i: int| 0 <= i < layers.drop_last().len() implies layers.drop_last()[i]
            >= bound by {
            assert(layers.drop_last()[i] == layers[i]);
        }
        lemma_count_none_below(layers.drop_last(), bound);
    }
}

/// The more of a sequence is counted, the more is found.
pub proof fn lemma_count_at_prefix(layers: Seq<usize>, i: int, j: int, layer: int)
    requires
        0 <= i <= j <= layers.len(),
    ensures
        count_at(layers.take(i), layer) <= count_at(layers.take(j), layer),
        i < j && layers[i] == layer ==> count_at(layers.take(i), layer) < count_at(
            layers.take(j),
            layer,
        ),
    decreases j - i,
{
    if i < j {
        lemma_count_at_prefix(layers, i, j - 1, layer);
        lemma_count_at_step(layers, j - 1, layer);
        if i == j - 1 {
        } else {
            lemma_count_at_prefix(layers, i + 1, j - 1, layer);
            lemma_count_at_step(layers, i, layer);
        }
    }
}

/// The higher the bound, the more layers lie below it.
pub proof fn lemma_count_below_rises(layers: Seq<usize>, low: int, high: int)
    requires
        low <= high,
    ensures
        count_below(layers, low) <= count_below(layers, high),
    decreases layers.len(),
{
    if layers.len() > 0 {
        lemma_count_below_rises(layers.drop_last(), low, high);
    }
}

/// The rank of an item is a place of the order, before the first item of
/// a higher layer.
pub proof fn lemma_rank_bounds(layers: Seq<usize>, i: int)
    requires
        0 <= i < layers.len(),
    ensures
        count_below(layers, layers[i] as int) <= rank(layers, i) < count_below(
            layers,
            layers[i] + 1,
        ) <= layers.len(),
{
    let layer = layers[i] as int;
    lemma_count_at_prefix(layers, i, layers.len() as int, layer);
    assert(layers.take(layers.len() as int) =~= layers);
    lemma_count_below_next(layers, layer);
    lemma_count_below_bounds(layers, layer + 1);
}

/// The rank rises with the layer, and within a layer with the place: of
/// two items, the one that is collected first is drawn first unless its
/// layer is the higher.
pub proof fn lemma_rank_order(layers: Seq<usize>, i: int, j: int)
    requires
        0 <= i < j < layers.len(),
    ensures
        layers[i] <= layers[j] ==> rank(layers, i) < rank(layers, j),
        layers[i] > layers[j] ==> rank(layers, i) > rank(layers, j),
{
    lemma_rank_bounds(layers, i);
    lemma_rank_bounds(layers, j);
    if layers[i] == layers[j] {
        lemma_count_at_prefix(layers, i, j, layers[i] as int);
    } else if layers[i] < layers[j] {
        lemma_count_below_rises(layers, layers[i] + 1, layers[j] as int);
    } else {
        lemma_count_below_rises(layers, layers[j] + 1, layers[i] as int);
    }
}

/// Every place of the order is the rank of an item.
pub proof fn lemma_rank_onto(layers: Seq<usize>, a: int)
    requires
        0 <= a < layers.len(),
    ensures
        0 <= origin(layers, a) < layers.len(),
        rank(layers, origin(layers, a)) == a,
{
    let n = layers.len() as int;
    let places = set_int_range(0, n);
    let ranked = |i: int| rank(layers, i);
    let ranks = places.map(ranked);
    lemma_int_range(0, n);
    assert(injective_on(ranked, places)) by {
        assert forall|x1: int, x2: int|
            places.contains(x1) && places.contains(x2) && #[trigger] ranked(x1)
                == #[trigger] ranked(x2) implies x1 == x2 by {
            if x1 < x2 {
                lemma_rank_order(layers, x1, x2);
            } else if x2 < x1 {
                lemma_rank_order(layers, x2, x1);
            }
        }
    }
    lemma_map_size(places, ranks, ranked);
    assert(ranks.subset_of(places)) by {
        assert forall|r: int| ranks.contains(r) implies places.contains(r) by {
            let i = choose|i: int| places.contains(i) && r == ranked(i);
            lemma_rank_bounds(layers, i);
        }
    }
    lemma_subset_equality(ranks, places);
    assert(ranks.contains(a));
    let i = choose|i: int| places.contains(i) && a == ranked(i);
    assert(0 <= i < layers.len() && rank(layers, i) == a);
}

/// The drawing order is an order of the items: it has each item once, at
/// the place of its rank, and along it the layers never fall.
pub proof fn lemma_in_layer_order<T>(items: Seq<T>, layers: Seq<usize>)
    requires
        items.len() == layers.len(),
    ensures
        in_layer_order(items, layers).len() == items.len(),
        forall|i: int|
            0 <= i < items.len() ==> 0 <= #[trigger] rank(layers, i) < items.len()
                && in_layer_order(items, layers)[rank(layers, i)] == items[i],
        forall|a: int|
            0 <= a < items.len() ==> 0 <= #[trigger] origin(layers, a) < items.len() && rank(
                layers,
                origin(layers, a),
            ) == a,
        forall|a: int, b: int|
            0 <= a <= b < items.len() ==> layers[#[trigger] origin(layers, a)]
                <= layers[#[trigger] origin(layers, b)],
        forall|item: T| in_layer_order(items, layers).contains(item) <==> items.contains(item),
{
    let ordered = in_layer_order(items, layers);
    assert forall|a: int| 0 <= a < items.len() implies 0 <= #[trigger] origin(layers, a)
        < items.len() && rank(layers, origin(layers, a)) == a by {
        lemma_rank_onto(layers, a);
    }
    assert forall|i: int| 0 <= i < items.len() implies 0 <= #[trigger] rank(layers, i)
        < items.len() && ordered[rank(layers, i)] == items[i] by {
        lemma_rank_bounds(layers, i);
        let back = origin(layers, rank(layers, i));
        lemma_rank_onto(layers, rank(layers, i));
        if back < i {
            lemma_rank_order(layers, back, i);
        } else if i < back {
            lemma_rank_order(layers, i, back);
        }
    }
    assert forall|a: int, b: int| 0 <= a <= b < items.len() implies layers[#[trigger] origin(
        layers,
        a,
    )] <= layers[#[trigger] origin(layers, b)] by {
        let i = origin(layers, a);
        let j = origin(layers, b);
        lemma_rank_onto(layers, a);
        lemma_rank_onto(layers, b);
        if i < j {
            lemma_rank_order(layers, i, j);
        } else if j < i {
            lemma_rank_order(layers, j, i);
        }
    }
    assert forall|item: T| ordered.contains(item) <==> items.contains(item) by {
        if ordered.contains(item) {
            let a = choose|a: int| 0 <= a < ordered.len() && ordered[a] == item;
            lemma_rank_onto(layers, a);
            assert(items[origin(layers, a)] == item);
        }
        if items.contains(item) {
            let i = choose|i: int| 0 <= i < items.len() && items[i] == item;
            assert(ordered[rank(layers, i)] == item);
        }
    }
}

/// The order that `layer_order` gives is the one that `in_layer_order`
/// speaks of.
pub proof fn lemma_order_is_origin(layers: Seq<usize>, order: Seq<usize>, a: int)
    requires
        is_layer_order(layers, order),
        0 <= a < order.len(),
    ensures
        origin(layers, a) == order[a],
{
    let i = order[a] as int;
    assert(0 <= i < layers.len() && rank(layers, i) == a);
    let chosen = origin(layers, a);
    assert(0 <= chosen < layers.len() && rank(layers, chosen) == a);
    assert(order[rank(layers, chosen)] == chosen);
}

/// Puts the items in drawing order, given the layer of each.
pub fn arrange<T: Copy>(items: &Vec<T>, layers: &Vec<usize>) -> (arranged: Vec<T>)
    requires
        items@.len() == layers@.len(),
    ensures
        arranged@ == in_layer_order(items@, layers@),
{
    let order = layer_order(layers);
    let mut arranged: Vec<T> = Vec::new();
    let mut a: usize = 0;
    while a < order.len()
        invariant
            a <= order@.len(),
            is_layer_order(layers@, order@),
            items@.len() == layers@.len(),
            arranged@.len() == a,
            forall|b: int| 0 <= b < a ==> #[trigger] arranged@[b] == items@[order@[b] as int],
        decreases order@.len() - a,
    {
        let from: usize = order[a];
        assert(order@[a as int] < layers@.len());
        arranged.push(items[from]);
        a = a + 1;
    }
    proof {
        let wanted = in_layer_order(items@, layers@);
        assert forall|b: int| 0 <= b < wanted.len() implies arranged@[b] == wanted[b] by {
            lemma_order_is_origin(layers@, order@, b);
        }
        assert(arranged@ =~= wanted);
    }
    arranged
}

} // verus!
