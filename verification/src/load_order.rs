//! A load order: the installed plugins in the order in which the game loads
//! them. In contracts it is a sequence of [`PluginView`]s.
use crate::plugin::{Plugin, PluginView};
use vstd::prelude::*;

pub mod active_plugins_file;
pub mod durability;
pub mod mutable;
pub mod order;
pub mod readable;
pub mod reordering;
pub mod sorting;
pub mod timestamp_based;
pub mod timestamps;
pub mod writable;

verus! {

/// What the plugins of `plugins` stand for, in their order.
pub open spec fn plugin_views(plugins: Seq<Plugin>) -> Seq<PluginView> {
    plugins.map_values(|plugin: Plugin| plugin@)
}

/// The names of `plugins`, in their order.
pub open spec fn names_of(plugins: Seq<PluginView>) -> Seq<Seq<char>> {
    plugins.map_values(|plugin: PluginView| plugin.name)
}

/// The active ones among `plugins`, in their order.
pub open spec fn active_plugins(plugins: Seq<PluginView>) -> Seq<PluginView> {
    plugins.filter(|plugin: PluginView| plugin.active)
}

/// How many of `plugins` are active.
pub open spec fn count_active(plugins: Seq<PluginView>) -> nat {
    active_plugins(plugins).len()
}

/// Whether `index` is the first place in `items` that holds a wanted item.
pub open spec fn is_first_position<A>(items: Seq<A>, wanted: spec_fn(A) -> bool, index: int) -> bool {
    &&& 0 <= index < items.len()
    &&& wanted(items[index])
    &&& forall|earlier: int| 0 <= earlier < index ==> !wanted(#[trigger] items[earlier])
}

/// The first place in `items` that holds a wanted item, if any does.
pub open spec fn first_position<A>(items: Seq<A>, wanted: spec_fn(A) -> bool) -> Option<int> {
    if exists|index: int| is_first_position(items, wanted, index) {
        Some(choose|index: int| is_first_position(items, wanted, index))
    } else {
        None
    }
}

/// A first position is the only one.
pub proof fn lemma_first_position_found<A>(items: Seq<A>, wanted: spec_fn(A) -> bool, index: int)
    requires
        is_first_position(items, wanted, index),
    ensures
        first_position(items, wanted) == Some(index),
{
    let chosen = choose|index: int| is_first_position(items, wanted, index);
    if chosen < index {
        assert(!wanted(items[chosen]));
    } else if index < chosen {
        assert(!wanted(items[index]));
    }
}

/// Where nothing is wanted, there is no first position.
pub proof fn lemma_first_position_missing<A>(items: Seq<A>, wanted: spec_fn(A) -> bool)
    requires
        forall|index: int| 0 <= index < items.len() ==> !wanted(#[trigger] items[index]),
    ensures
        first_position(items, wanted) is None,
{
}

/// Before a place that holds a wanted item there is a first such place.
pub proof fn lemma_first_position_exists<A>(items: Seq<A>, wanted: spec_fn(A) -> bool, index: int)
    requires
        0 <= index < items.len(),
        wanted(items[index]),
    ensures
        first_position(items, wanted) is Some,
        first_position(items, wanted)->0 <= index,
    decreases index,
{
    if exists|earlier: int| 0 <= earlier < index && wanted(#[trigger] items[earlier]) {
        let earlier = choose|earlier: int| 0 <= earlier < index && wanted(#[trigger] items[earlier]);
        lemma_first_position_exists(items, wanted, earlier);
    } else {
        lemma_first_position_found(items, wanted, index);
    }
}

/// What [`first_position`] says of the place it gives.
pub proof fn lemma_first_position<A>(items: Seq<A>, wanted: spec_fn(A) -> bool)
    ensures
        match first_position(items, wanted) {
            Some(index) => is_first_position(items, wanted, index),
            None => forall|index: int| 0 <= index < items.len() ==> !wanted(#[trigger] items[index]),
        },
{
    if first_position(items, wanted) is None {
        assert forall|index: int| 0 <= index < items.len() implies !wanted(
            #[trigger] items[index],
        ) by {
            if wanted(items[index]) {
                lemma_first_position_exists(items, wanted, index);
            }
        }
    }
}

/// Where a plugin stands depends on the names alone.
pub proof fn lemma_position_of_same_names(
    left: Seq<PluginView>,
    right: Seq<PluginView>,
    name: Seq<char>,
)
    requires
        names_of(left) == names_of(right),
    ensures
        position_of(left, name) == position_of(right, name),
{
    let wanted = |plugin: PluginView| plugin.name_matches(name);
    assert(left.len() == names_of(left).len() == right.len());
    assert forall|index: int| 0 <= index < left.len() implies wanted(left[index]) == wanted(
        right[index],
    ) by {
        assert(names_of(left)[index] == names_of(right)[index]);
    }
    lemma_first_position(left, wanted);
    match first_position(left, wanted) {
        Some(index) => {
            assert forall|earlier: int| 0 <= earlier < index implies !wanted(
                #[trigger] right[earlier],
            ) by {
                assert(!wanted(left[earlier]));
            }
            lemma_first_position_found(right, wanted, index);
        },
        None => {
            assert forall|index: int| 0 <= index < right.len() implies !wanted(
                #[trigger] right[index],
            ) by {
                assert(!wanted(left[index]));
            }
            lemma_first_position_missing(right, wanted);
        },
    }
}

/// Where in `plugins` the plugin stands that goes by `name`: the first one
/// whose name matches it.
pub open spec fn position_of(plugins: Seq<PluginView>, name: Seq<char>) -> Option<int> {
    first_position(plugins, |plugin: PluginView| plugin.name_matches(name))
}

/// Two sequences that hold the same items, each as often as the other, still
/// do so when every item is replaced by what `f` makes of it.
pub proof fn lemma_map_values_to_multiset<A, B>(left: Seq<A>, right: Seq<A>, f: spec_fn(A) -> B)
    requires
        left.to_multiset() == right.to_multiset(),
    ensures
        left.map_values(f).to_multiset() == right.map_values(f).to_multiset(),
    decreases left.len(),
{
    broadcast use vstd::seq_lib::group_to_multiset_ensures;

    left.to_multiset_ensures();
    right.to_multiset_ensures();
    if left.len() == 0 {
        assert(right.len() == 0);
        assert(left.map_values(f) =~= right.map_values(f));
    } else {
        let last = left.last();
        let rest = left.drop_last();
        assert(left =~= rest.push(last));
        assert(left.to_multiset() =~= rest.to_multiset().insert(last));
        assert(right.to_multiset().count(last) > 0);
        assert(right.contains(last));
        let at = choose|at: int| 0 <= at < right.len() && right[at] == last;
        let others = right.remove(at);
        assert(others.to_multiset() =~= right.to_multiset().remove(last));
        assert(rest.to_multiset() =~= others.to_multiset());
        lemma_map_values_to_multiset(rest, others, f);
        assert(left.map_values(f) =~= rest.map_values(f).push(f(last)));
        assert(right.map_values(f) =~= others.map_values(f).insert(at, f(last)));
        vstd::seq_lib::to_multiset_insert(others.map_values(f), at, f(last));
        assert(left.map_values(f).to_multiset() =~= rest.map_values(f).to_multiset().insert(f(last)));
    }
}

} // verus!
