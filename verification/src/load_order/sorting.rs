//! Putting plugins into the order that their files give.
use crate::load_order::order::{
    in_file_order, is_name_before, lemma_precedes_asymmetric, lemma_precedes_transitive,
    lemma_same_rank_transitive, precedes, same_rank,
};
use crate::load_order::{lemma_map_values_to_multiset, plugin_views};
use crate::plugin::{Plugin, PluginView};
use rayon::slice::ParallelSliceMut;
use std::cmp::Ordering;
use vstd::prelude::*;

verus! {

/// How `left` stands to `right` in the order that the files give.
pub open spec fn plugin_ordering(left: PluginView, right: PluginView) -> Ordering {
    if precedes(left, right) {
        Ordering::Less
    } else if precedes(right, left) {
        Ordering::Greater
    } else {
        Ordering::Equal
    }
}

/// Compares two plugins as their files order them: see [`precedes`].
pub fn plugin_sorter(left: &Plugin, right: &Plugin) -> (ordering: Ordering)
    ensures
        ordering == plugin_ordering(left@, right@),
{
    if left.is_master_file() == right.is_master_file() {
        if left.modification_time() < right.modification_time() {
            Ordering::Less
        } else if left.modification_time() > right.modification_time() {
            Ordering::Greater
        } else if is_name_before(left.name(), right.name()) {
            Ordering::Less
        } else if is_name_before(right.name(), left.name()) {
            Ordering::Greater
        } else {
            Ordering::Equal
        }
    } else if left.is_master_file() {
        Ordering::Less
    } else {
        Ordering::Greater
    }
}

/// [`plugin_ordering`] is a total order, as a sort asks of what it compares
/// with: of any two plugins one is less than, equal to or greater than the
/// other, the one less as the other is greater, and each of the three carries
/// over from a first and a second plugin to a third.
pub proof fn lemma_plugin_ordering_is_total(left: PluginView, middle: PluginView, right: PluginView)
    ensures
        plugin_ordering(left, right) is Less <==> plugin_ordering(right, left) is Greater,
        plugin_ordering(left, right) is Equal <==> plugin_ordering(right, left) is Equal,
        plugin_ordering(left, middle) is Less && plugin_ordering(middle, right) is Less
            ==> plugin_ordering(left, right) is Less,
        plugin_ordering(left, middle) is Equal && plugin_ordering(middle, right) is Equal
            ==> plugin_ordering(left, right) is Equal,
        plugin_ordering(left, middle) is Greater && plugin_ordering(middle, right) is Greater
            ==> plugin_ordering(left, right) is Greater,
{
    if precedes(left, right) {
        lemma_precedes_asymmetric(left, right);
    }
    if precedes(right, left) {
        lemma_precedes_asymmetric(right, left);
    }
    if precedes(left, middle) && precedes(middle, right) {
        lemma_precedes_transitive(left, middle, right);
    }
    if same_rank(left, middle) && same_rank(middle, right) {
        lemma_same_rank_transitive(left, middle, right);
    }
    if precedes(right, middle) && precedes(middle, left) {
        lemma_precedes_transitive(right, middle, left);
        lemma_precedes_asymmetric(right, left);
    }
    if precedes(left, middle) {
        lemma_precedes_asymmetric(left, middle);
    }
    if precedes(middle, right) {
        lemma_precedes_asymmetric(middle, right);
    }
}

/// The plugins of `plugins` that stand at the rank of `plugin`, in their
/// order.
pub open spec fn rank_mates(plugins: Seq<Plugin>, plugin: Plugin) -> Seq<Plugin> {
    plugins.filter(|other: Plugin| same_rank(other@, plugin@))
}

/// Sorts with `par_sort_by` of rayon's `ParallelSliceMut`, comparing with
/// [`plugin_sorter`]. rayon asks for a total order, which `plugin_sorter` is
/// (see [`lemma_plugin_ordering_is_total`]), and promises a stable sort: the
/// slice holds what it held, no plugin stands behind one that it precedes, and
/// plugins of one rank keep their order.
#[verifier::external_body]
fn par_sort_plugins(plugins: &mut Vec<Plugin>)
    ensures
        final(plugins)@.to_multiset() == old(plugins)@.to_multiset(),
        in_file_order(plugin_views(final(plugins)@)),
        forall|plugin: Plugin| #[trigger]
            rank_mates(final(plugins)@, plugin) == rank_mates(old(plugins)@, plugin),
{
    plugins.par_sort_by(plugin_sorter);
}

/// Puts `plugins` into the order that their files give. No plugin is lost or
/// made, and plugins of one rank keep their order.
pub fn sort_plugins(plugins: &mut Vec<Plugin>)
    ensures
        in_file_order(plugin_views(final(plugins)@)),
        plugin_views(final(plugins)@).to_multiset() == plugin_views(old(plugins)@).to_multiset(),
        forall|plugin: Plugin| #[trigger]
            rank_mates(final(plugins)@, plugin) == rank_mates(old(plugins)@, plugin),
{
    par_sort_plugins(plugins);
    proof {
        lemma_map_values_to_multiset(plugins@, old(plugins)@, |plugin: Plugin| plugin@);
    }
}

} // verus!
