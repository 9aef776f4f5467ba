//! The order that the plugin files themselves give: master files first, then
//! by modification time, then by name without regard to case.
use crate::plugin::{case_folded, fold_case, PluginView};
use vstd::prelude::*;
use vstd::utf8::{encode_utf8, encode_utf8_decode_utf8};

verus! {

/// Whether `left` stands before `right` where byte strings are ordered as a
/// dictionary orders words: by the first byte in which they differ, and a
/// string before each of its extensions.
pub open spec fn bytes_precede(left: Seq<u8>, right: Seq<u8>) -> bool
    decreases left.len(),
{
    if right.len() == 0 {
        false
    } else if left.len() == 0 {
        true
    } else if left[0] != right[0] {
        left[0] < right[0]
    } else {
        bytes_precede(left.drop_first(), right.drop_first())
    }
}

/// What names are compared by: the bytes of the UTF-8 form of the name's case
/// folding.
pub open spec fn name_key(name: Seq<char>) -> Seq<u8> {
    encode_utf8(case_folded(name))
}

/// Whether the name `left` stands before the name `right`. Names are ordered
/// without regard to case: their case foldings are ordered as Rust orders
/// strings, by the bytes of their UTF-8 form. Of two names that differ only
/// in case neither stands before the other.
pub open spec fn name_precedes(left: Seq<char>, right: Seq<char>) -> bool {
    bytes_precede(name_key(left), name_key(right))
}

/// Whether the files put `left` before `right`: a master file before any other
/// plugin; of two of a kind, the one that was modified earlier; of two that
/// were modified at the same time, the one whose name comes first, case
/// apart.
pub open spec fn precedes(left: PluginView, right: PluginView) -> bool {
    if left.is_master_file != right.is_master_file {
        left.is_master_file
    } else if left.modification_time != right.modification_time {
        left.modification_time < right.modification_time
    } else {
        name_precedes(left.name, right.name)
    }
}

/// Whether the files put neither of the two before the other, which is so
/// only where they are of one kind and one time and their names differ in
/// case at most.
pub open spec fn same_rank(left: PluginView, right: PluginView) -> bool {
    !precedes(left, right) && !precedes(right, left)
}

/// Whether `plugins` stand in the order that their files give: none stands
/// behind one that it precedes.
pub open spec fn in_file_order(plugins: Seq<PluginView>) -> bool {
    forall|earlier: int, later: int|
        0 <= earlier < later < plugins.len() ==> !precedes(
            #[trigger] plugins[later],
            #[trigger] plugins[earlier],
        )
}

/// Whether every master file of `plugins` stands before every plugin that is
/// none.
pub open spec fn masters_first(plugins: Seq<PluginView>) -> bool {
    forall|earlier: int, later: int|
        0 <= earlier < later < plugins.len() && (#[trigger] plugins[later]).is_master_file ==> (
        #[trigger] plugins[earlier]).is_master_file
}

/// No byte string stands before itself.
pub proof fn lemma_bytes_precede_irreflexive(bytes: Seq<u8>)
    ensures
        !bytes_precede(bytes, bytes),
    decreases bytes.len(),
{
    if bytes.len() > 0 {
        lemma_bytes_precede_irreflexive(bytes.drop_first());
    }
}

/// Of two byte strings at most one stands before the other.
pub proof fn lemma_bytes_precede_asymmetric(left: Seq<u8>, right: Seq<u8>)
    requires
        bytes_precede(left, right),
    ensures
        !bytes_precede(right, left),
    decreases left.len(),
{
    if left.len() > 0 && right.len() > 0 && left[0] == right[0] {
        lemma_bytes_precede_asymmetric(left.drop_first(), right.drop_first());
    }
}

/// What stands before a byte string stands before all that the string stands
/// before.
pub proof fn lemma_bytes_precede_transitive(left: Seq<u8>, middle: Seq<u8>, right: Seq<u8>)
    requires
        bytes_precede(left, middle),
        bytes_precede(middle, right),
    ensures
        bytes_precede(left, right),
    decreases left.len(),
{
    if left.len() > 0 && left[0] == middle[0] && middle[0] == right[0] {
        lemma_bytes_precede_transitive(left.drop_first(), middle.drop_first(), right.drop_first());
    }
}

/// Of two different byte strings one stands before the other.
pub proof fn lemma_bytes_precede_connected(left: Seq<u8>, right: Seq<u8>)
    requires
        left != right,
    ensures
        bytes_precede(left, right) || bytes_precede(right, left),
    decreases left.len(),
{
    if left.len() == 0 {
        assert(right.len() > 0) by {
            if right.len() == 0 {
                assert(left =~= right);
            }
        }
    } else if right.len() > 0 && left[0] == right[0] {
        if left.drop_first() == right.drop_first() {
            assert(left =~= seq![left[0]] + left.drop_first());
            assert(right =~= seq![right[0]] + right.drop_first());
        }
        lemma_bytes_precede_connected(left.drop_first(), right.drop_first());
    }
}

/// Of two names that differ in more than case one stands before the other.
pub proof fn lemma_name_precedes_connected(left: Seq<char>, right: Seq<char>)
    requires
        case_folded(left) != case_folded(right),
    ensures
        name_precedes(left, right) || name_precedes(right, left),
{
    encode_utf8_decode_utf8(case_folded(left));
    encode_utf8_decode_utf8(case_folded(right));
    assert(name_key(left) != name_key(right));
    lemma_bytes_precede_connected(name_key(left), name_key(right));
}

/// No plugin precedes itself, and of two plugins at most one precedes the
/// other.
pub proof fn lemma_precedes_asymmetric(left: PluginView, right: PluginView)
    requires
        precedes(left, right),
    ensures
        !precedes(right, left),
{
    if left.is_master_file == right.is_master_file && left.modification_time
        == right.modification_time {
        lemma_bytes_precede_asymmetric(name_key(left.name), name_key(right.name));
    }
}

/// What precedes a plugin precedes all that the plugin precedes.
pub proof fn lemma_precedes_transitive(left: PluginView, middle: PluginView, right: PluginView)
    requires
        precedes(left, middle),
        precedes(middle, right),
    ensures
        precedes(left, right),
{
    if left.is_master_file == middle.is_master_file && middle.is_master_file
        == right.is_master_file && left.modification_time == middle.modification_time
        && middle.modification_time == right.modification_time {
        lemma_bytes_precede_transitive(
            name_key(left.name),
            name_key(middle.name),
            name_key(right.name),
        );
    }
}

/// Two plugins of which neither precedes the other are of one kind and one
/// time, and their names differ in case at most.
pub proof fn lemma_same_rank(left: PluginView, right: PluginView)
    requires
        same_rank(left, right),
    ensures
        left.is_master_file == right.is_master_file,
        left.modification_time == right.modification_time,
        case_folded(left.name) == case_folded(right.name),
{
    if case_folded(left.name) != case_folded(right.name) {
        lemma_name_precedes_connected(left.name, right.name);
    }
}

/// Plugins of the rank of one plugin are of one rank.
pub proof fn lemma_same_rank_transitive(left: PluginView, middle: PluginView, right: PluginView)
    requires
        same_rank(left, middle),
        same_rank(middle, right),
    ensures
        same_rank(left, right),
{
    lemma_same_rank(left, middle);
    lemma_same_rank(middle, right);
    lemma_bytes_precede_irreflexive(name_key(left.name));
}

/// What file order means for any two of the plugins: a master file never
/// stands behind a plugin that is none; of two of a kind the later one was not
/// modified earlier; and where both were modified at the same time, the name of
/// the later one does not come first.
pub proof fn lemma_in_file_order(plugins: Seq<PluginView>, earlier: int, later: int)
    requires
        in_file_order(plugins),
        0 <= earlier < later < plugins.len(),
    ensures
        plugins[later].is_master_file ==> plugins[earlier].is_master_file,
        plugins[earlier].is_master_file == plugins[later].is_master_file
            ==> plugins[earlier].modification_time <= plugins[later].modification_time,
        plugins[earlier].is_master_file == plugins[later].is_master_file
            && plugins[earlier].modification_time == plugins[later].modification_time
            ==> !name_precedes(plugins[later].name, plugins[earlier].name),
{
    assert(!precedes(plugins[later], plugins[earlier]));
}

/// Plugins in file order have their master files first.
pub proof fn lemma_file_order_has_masters_first(plugins: Seq<PluginView>)
    requires
        in_file_order(plugins),
    ensures
        masters_first(plugins),
{
    assert forall|earlier: int, later: int|
        0 <= earlier < later < plugins.len() && (#[trigger] plugins[later]).is_master_file implies (
    #[trigger] plugins[earlier]).is_master_file by {
        lemma_in_file_order(plugins, earlier, later);
    }
}

/// Whether the name `left` stands before the name `right`, case apart.
pub fn is_name_before(left: &str, right: &str) -> (before: bool)
    ensures
        before == name_precedes(left@, right@),
{
    let left_folded = fold_case(left);
    let right_folded = fold_case(right);
    let left_bytes = left_folded.as_str().as_bytes();
    let right_bytes = right_folded.as_str().as_bytes();
    let mut index: usize = 0;
    assert(left_bytes@.skip(0) =~= left_bytes@ && right_bytes@.skip(0) =~= right_bytes@);
    while index < left_bytes.len() && index < right_bytes.len()
        invariant
            index <= left_bytes@.len(),
            index <= right_bytes@.len(),
            left_bytes@ == name_key(left@),
            right_bytes@ == name_key(right@),
            bytes_precede(left_bytes@, right_bytes@) == bytes_precede(
                left_bytes@.skip(index as int),
                right_bytes@.skip(index as int),
            ),
        decreases left_bytes@.len() - index,
    {
        if left_bytes[index] != right_bytes[index] {
            return left_bytes[index] < right_bytes[index];
        }
        assert(left_bytes@.skip(index as int).drop_first() =~= left_bytes@.skip(index + 1));
        assert(right_bytes@.skip(index as int).drop_first() =~= right_bytes@.skip(index + 1));
        index += 1;
    }
    index < right_bytes.len()
}

} // verus!
