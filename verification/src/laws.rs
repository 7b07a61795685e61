//! The general laws that relate the store's operations, proved over the same
//! sequence model that the operations' contracts use.

use vstd::prelude::*;

use crate::store::first_index;
use crate::store::flip;
use crate::store::has_task;
use crate::store::remove_id;
use crate::store::toggle_first;
use crate::store::TaskView;

verus! {

/// After an add, the collection holds the added task as its last element and
/// its length has grown by exactly one.
pub proof fn lemma_add_then_list(s: Seq<TaskView>, t: TaskView)
    ensures
        s.push(t).len() == s.len() + 1,
        s.push(t).last() == t,
{
}

/// For a collection that holds `id` somewhere, the first index for `id` is a
/// real position: it carries `id` and every position before it does not.
pub proof fn lemma_first_index_props(s: Seq<TaskView>, id: int)
    requires
        has_task(s, id),
    ensures
        0 <= first_index(s, id) < s.len(),
        s[first_index(s, id)].id == id,
        forall|k: int| 0 <= k < first_index(s, id) ==> s[k].id != id,
    decreases s.len(),
{
    if s.len() == 0 {
    } else if s[0].id == id {
    } else {
        let w = choose|i: int| 0 <= i < s.len() && s[i].id == id;
        assert(s.drop_first()[w - 1].id == id);
        assert(has_task(s.drop_first(), id));
        lemma_first_index_props(s.drop_first(), id);
        let fi = first_index(s.drop_first(), id);
        assert(first_index(s, id) == 1 + fi);
        assert(s[1 + fi] == s.drop_first()[fi]);
        assert forall|k: int| 0 <= k < 1 + fi implies s[k].id != id by {
            if k > 0 {
                assert(s[k] == s.drop_first()[k - 1]);
            }
        }
    }
}

/// A toggle of an id the collection holds negates the completion flag of the
/// first task carrying it and changes nothing else: that task keeps its id
/// and text, every other task is untouched, and the length stays the same.
pub proof fn lemma_toggle_flips(s: Seq<TaskView>, id: int)
    requires
        has_task(s, id),
    ensures
        toggle_first(s, id).len() == s.len(),
        toggle_first(s, id)[first_index(s, id)].completed
            == !s[first_index(s, id)].completed,
        toggle_first(s, id)[first_index(s, id)].id == s[first_index(s, id)].id,
        toggle_first(s, id)[first_index(s, id)].text == s[first_index(s, id)].text,
        forall|k: int| 0 <= k < s.len() && k != first_index(s, id)
            ==> toggle_first(s, id)[k] == s[k],
{
    lemma_first_index_props(s, id);
}

/// Toggling the same id twice restores the collection exactly, whether or not
/// any task carries the id.
pub proof fn lemma_toggle_round_trip(s: Seq<TaskView>, id: int)
    ensures
        toggle_first(toggle_first(s, id), id) == s,
{
    if has_task(s, id) {
        lemma_first_index_props(s, id);
        let i = first_index(s, id);
        let s1 = s.update(i, flip(s[i]));
        assert(toggle_first(s, id) == s1);
        assert(s1[i].id == id);
        assert(has_task(s1, id));
        lemma_first_index_props(s1, id);
        let j = first_index(s1, id);
        if j < i {
            assert(s1[j] == s[j]);
        }
        assert(j == i);
        assert(toggle_first(s1, id) == s1.update(i, flip(s1[i])));
        assert(flip(flip(s[i])) == s[i]);
        assert(s1.update(i, flip(s1[i])) =~= s);
    } else {
        assert(!has_task(toggle_first(s, id), id));
    }
}

/// After a delete of `id`, no task carrying `id` remains in the collection.
pub proof fn lemma_delete_removes_all(s: Seq<TaskView>, id: int)
    ensures
        forall|k: int| 0 <= k < remove_id(s, id).len()
            ==> remove_id(s, id)[k].id != id,
    decreases s.len(),
{
    if s.len() == 0 {
    } else {
        lemma_delete_removes_all(s.drop_last(), id);
        let rest = remove_id(s.drop_last(), id);
        if s.last().id != id {
            assert(remove_id(s, id) == rest.push(s.last()));
            assert forall|k: int| 0 <= k < rest.push(s.last()).len()
                implies rest.push(s.last())[k].id != id by {
                if k == rest.len() {
                    assert(rest.push(s.last())[k] == s.last());
                }
            }
        }
    }
}

/// Deleting an id that no task carries leaves the collection exactly as it
/// was.
pub proof fn lemma_delete_missing_noop(s: Seq<TaskView>, id: int)
    requires
        !has_task(s, id),
    ensures
        remove_id(s, id) == s,
    decreases s.len(),
{
    if s.len() == 0 {
        assert(remove_id(s, id) =~= s);
    } else {
        assert(forall|k: int| 0 <= k < s.len() - 1 ==> s.drop_last()[k] == s[k]);
        assert(!has_task(s.drop_last(), id));
        lemma_delete_missing_noop(s.drop_last(), id);
        assert(s[s.len() - 1].id != id);
        assert(s.drop_last().push(s.last()) =~= s);
    }
}

/// Adding tasks a, b, c in that order to an empty collection yields exactly
/// [a, b, c]; deleting b's id then yields exactly [a, c], provided neither a
/// nor c carries b's id.
pub proof fn lemma_order_preservation(a: TaskView, b: TaskView, c: TaskView)
    requires
        a.id != b.id,
        c.id != b.id,
    ensures
        Seq::<TaskView>::empty().push(a).push(b).push(c) =~= seq![a, b, c],
        remove_id(seq![a, b, c], b.id) =~= seq![a, c],
{
    let s = seq![a, b, c];
    let e = Seq::<TaskView>::empty();
    assert(remove_id(e, b.id) == e);
    assert(seq![a].drop_last() =~= e);
    assert(seq![a].last() == a);
    assert(remove_id(seq![a], b.id) =~= seq![a]);
    assert(seq![a, b].drop_last() =~= seq![a]);
    assert(seq![a, b].last() == b);
    assert(remove_id(seq![a, b], b.id) =~= seq![a]);
    assert(s.drop_last() =~= seq![a, b]);
    assert(s.last() == c);
    assert(remove_id(s, b.id) =~= seq![a, c]);
}

/// A serialized run of adds: starting from `s`, the pending tasks are
/// appended one at a time, in order.
pub open spec fn add_all(s: Seq<TaskView>, pending: Seq<TaskView>) -> Seq<TaskView>
    decreases pending.len(),
{
    if pending.len() == 0 {
        s
    } else {
        add_all(s.push(pending[0]), pending.drop_first())
    }
}

/// Adds that run one after another lose nothing, however the callers were
/// interleaved before serialization: the final collection is the starting one
/// with every pending task appended, each at its own position, in the order
/// the adds ran.
pub proof fn lemma_serialized_adds(s: Seq<TaskView>, pending: Seq<TaskView>)
    ensures
        add_all(s, pending) == s + pending,
        add_all(s, pending).len() == s.len() + pending.len(),
        forall|k: int| 0 <= k < pending.len()
            ==> add_all(s, pending)[s.len() + k] == pending[k],
    decreases pending.len(),
{
    if pending.len() == 0 {
        assert(s + pending =~= s);
    } else {
        lemma_serialized_adds(s.push(pending[0]), pending.drop_first());
        assert(s.push(pending[0]) + pending.drop_first() =~= s + pending);
    }
}

} // verus!
