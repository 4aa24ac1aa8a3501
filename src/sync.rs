use vstd::prelude::*;

use crate::news_item::{ids_of, items_view, NewNewsItem, NewsItemView};
use crate::text::strings_view;

verus! {

/// The records of a batch that are to be stored: those whose source id is neither
/// stored already nor taken by an earlier record of the batch.
pub open spec fn select_new_spec(items: Seq<NewsItemView>, existing: Seq<Seq<char>>) -> Seq<
    NewsItemView,
>
    decreases items.len(),
{
    if items.len() == 0 {
        Seq::empty()
    } else {
        let prev = select_new_spec(items.drop_last(), existing);
        let id = items.last().lodestone_id;
        if existing.contains(id) || ids_of(prev).contains(id) {
            prev
        } else {
            prev.push(items.last())
        }
    }
}

/// Whether `id` is among `ids`.
pub fn contains_id(ids: &Vec<String>, id: &String) -> (r: bool)
    ensures
        r == strings_view(ids@).contains(id@),
{
    let mut i: usize = 0;
    while i < ids.len()
        invariant
            i <= ids.len(),
            forall|j: int| 0 <= j < i ==> ids@[j]@ != id@,
        decreases ids.len() - i,
    {
        if ids[i] == *id {
            assert(strings_view(ids@)[i as int] == id@);
            return true;
        }
        i += 1;
    }
    proof {
        if strings_view(ids@).contains(id@) {
            let k = choose|k: int| 0 <= k < ids@.len() && strings_view(ids@)[k] == id@;
            assert(ids@[k]@ == id@);
        }
    }
    false
}

/// Keeps the records of a batch whose source id is not stored yet, dropping any whose
/// id an earlier record of the batch already has; the order of the batch is kept.
pub fn select_new(items: Vec<NewNewsItem>, existing: &Vec<String>) -> (r: Vec<NewNewsItem>)
    ensures
        items_view(r@) == select_new_spec(items_view(items@), strings_view(existing@)),
{
    let ghost all = items_view(items@);
    let ghost ex = strings_view(existing@);
    let mut rest = items;
    let mut kept: Vec<NewNewsItem> = Vec::new();
    let mut kept_ids: Vec<String> = Vec::new();
    let ghost mut done: int = 0;
    proof {
        assert(all.subrange(0, 0) =~= Seq::<NewsItemView>::empty());
        assert(items_view(kept@) =~= Seq::<NewsItemView>::empty());
        assert(strings_view(kept_ids@) =~= ids_of(items_view(kept@)));
        assert(items_view(rest@) =~= all.subrange(0, all.len() as int));
    }
    while rest.len() > 0
        invariant
            0 <= done <= all.len(),
            ex == strings_view(existing@),
            items_view(rest@) == all.subrange(done, all.len() as int),
            items_view(kept@) == select_new_spec(all.subrange(0, done), ex),
            strings_view(kept_ids@) == ids_of(items_view(kept@)),
        decreases rest.len(),
    {
        let ghost before = rest@;
        proof {
            assert(items_view(before).len() == before.len());
            assert(items_view(before)[0] == before[0]@);
        }
        let it = rest.remove(0);
        proof {
            assert(it@ == all[done]);
            assert(items_view(rest@) =~= items_view(before).drop_first());
            assert(items_view(rest@) =~= all.subrange(done + 1, all.len() as int));
            assert(all.subrange(0, done + 1).drop_last() =~= all.subrange(0, done));
            assert(all.subrange(0, done + 1).last() == all[done]);
        }
        let seen = contains_id(existing, &it.lodestone_id) || contains_id(
            &kept_ids,
            &it.lodestone_id,
        );
        if !seen {
            let id = it.lodestone_id.clone();
            proof {
                assert(items_view(kept@.push(it)) =~= items_view(kept@).push(it@));
                assert(strings_view(kept_ids@.push(id)) =~= strings_view(kept_ids@).push(id@));
                assert(ids_of(items_view(kept@).push(it@)) =~= ids_of(items_view(kept@)).push(
                    it@.lodestone_id,
                ));
            }
            kept_ids.push(id);
            kept.push(it);
        }
        proof {
            done = done + 1;
        }
    }
    proof {
        assert(all.subrange(0, done) =~= all);
    }
    kept
}

/// What `select_new` keeps: no record whose id is stored already, no id twice, and
/// every id of the batch that is not stored yet.
pub proof fn lemma_select_new_dedups(items: Seq<NewsItemView>, existing: Seq<Seq<char>>)
    ensures
        ({
            let r = select_new_spec(items, existing);
            &&& forall|i: int| 0 <= i < r.len() ==> !existing.contains(#[trigger] r[i].lodestone_id)
            &&& forall|i: int, j: int|
                0 <= i < j < r.len() ==> (#[trigger] r[i]).lodestone_id != (#[trigger] r[j]).lodestone_id
            &&& forall|k: int|
                0 <= k < items.len() && !existing.contains(#[trigger] items[k].lodestone_id)
                    ==> ids_of(r).contains(items[k].lodestone_id)
        }),
    decreases items.len(),
{
    if items.len() > 0 {
        let init = items.drop_last();
        lemma_select_new_dedups(init, existing);
        let prev = select_new_spec(init, existing);
        let r = select_new_spec(items, existing);
        let last = items.last();
        if !(existing.contains(last.lodestone_id) || ids_of(prev).contains(last.lodestone_id)) {
            assert(r == prev.push(last));
            assert forall|i: int, j: int| 0 <= i < j < r.len() implies (
            #[trigger] r[i]).lodestone_id != (#[trigger] r[j]).lodestone_id by {
                if j == r.len() - 1 {
                    assert(ids_of(prev)[i] == prev[i].lodestone_id);
                }
            }
            assert forall|k: int|
                0 <= k < items.len() && !existing.contains(
                    #[trigger] items[k].lodestone_id,
                ) implies ids_of(r).contains(items[k].lodestone_id) by {
                if k < items.len() - 1 {
                    assert(init[k] == items[k]);
                    let m = choose|m: int|
                        0 <= m < ids_of(prev).len() && ids_of(prev)[m] == items[k].lodestone_id;
                    assert(ids_of(r)[m] == ids_of(prev)[m]);
                } else {
                    assert(ids_of(r)[r.len() - 1] == last.lodestone_id);
                }
            }
        } else {
            assert forall|k: int|
                0 <= k < items.len() && !existing.contains(
                    #[trigger] items[k].lodestone_id,
                ) implies ids_of(r).contains(items[k].lodestone_id) by {
                if k < items.len() - 1 {
                    assert(init[k] == items[k]);
                }
            }
        }
    }
}

} // verus!
