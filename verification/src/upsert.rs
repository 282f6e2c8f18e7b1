//! Keeping one row per torrent: what to do with the rows that already hold it.
use crate::dataitem::{DataItem, DataItemView};
use crate::db::{
    delete_item_statement, delete_statement, insert_statement, update_item_statement,
    update_statement,
};
use vstd::prelude::*;
use vstd::relations::{sorted_by, total_ordering};

verus! {

broadcast use vstd::seq_lib::group_to_multiset_ensures;

/// A change to the resources table.
#[derive(Debug, Copy, Clone, PartialEq, Eq, Structural)]
pub enum DbAction {
    /// Add the torrent as a new row.
    Insert,
    /// Overwrite the row with this id by the torrent.
    Update(usize),
    /// Delete the row with this id.
    Delete(usize),
}

pub open spec fn id_leq() -> spec_fn(usize, usize) -> bool {
    |a: usize, b: usize| a <= b
}

/// The ids in ascending order.
pub open spec fn sorted_ids(ids: Seq<usize>) -> Seq<usize> {
    ids.sort_by(id_leq())
}

/// With no row yet, insert; else delete every row but the one with the largest id, in
/// ascending order of id, and overwrite that one.
pub open spec fn plan_for(sorted: Seq<usize>) -> Seq<DbAction> {
    if sorted.len() == 0 {
        seq![DbAction::Insert]
    } else {
        Seq::new((sorted.len() - 1) as nat, |i: int| DbAction::Delete(sorted[i])).push(
            DbAction::Update(sorted.last()),
        )
    }
}

/// The statement that carries out an action for a torrent.
pub open spec fn action_statement(a: DbAction, v: DataItemView) -> Seq<char> {
    match a {
        DbAction::Insert => insert_statement(v),
        DbAction::Update(id) => update_statement(id, v),
        DbAction::Delete(id) => delete_statement(id),
    }
}

proof fn lemma_id_leq_total()
    ensures
        total_ordering(id_leq()),
{
}

/// The ids in ascending order.
pub fn sort_ids(ids: &Vec<usize>) -> (r: Vec<usize>)
    ensures
        r@ == sorted_ids(ids@),
{
    let mut out: Vec<usize> = Vec::new();
    let mut k: usize = 0;
    while k < ids.len()
        invariant
            k <= ids.len(),
            sorted_by(out@, id_leq()),
            out@.to_multiset() == ids@.take(k as int).to_multiset(),
        decreases ids.len() - k,
    {
        let x = ids[k];
        let mut p: usize = 0;
        while p < out.len() && out[p] <= x
            invariant
                p <= out.len(),
                forall|j: int| 0 <= j < p ==> out@[j] <= x,
            decreases out.len() - p,
        {
            p = p + 1;
        }
        let ghost before = out@;
        out.insert(p, x);
        proof {
            assert(ids@.take(k + 1) =~= ids@.take(k as int).push(x));
            assert forall|i: int, j: int| 0 <= i < j < out@.len() implies #[trigger] (id_leq())(out@[i], out@[j]) by {
                assert((id_leq())(before[i], before[j]) || !(0 <= i < j < before.len()));
                if j < p {
                } else if j == p {
                    assert(out@[j] == x);
                } else if i == p {
                    assert(out@[j] == before[j - 1]);
                    if p < before.len() {
                        assert(before[p as int] > x);
                        assert((id_leq())(before[p as int], before[j - 1]) || j - 1 == p);
                    }
                } else if i < p {
                    assert(out@[j] == before[j - 1]);
                    assert((id_leq())(before[i], before[j - 1]));
                } else {
                    assert(out@[i] == before[i - 1]);
                    assert(out@[j] == before[j - 1]);
                    assert((id_leq())(before[i - 1], before[j - 1]));
                }
            }
        }
        k = k + 1;
    }
    proof {
        assert(ids@.take(ids.len() as int) =~= ids@);
        lemma_id_leq_total();
        ids@.lemma_sort_by_ensures(id_leq());
        vstd::seq_lib::lemma_sorted_unique(out@, ids@.sort_by(id_leq()), id_leq());
    }
    out
}

/// What to do with the rows `found` that already hold a torrent, so that one row holds it.
pub fn upsert_actions(found: &Vec<usize>) -> (r: Vec<DbAction>)
    ensures
        r@ == plan_for(sorted_ids(found@)),
{
    let sorted = sort_ids(found);
    let mut r: Vec<DbAction> = Vec::new();
    if sorted.len() == 0 {
        r.push(DbAction::Insert);
        assert(r@ =~= plan_for(sorted@));
        return r;
    }
    let n = sorted.len();
    let mut i: usize = 0;
    while i < n - 1
        invariant
            n == sorted.len(),
            n >= 1,
            i <= n - 1,
            r@ =~= Seq::new(i as nat, |j: int| DbAction::Delete(sorted@[j])),
        decreases n - 1 - i,
    {
        r.push(DbAction::Delete(sorted[i]));
        i = i + 1;
    }
    r.push(DbAction::Update(sorted[n - 1]));
    assert(r@ =~= plan_for(sorted@));
    r
}

/// The statements that leave one row holding `data`, given the ids `found` of the rows that
/// already hold it: an insert where there is none, else deletes of all but the row with the
/// largest id, in ascending order of id, and an update of that row.
pub fn insert_or_update_item(data: &DataItem, found: &Vec<usize>) -> (r: Vec<String>)
    ensures
        r@.map_values(|s: String| s@) == plan_for(sorted_ids(found@)).map_values(
            |a: DbAction| action_statement(a, data@),
        ),
{
    let actions = upsert_actions(found);
    let mut r: Vec<String> = Vec::new();
    let mut i: usize = 0;
    while i < actions.len()
        invariant
            i <= actions.len(),
            actions@ == plan_for(sorted_ids(found@)),
            r@.map_values(|s: String| s@) =~= actions@.take(i as int).map_values(
                |a: DbAction| action_statement(a, data@),
            ),
        decreases actions.len() - i,
    {
        let s = match actions[i] {
            DbAction::Insert => data.to_insert_statement(),
            DbAction::Update(id) => update_item_statement(id, data),
            DbAction::Delete(id) => delete_item_statement(id),
        };
        let ghost before = r@.map_values(|s: String| s@);
        r.push(s);
        assert(actions@.take(i + 1) =~= actions@.take(i as int).push(actions@[i as int]));
        assert(r@.map_values(|s: String| s@) =~= before.push(s@));
        i = i + 1;
    }
    assert(actions@.take(actions.len() as int) =~= actions@);
    r
}

/// The table as the addresses of its rows by id, after an action for a torrent at `link`;
/// an inserted row gets the id `fresh`.
pub open spec fn apply_action(table: Map<usize, Seq<char>>, a: DbAction, link: Seq<char>, fresh: usize) -> Map<usize, Seq<char>> {
    match a {
        DbAction::Insert => table.insert(fresh, link),
        DbAction::Update(id) => table.insert(id, link),
        DbAction::Delete(id) => table.remove(id),
    }
}

/// The table after the actions, in order.
pub open spec fn apply_actions(table: Map<usize, Seq<char>>, actions: Seq<DbAction>, link: Seq<char>, fresh: usize) -> Map<usize, Seq<char>>
    decreases actions.len(),
{
    if actions.len() == 0 {
        table
    } else {
        apply_action(apply_actions(table, actions.drop_last(), link, fresh), actions.last(), link, fresh)
    }
}

/// The ids of the rows at `link`.
pub open spec fn rows_at(table: Map<usize, Seq<char>>, link: Seq<char>) -> Set<usize> {
    Set::new(|id: usize| table.dom().contains(id) && table[id] == link)
}

proof fn lemma_deletes(table: Map<usize, Seq<char>>, s: Seq<usize>, k: nat, link: Seq<char>, fresh: usize)
    requires
        k <= s.len(),
    ensures
        ({
            let t = apply_actions(table, Seq::new(k, |i: int| DbAction::Delete(s[i])), link, fresh);
            forall|id: usize| #[trigger] t.dom().contains(id) == (table.dom().contains(id) && !s.take(k as int).contains(id))
                && (t.dom().contains(id) ==> t[id] == table[id])
        }),
    decreases k,
{
    let acts = Seq::new(k, |i: int| DbAction::Delete(s[i]));
    if k > 0 {
        lemma_deletes(table, s, (k - 1) as nat, link, fresh);
        assert(acts.drop_last() =~= Seq::new((k - 1) as nat, |i: int| DbAction::Delete(s[i])));
        let t = apply_actions(table, acts, link, fresh);
        let prev = apply_actions(table, Seq::new((k - 1) as nat, |i: int| DbAction::Delete(s[i])), link, fresh);
        assert(acts.last() == DbAction::Delete(s[k - 1]));
        assert(t == prev.remove(s[k - 1]));
        assert forall|id: usize| #[trigger] t.dom().contains(id) == (table.dom().contains(id) && !s.take(k as int).contains(id))
            && (t.dom().contains(id) ==> t[id] == table[id]) by {
            let pk = s.take(k as int);
            let pm = s.take(k - 1);
            assert(prev.dom().contains(id) == (table.dom().contains(id) && !pm.contains(id)));
            assert(pk =~= pm.push(s[k - 1]));
            if pm.contains(id) {
                let j = choose|j: int| 0 <= j < pm.len() && #[trigger] pm[j] == id;
                assert(pk[j] == id);
            }
            if pk.contains(id) && id != s[k - 1] {
                let j = choose|j: int| 0 <= j < pk.len() && #[trigger] pk[j] == id;
                assert(pm[j] == id);
            }
            if id == s[k - 1] {
                assert(pk[k - 1] == id);
            }
        }
    } else {
        assert(acts =~= Seq::<DbAction>::empty());
    }
}

/// After the actions planned for the rows that hold a torrent, exactly one row holds it, and
/// every row that held another address is kept as it was. This holds for every `found` that
/// lists the rows at the torrent's address, whatever id the table gives an inserted row.
///
/// The query for those rows (`same_item_query`) compares addresses with `=`, so its answer lists
/// exactly the rows at the torrent's address, as this law asks of `found`.
pub proof fn lemma_upsert_leaves_one_row(table: Map<usize, Seq<char>>, link: Seq<char>, found: Seq<usize>, fresh: usize)
    requires
        found.to_set() == rows_at(table, link),
        !table.dom().contains(fresh),
    ensures
        ({
            let t = apply_actions(table, plan_for(sorted_ids(found)), link, fresh);
            &&& rows_at(t, link).len() == 1
            &&& forall|id: usize| table.dom().contains(id) && table[id] != link ==> #[trigger] t.dom().contains(id) && t[id] == table[id]
        }),
{
    let s = sorted_ids(found);
    lemma_id_leq_total();
    found.lemma_sort_by_ensures(id_leq());
    let plan = plan_for(s);
    let t = apply_actions(table, plan, link, fresh);
    assert forall|x: usize| found.contains(x) == s.contains(x) by {
        assert(found.to_multiset().count(x) == s.to_multiset().count(x));
    }
    if s.len() == 0 {
        assert(plan =~= seq![DbAction::Insert]);
        assert(plan.drop_last() =~= Seq::<DbAction>::empty());
        assert(apply_actions(table, plan.drop_last(), link, fresh) == table);
        assert(t == table.insert(fresh, link));
        assert(rows_at(t, link) =~= Set::<usize>::empty().insert(fresh)) by {
            assert forall|id: usize| rows_at(t, link).contains(id) implies id == fresh by {
                if id != fresh {
                    assert(t.dom().contains(id) && t[id] == link);
                    assert(table.dom().contains(id) && table[id] == link);
                    assert(rows_at(table, link).contains(id));
                    assert(found.to_set().contains(id));
                    assert(found.contains(id));
                }
            }
        }
    } else {
        let n = s.len();
        let last = s[n - 1];
        let dels = Seq::new((n - 1) as nat, |i: int| DbAction::Delete(s[i]));
        assert(plan.drop_last() =~= dels);
        lemma_deletes(table, s, (n - 1) as nat, link, fresh);
        let d = apply_actions(table, dels, link, fresh);
        assert(plan.last() == DbAction::Update(last));
        assert(t == d.insert(last, link));
        assert(rows_at(t, link) =~= Set::<usize>::empty().insert(last)) by {
            assert forall|id: usize| rows_at(t, link).contains(id) implies id == last by {
                if id != last {
                    assert(d.dom().contains(id));
                    assert(d[id] == link);
                    assert(rows_at(table, link).contains(id));
                    assert(found.to_set().contains(id));
                    assert(s.contains(id));
                    let j = choose|j: int| 0 <= j < s.len() && #[trigger] s[j] == id;
                    assert(j != n - 1);
                    assert(s.take(n - 1)[j] == id);
                }
            }
        }
        assert forall|id: usize| table.dom().contains(id) && table[id] != link implies #[trigger] t.dom().contains(id) && t[id] == table[id] by {
            let pn = s.take(n - 1);
            if pn.contains(id) {
                let j = choose|j: int| 0 <= j < pn.len() && #[trigger] pn[j] == id;
                assert(s[j] == id);
                assert(s.contains(id));
                assert(found.contains(id));
                assert(found.to_set().contains(id));
            }
            if id == last {
                assert(s.contains(id));
                assert(found.to_set().contains(id));
            }
        }
    }
    if s.len() == 0 {
        assert forall|id: usize| table.dom().contains(id) && table[id] != link implies #[trigger] t.dom().contains(id) && t[id] == table[id] by {
        }
    }
}

} // verus!
