//! The order in which results are walked: group after group, and within a
//! group row after row.

use vstd::prelude::*;
use crate::document::{groups_view, DocResult, GroupView, RowView};

verus! {

/// The place of one result: its group, and its row within the group.
pub struct Hit {
    pub group: nat,
    pub row: nat,
}

/// The places of the `rows` rows of group number `group`, in order.
pub open spec fn hits_of(group: nat, rows: nat) -> Seq<Hit> {
    Seq::new(rows, |r: int| Hit { group: group, row: r as nat })
}

/// The places of all results, in the order in which selection walks them.
pub open spec fn flattened(groups: Seq<GroupView>) -> Seq<Hit>
    decreases groups.len(),
{
    if groups.len() == 0 {
        Seq::empty()
    } else {
        flattened(groups.drop_last()) + hits_of(
            (groups.len() - 1) as nat,
            groups.last().rows.len(),
        )
    }
}

/// The number of results.
pub open spec fn result_count(groups: Seq<GroupView>) -> nat {
    flattened(groups).len()
}

/// The place of result number `index`, counted from zero, if there are that
/// many results.
pub open spec fn hit_at(groups: Seq<GroupView>, index: nat) -> Option<Hit> {
    if index < result_count(groups) {
        Some(flattened(groups)[index as int])
    } else {
        None
    }
}

/// The selection `index` brought onto the results: it stays where it is while
/// it names a result, and goes to the last result otherwise, or to zero when
/// there is none.
pub open spec fn clamped(groups: Seq<GroupView>, index: nat) -> nat {
    let count = result_count(groups);
    if index < count {
        index
    } else if count == 0 {
        0
    } else {
        (count - 1) as nat
    }
}

/// Without groups there are no results.
pub proof fn lemma_no_groups_no_results()
    ensures
        result_count(Seq::empty()) == 0,
{
}

/// The results of the first `g + 1` groups are those of the first `g`
/// groups followed by the rows of group `g`.
pub proof fn lemma_flattened_step(groups: Seq<GroupView>, g: int)
    requires
        0 <= g < groups.len(),
    ensures
        flattened(groups.take(g + 1)) == flattened(groups.take(g)) + hits_of(
            g as nat,
            groups[g].rows.len(),
        ),
{
    assert(groups.take(g + 1).drop_last() =~= groups.take(g));
}

/// The results of the first groups begin the results of all groups.
pub proof fn lemma_flattened_prefix(groups: Seq<GroupView>, g: int)
    requires
        0 <= g <= groups.len(),
    ensures
        flattened(groups.take(g)).len() <= flattened(groups).len(),
        flattened(groups).take(flattened(groups.take(g)).len() as int) == flattened(
            groups.take(g),
        ),
    decreases groups.len(),
{
    let part = flattened(groups.take(g));
    if g == groups.len() {
        assert(groups.take(g) =~= groups);
        assert(part.take(part.len() as int) =~= part);
    } else {
        let front = groups.drop_last();
        lemma_flattened_prefix(front, g);
        assert(front.take(g) =~= groups.take(g));
        assert(flattened(groups).take(part.len() as int) =~= flattened(front).take(
            part.len() as int,
        ));
    }
}

/// Every place in the walk lies inside its group: the walk visits each row
/// of each group, and nothing else.
pub proof fn lemma_hits_in_range(groups: Seq<GroupView>, index: int)
    requires
        0 <= index < result_count(groups),
    ensures
        flattened(groups)[index].group < groups.len(),
        flattened(groups)[index].row < groups[flattened(groups)[index].group as int].rows.len(),
    decreases groups.len(),
{
    if groups.len() > 0 {
        let front = groups.drop_last();
        if index < flattened(front).len() {
            lemma_hits_in_range(front, index);
        }
    }
}

/// Groups of at most `cap` rows each hold at most `cap` results for each
/// group.
pub proof fn lemma_count_bounded(groups: Seq<GroupView>, cap: nat)
    requires
        forall|g: int| 0 <= g < groups.len() ==> (#[trigger] groups[g]).rows.len() <= cap,
    ensures
        result_count(groups) <= groups.len() * cap,
    decreases groups.len(),
{
    if groups.len() > 0 {
        let front = groups.drop_last();
        assert forall|g: int| 0 <= g < front.len() implies (#[trigger] front[g]).rows.len()
            <= cap by {
            assert(front[g] == groups[g]);
        }
        lemma_count_bounded(front, cap);
        assert(front.len() * cap + cap == groups.len() * cap) by (nonlinear_arith)
            requires
                front.len() + 1 == groups.len(),
        ;
    } else {
        assert(groups.len() * cap == 0) by (nonlinear_arith)
            requires
                groups.len() == 0,
        ;
    }
}

/// Finds the group and the row of result number `index`.
pub fn locate(groups: &Vec<DocResult>, index: usize) -> (found: Option<(usize, usize)>)
    ensures
        match found {
            Some((g, r)) => {
                &&& hit_at(groups_view(groups@), index as nat) == Some(
                    Hit { group: g as nat, row: r as nat },
                )
                &&& g < groups.len()
                &&& r < groups[g as int].contents.len()
            },
            None => hit_at(groups_view(groups@), index as nat) is None,
        },
{
    let ghost all = groups_view(groups@);
    let mut g: usize = 0;
    let mut rest: usize = index;
    assert(all.take(0) =~= Seq::<GroupView>::empty());
    while g < groups.len()
        invariant
            g <= groups.len(),
            all == groups_view(groups@),
            flattened(all.take(g as int)).len() + rest == index,
        decreases groups.len() - g,
    {
        let rows = groups[g].contents.len();
        proof {
            lemma_flattened_step(all, g as int);
            lemma_flattened_prefix(all, g + 1);
        }
        if rest < rows {
            proof {
                let upto = flattened(all.take(g + 1));
                assert(upto[index as int] == Hit { group: g as nat, row: rest as nat });
                assert(flattened(all).take(upto.len() as int)[index as int] == flattened(
                    all,
                )[index as int]);
            }
            return Some((g, rest));
        }
        rest = rest - rows;
        g = g + 1;
    }
    assert(all.take(g as int) =~= all);
    None
}

/// Brings the selection `index` onto the results: it is kept while it names a
/// result, and moved to the last result otherwise, or to zero when there is
/// none.
pub fn clamp(groups: &Vec<DocResult>, index: usize) -> (kept: usize)
    ensures
        kept == clamped(groups_view(groups@), index as nat),
{
    let ghost all = groups_view(groups@);
    let mut g: usize = 0;
    let mut seen: usize = 0;
    assert(all.take(0) =~= Seq::<GroupView>::empty());
    while g < groups.len()
        invariant
            g <= groups.len(),
            all == groups_view(groups@),
            seen == flattened(all.take(g as int)).len(),
            seen <= index,
        decreases groups.len() - g,
    {
        let rows = groups[g].contents.len();
        proof {
            lemma_flattened_step(all, g as int);
            lemma_flattened_prefix(all, g + 1);
        }
        if index - seen < rows {
            return index;
        }
        seen = seen + rows;
        g = g + 1;
    }
    assert(all.take(g as int) =~= all);
    if seen == 0 {
        0
    } else {
        seen - 1
    }
}

} // verus!
