//! The totals of the contributions by ingredient and unit.

use vstd::prelude::*;
use crate::contributions::{quantities_wf, Contribution};
use crate::ratio::Ratio;
use crate::text::str_equal;

verus! {

/// The contribution is for the ingredient `id` in the unit `unit`.
pub open spec fn same_key(c: Contribution, id: i64, unit: Seq<char>) -> bool {
    c.ingredient_id == id && c.unit@ == unit
}

/// The total of the contributions for one ingredient and unit, added up in
/// the order of the lines. It is `None` where one of these quantities, or
/// the sum up to some line, cannot be represented.
pub open spec fn total_of(lines: Seq<Contribution>, id: i64, unit: Seq<char>) -> Option<Ratio>
    decreases lines.len(),
{
    if lines.len() == 0 {
        Some(Ratio::spec_zero())
    } else {
        let rest = total_of(lines.drop_last(), id, unit);
        let last = lines.last();
        if same_key(last, id, unit) {
            match (rest, last.quantity) {
                (Some(t), Some(q)) => t.spec_checked_add(q),
                _ => None,
            }
        } else {
            rest
        }
    }
}

/// The total of every ingredient and unit that occurs can be represented.
pub open spec fn totals_fit(lines: Seq<Contribution>) -> bool {
    forall|k: int|
        0 <= k < lines.len() ==> total_of(
            lines,
            (#[trigger] lines[k]).ingredient_id,
            lines[k].unit@,
        ) is Some
}

/// The running total of one ingredient in one unit.
#[derive(Clone, Debug, PartialEq, Eq)]
pub struct Group {
    pub ingredient_id: i64,
    pub unit: String,
    pub total: Ratio,
}

/// Some line is for the ingredient and unit.
pub open spec fn key_occurs(lines: Seq<Contribution>, id: i64, unit: Seq<char>) -> bool {
    exists|k: int| 0 <= k < lines.len() && same_key(#[trigger] lines[k], id, unit)
}

/// The group is for the ingredient `id` in the unit `unit`.
pub open spec fn group_for(g: Group, id: i64, unit: Seq<char>) -> bool {
    g.ingredient_id == id && g.unit@ == unit
}

/// Some group is for the ingredient and unit.
pub open spec fn has_group(groups: Seq<Group>, id: i64, unit: Seq<char>) -> bool {
    exists|i: int| 0 <= i < groups.len() && group_for(#[trigger] groups[i], id, unit)
}

/// The group holds the total of the lines for its ingredient and unit, and
/// there is such a line.
pub open spec fn group_ok(g: Group, lines: Seq<Contribution>) -> bool {
    &&& g.total.wf()
    &&& total_of(lines, g.ingredient_id, g.unit@) == Some(g.total)
    &&& key_occurs(lines, g.ingredient_id, g.unit@)
}

/// No two groups are for the same ingredient and unit.
pub open spec fn groups_distinct(groups: Seq<Group>) -> bool {
    forall|i: int, j: int|
        #![trigger groups[i], groups[j]]
        0 <= i < j < groups.len() ==> !group_for(groups[i], groups[j].ingredient_id, groups[j].unit@)
}

/// Every line has its group.
pub open spec fn lines_covered(groups: Seq<Group>, lines: Seq<Contribution>) -> bool {
    forall|k: int|
        0 <= k < lines.len() ==> has_group(groups, (#[trigger] lines[k]).ingredient_id, lines[k].unit@)
}

/// The groups are the totals of the lines: one group for each ingredient and
/// unit that occurs, holding the total of its contributions.
pub open spec fn groups_of(groups: Seq<Group>, lines: Seq<Contribution>) -> bool {
    &&& forall|i: int| 0 <= i < groups.len() ==> group_ok(#[trigger] groups[i], lines)
    &&& groups_distinct(groups)
    &&& lines_covered(groups, lines)
}

/// A total that cannot be represented after some lines cannot be
/// represented after more lines either.
pub proof fn lemma_total_none_extends(lines: Seq<Contribution>, n: int, id: i64, unit: Seq<char>)
    requires
        0 <= n <= lines.len(),
        total_of(lines.take(n), id, unit) is None,
    ensures
        total_of(lines, id, unit) is None,
    decreases lines.len() - n,
{
    if n == lines.len() {
        assert(lines.take(n) =~= lines);
    } else {
        let t = lines.take(n + 1);
        assert(t.drop_last() =~= lines.take(n));
        lemma_total_none_extends(lines, n + 1, id, unit);
    }
}

/// Where no line is for the ingredient and unit, their total is zero.
pub proof fn lemma_total_without_lines(lines: Seq<Contribution>, id: i64, unit: Seq<char>)
    requires
        forall|k: int| 0 <= k < lines.len() ==> !same_key(#[trigger] lines[k], id, unit),
    ensures
        total_of(lines, id, unit) == Some(Ratio::spec_zero()),
    decreases lines.len(),
{
    if lines.len() > 0 {
        let rest = lines.drop_last();
        assert forall|k: int| 0 <= k < rest.len() implies !same_key(#[trigger] rest[k], id, unit) by {
            assert(rest[k] == lines[k]);
        }
        lemma_total_without_lines(rest, id, unit);
        assert(!same_key(lines[lines.len() - 1], id, unit));
    }
}

/// The position of the first group for the ingredient and unit, if there is
/// one.
pub fn find_group(groups: &Vec<Group>, id: i64, unit: &str) -> (r: Option<usize>)
    ensures
        match r {
            Some(g) => g < groups@.len() && group_for(groups@[g as int], id, unit@)
                && forall|x: int| 0 <= x < g ==> !group_for(#[trigger] groups@[x], id, unit@),
            None => !has_group(groups@, id, unit@),
        },
{
    let mut i: usize = 0;
    while i < groups.len()
        invariant
            i <= groups@.len(),
            forall|x: int| 0 <= x < i ==> !group_for(#[trigger] groups@[x], id, unit@),
        decreases groups@.len() - i,
    {
        if groups[i].ingredient_id == id && str_equal(groups[i].unit.as_str(), unit) {
            return Some(i);
        }
        i += 1;
    }
    None
}

/// A group whose key is not that of the added line keeps its total.
proof fn lemma_group_untouched(g: Group, prefix: Seq<Contribution>, next: Seq<Contribution>)
    requires
        next.len() == prefix.len() + 1,
        next.drop_last() == prefix,
        group_ok(g, prefix),
        !same_key(next.last(), g.ingredient_id, g.unit@),
    ensures
        group_ok(g, next),
{
    let k = choose|k: int|
        0 <= k < prefix.len() && same_key(#[trigger] prefix[k], g.ingredient_id, g.unit@);
    assert(next[k] == prefix[k]);
    assert(same_key(next[k], g.ingredient_id, g.unit@));
}

/// The group of the added line, holding the new total, is in step.
proof fn lemma_group_touched(g: Group, next: Seq<Contribution>)
    requires
        next.len() > 0,
        g.total.wf(),
        same_key(next.last(), g.ingredient_id, g.unit@),
        total_of(next, g.ingredient_id, g.unit@) == Some(g.total),
    ensures
        group_ok(g, next),
{
    assert(same_key(next[next.len() - 1], g.ingredient_id, g.unit@));
}

/// A line that has a group among `before` has one among `after`, if the
/// groups of `after` have the keys of those of `before`.
proof fn lemma_cover_kept(before: Seq<Group>, after: Seq<Group>, id: i64, unit: Seq<char>)
    requires
        has_group(before, id, unit),
        after.len() >= before.len(),
        forall|i: int|
            0 <= i < before.len() ==> (#[trigger] after[i]).ingredient_id == before[i].ingredient_id
                && after[i].unit@ == before[i].unit@,
    ensures
        has_group(after, id, unit),
{
    let i = choose|i: int| 0 <= i < before.len() && group_for(#[trigger] before[i], id, unit);
    assert(group_for(after[i], id, unit));
}

/// Adding a line keeps the groups in step, where the group of the line's
/// ingredient and unit takes the new total.
proof fn lemma_groups_step_update(
    before: Seq<Group>,
    after: Seq<Group>,
    prefix: Seq<Contribution>,
    next: Seq<Contribution>,
    g: int,
)
    requires
        next.len() == prefix.len() + 1,
        next.drop_last() == prefix,
        groups_of(before, prefix),
        0 <= g < before.len(),
        after.len() == before.len(),
        forall|i: int| 0 <= i < before.len() && i != g ==> #[trigger] after[i] == before[i],
        after[g].ingredient_id == before[g].ingredient_id,
        after[g].unit@ == before[g].unit@,
        after[g].total.wf(),
        same_key(next.last(), before[g].ingredient_id, before[g].unit@),
        total_of(next, after[g].ingredient_id, after[g].unit@) == Some(after[g].total),
    ensures
        groups_of(after, next),
{
    assert forall|i: int| 0 <= i < after.len() implies group_ok(#[trigger] after[i], next) by {
        if i == g {
            lemma_group_touched(after[g], next);
        } else {
            assert(after[i] == before[i]);
            assert(group_ok(before[i], prefix));
            if i < g {
                assert(!group_for(before[i], before[g].ingredient_id, before[g].unit@));
            } else {
                assert(!group_for(before[g], before[i].ingredient_id, before[i].unit@));
            }
            lemma_group_untouched(before[i], prefix, next);
        }
    }
    assert forall|i: int, j: int| #![trigger after[i], after[j]] 0 <= i < j < after.len() implies !group_for(
        after[i],
        after[j].ingredient_id,
        after[j].unit@,
    ) by {
        assert(!group_for(before[i], before[j].ingredient_id, before[j].unit@));
    }
    assert forall|k: int| 0 <= k < next.len() implies has_group(
        after,
        (#[trigger] next[k]).ingredient_id,
        next[k].unit@,
    ) by {
        if k == prefix.len() {
            assert(group_for(after[g], next[k].ingredient_id, next[k].unit@));
        } else {
            assert(next[k] == prefix[k]);
            assert(has_group(before, prefix[k].ingredient_id, prefix[k].unit@));
            lemma_cover_kept(before, after, next[k].ingredient_id, next[k].unit@);
        }
    }
}

/// Adding a line keeps the groups in step, where a new group is added for
/// the line's ingredient and unit.
proof fn lemma_groups_step_push(
    before: Seq<Group>,
    after: Seq<Group>,
    prefix: Seq<Contribution>,
    next: Seq<Contribution>,
)
    requires
        next.len() == prefix.len() + 1,
        next.drop_last() == prefix,
        groups_of(before, prefix),
        after.len() == before.len() + 1,
        after.drop_last() == before,
        after.last().total.wf(),
        same_key(next.last(), after.last().ingredient_id, after.last().unit@),
        !has_group(before, next.last().ingredient_id, next.last().unit@),
        total_of(next, after.last().ingredient_id, after.last().unit@) == Some(after.last().total),
    ensures
        groups_of(after, next),
{
    let last = next.last();
    assert forall|i: int| 0 <= i < before.len() implies #[trigger] after[i] == before[i] by {}
    assert forall|i: int| 0 <= i < after.len() implies group_ok(#[trigger] after[i], next) by {
        if i == before.len() {
            lemma_group_touched(after[i], next);
        } else {
            assert(after[i] == before[i]);
            assert(group_ok(before[i], prefix));
            assert(!group_for(before[i], last.ingredient_id, last.unit@));
            lemma_group_untouched(before[i], prefix, next);
        }
    }
    assert forall|i: int, j: int| #![trigger after[i], after[j]] 0 <= i < j < after.len() implies !group_for(
        after[i],
        after[j].ingredient_id,
        after[j].unit@,
    ) by {
        assert(after[i] == before[i]);
        if j < before.len() {
            assert(after[j] == before[j]);
            assert(!group_for(before[i], before[j].ingredient_id, before[j].unit@));
        } else {
            assert(!group_for(before[i], last.ingredient_id, last.unit@));
        }
    }
    assert forall|k: int| 0 <= k < next.len() implies has_group(
        after,
        (#[trigger] next[k]).ingredient_id,
        next[k].unit@,
    ) by {
        if k == prefix.len() {
            assert(group_for(after[before.len() as int], next[k].ingredient_id, next[k].unit@));
        } else {
            assert(next[k] == prefix[k]);
            assert(has_group(before, prefix[k].ingredient_id, prefix[k].unit@));
            lemma_cover_kept(before, after, next[k].ingredient_id, next[k].unit@);
        }
    }
}

/// The total of a line's ingredient and unit before the line, where the
/// groups are in step: that of its group, or zero where it has none.
proof fn lemma_total_before_line(
    groups: Seq<Group>,
    prefix: Seq<Contribution>,
    id: i64,
    unit: Seq<char>,
    found: Option<int>,
)
    requires
        groups_of(groups, prefix),
        match found {
            Some(g) => 0 <= g < groups.len() && group_for(groups[g], id, unit),
            None => !has_group(groups, id, unit),
        },
    ensures
        total_of(prefix, id, unit) == Some(
            match found {
                Some(g) => groups[g].total,
                None => Ratio::spec_zero(),
            },
        ),
{
    match found {
        Some(g) => {
            assert(group_ok(groups[g], prefix));
        },
        None => {
            assert forall|k: int| 0 <= k < prefix.len() implies !same_key(
                #[trigger] prefix[k],
                id,
                unit,
            ) by {
                if same_key(prefix[k], id, unit) {
                    assert(has_group(groups, prefix[k].ingredient_id, prefix[k].unit@));
                }
            }
            lemma_total_without_lines(prefix, id, unit);
        },
    }
}

/// Where the groups are in step with all the lines, every total can be
/// represented.
proof fn lemma_groups_fit(groups: Seq<Group>, lines: Seq<Contribution>)
    requires
        groups_of(groups, lines),
    ensures
        totals_fit(lines),
{
    assert forall|k: int| 0 <= k < lines.len() implies total_of(
        lines,
        (#[trigger] lines[k]).ingredient_id,
        lines[k].unit@,
    ) is Some by {
        assert(has_group(groups, lines[k].ingredient_id, lines[k].unit@));
        let i = choose|i: int|
            0 <= i < groups.len() && group_for(
                #[trigger] groups[i],
                lines[k].ingredient_id,
                lines[k].unit@,
            );
        assert(group_ok(groups[i], lines));
    }
}

/// Adds up the contributions by ingredient and unit, in the order of the
/// lines: one group for each ingredient and unit that occurs. `None` where a
/// total cannot be represented.
pub fn accumulate(lines: &Vec<Contribution>) -> (r: Option<Vec<Group>>)
    requires
        quantities_wf(lines@),
    ensures
        match r {
            Some(groups) => totals_fit(lines@) && groups_of(groups@, lines@),
            None => !totals_fit(lines@),
        },
{
    let mut groups: Vec<Group> = Vec::new();
    let mut n: usize = 0;
    proof {
        assert(lines@.take(0) =~= Seq::<Contribution>::empty());
    }
    while n < lines.len()
        invariant
            n <= lines@.len(),
            quantities_wf(lines@),
            groups_of(groups@, lines@.take(n as int)),
        decreases lines@.len() - n,
    {
        let line: &Contribution = &lines[n];
        let ghost prefix: Seq<Contribution> = lines@.take(n as int);
        let ghost next: Seq<Contribution> = lines@.take(n + 1);
        let ghost before: Seq<Group> = groups@;
        proof {
            assert(next.drop_last() =~= prefix);
            assert(next.last() == *line);
            assert(lines@[n as int] == *line);
        }
        let found: Option<usize> = find_group(&groups, line.ingredient_id, line.unit.as_str());
        let base: Ratio = match found {
            Some(g) => groups[g].total,
            None => Ratio::zero(),
        };
        proof {
            lemma_total_before_line(
                before,
                prefix,
                line.ingredient_id,
                line.unit@,
                match found {
                    Some(g) => Some(g as int),
                    None => None,
                },
            );
            if found is Some {
                assert(group_ok(before[found->0 as int], prefix));
            }
        }
        let sum: Option<Ratio> = match line.quantity {
            Some(q) => base.checked_add(&q),
            None => None,
        };
        assert(total_of(next, line.ingredient_id, line.unit@) == sum);
        match sum {
            None => {
                proof {
                    lemma_total_none_extends(lines@, n + 1, line.ingredient_id, line.unit@);
                }
                return None;
            },
            Some(total) => {
                match found {
                    Some(g) => {
                        let old_group: Group = groups.remove(g);
                        groups.insert(
                            g,
                            Group {
                                ingredient_id: old_group.ingredient_id,
                                unit: old_group.unit,
                                total,
                            },
                        );
                        proof {
                            lemma_groups_step_update(before, groups@, prefix, next, g as int);
                        }
                    },
                    None => {
                        groups.push(
                            Group {
                                ingredient_id: line.ingredient_id,
                                unit: line.unit.clone(),
                                total,
                            },
                        );
                        proof {
                            assert(groups@.drop_last() =~= before);
                            lemma_groups_step_push(before, groups@, prefix, next);
                        }
                    },
                }
            },
        }
        n += 1;
    }
    proof {
        assert(lines@.take(n as int) =~= lines@);
        lemma_groups_fit(groups@, lines@);
    }
    Some(groups)
}

} // verus!
