//! Which blobs are drawn together.
//!
//! Balls shaded in the same pass share one metaball field, so blobs whose boxes touch are
//! gathered into one group and flow together; blobs far apart get a pass of their own.

use crate::physics::{Ball, Bounds};
use crate::single::Single;
use vstd::prelude::*;

verus! {

/// How many balls one pass can shade: the length of the shader's uniform array.
pub const MAX_BLOBS: usize = 16;

/// The smallest box that holds both.
pub open spec fn joined(a: Bounds, b: Bounds) -> Bounds {
    Bounds {
        x0: a.x0.smaller(b.x0),
        y0: a.y0.smaller(b.y0),
        x1: a.x1.larger(b.x1),
        y1: a.y1.larger(b.y1),
    }
}

pub fn union_of(a: Bounds, b: Bounds) -> (r: Bounds)
    ensures
        r == joined(a, b),
{
    Bounds {
        x0: a.x0.min(b.x0),
        y0: a.y0.min(b.y0),
        x1: a.x1.max(b.x1),
        y1: a.y1.max(b.y1),
    }
}

pub fn touches(a: Bounds, b: Bounds) -> (r: bool)
    ensures
        r == a.meets(b),
{
    a.x0.le(b.x1) && b.x0.le(a.x1) && a.y0.le(b.y1) && b.y0.le(a.y1)
}

/// What a list of groups holds: each with its box and its balls.
pub open spec fn group_views(g: Seq<(Bounds, Vec<Ball>)>) -> Seq<(Bounds, Seq<Ball>)> {
    g.map_values(|x: (Bounds, Vec<Ball>)| (x.0, x.1@))
}

/// The box around the first `n` of the boxes of a list that has one.
pub open spec fn joined_all(g: Seq<(Bounds, Seq<Ball>)>, n: int) -> Bounds
    decreases n,
{
    if n <= 1 {
        g[0].0
    } else {
        joined(joined_all(g, n - 1), g[n - 1].0)
    }
}

/// The box around all groups; a point at the origin if there are none.
pub fn union_all(groups: &Vec<(Bounds, Vec<Ball>)>) -> (r: Bounds)
    ensures
        groups@.len() > 0 ==> r == joined_all(group_views(groups@), groups@.len() as int),
        groups@.len() == 0 ==> r == (Bounds {
            x0: Single { bits: 0 },
            y0: Single { bits: 0 },
            x1: Single { bits: 0 },
            y1: Single { bits: 0 },
        }),
{
    if groups.len() == 0 {
        let zero = Single { bits: 0 };
        return Bounds { x0: zero, y0: zero, x1: zero, y1: zero };
    }
    let ghost all = group_views(groups@);
    let mut r = groups[0].0;
    let mut i: usize = 1;
    while i < groups.len()
        invariant
            1 <= i <= groups@.len(),
            all == group_views(groups@),
            r == joined_all(all, i as int),
        decreases groups@.len() - i,
    {
        r = union_of(r, groups[i].0);
        i = i + 1;
    }
    r
}

/// Whether two groups touch and fit in one pass together.
pub open spec fn mergeable(a: (Bounds, Seq<Ball>), b: (Bounds, Seq<Ball>)) -> bool {
    a.0.meets(b.0) && a.1.len() + b.1.len() <= MAX_BLOBS
}

/// The first group from `j` on that group `i` can be merged with.
pub open spec fn partner(g: Seq<(Bounds, Seq<Ball>)>, i: int, j: int) -> Option<int>
    decreases g.len() - j,
{
    if j < 0 || j >= g.len() {
        None
    } else if mergeable(g[i], g[j]) {
        Some(j)
    } else {
        partner(g, i, j + 1)
    }
}

/// The first pair of groups, from group `i` on, that can be merged.
pub open spec fn first_pair(g: Seq<(Bounds, Seq<Ball>)>, i: int) -> Option<(int, int)>
    decreases g.len() - i,
{
    if i < 0 || i >= g.len() {
        None
    } else if let Some(j) = partner(g, i, i + 1) {
        Some((i, j))
    } else {
        first_pair(g, i + 1)
    }
}

/// The groups after `j` has been merged into `i`.
pub open spec fn merged_at(g: Seq<(Bounds, Seq<Ball>)>, i: int, j: int) -> Seq<
    (Bounds, Seq<Ball>),
> {
    g.remove(j).update(i, (joined(g[i].0, g[j].0), g[i].1 + g[j].1))
}

/// The groups after the first pair that can be merged has been, again and again until
/// there is none.
pub open spec fn merged(g: Seq<(Bounds, Seq<Ball>)>) -> Seq<(Bounds, Seq<Ball>)>
    decreases g.len(),
{
    match first_pair(g, 0) {
        Some((i, j)) => if 0 <= i < j < g.len() {
            merged(merged_at(g, i, j))
        } else {
            g
        },
        None => g,
    }
}

proof fn lemma_partner(g: Seq<(Bounds, Seq<Ball>)>, i: int, j: int)
    requires
        0 <= j,
    ensures
        partner(g, i, j) matches Some(k) ==> j <= k < g.len() && mergeable(g[i], g[k]),
        partner(g, i, j) is None ==> forall|k: int|
            j <= k < g.len() ==> !mergeable(g[i], #[trigger] g[k]),
    decreases g.len() - j,
{
    if j < g.len() && !mergeable(g[i], g[j]) {
        lemma_partner(g, i, j + 1);
    }
}

proof fn lemma_first_pair(g: Seq<(Bounds, Seq<Ball>)>, i: int)
    requires
        0 <= i,
    ensures
        first_pair(g, i) matches Some((a, b)) ==> i <= a < b < g.len() && mergeable(g[a], g[b]),
        first_pair(g, i) is None ==> forall|a: int, b: int|
            i <= a < b < g.len() ==> !mergeable(#[trigger] g[a], #[trigger] g[b]),
    decreases g.len() - i,
{
    if i < g.len() {
        lemma_partner(g, i, i + 1);
        lemma_first_pair(g, i + 1);
    }
}

fn find_pair(groups: &Vec<(Bounds, Vec<Ball>)>) -> (r: Option<(usize, usize)>)
    ensures
        match r {
            Some((i, j)) => first_pair(group_views(groups@), 0) == Some((i as int, j as int)) && i
                < j < groups@.len(),
            None => first_pair(group_views(groups@), 0) is None,
        },
{
    let ghost g = group_views(groups@);
    let mut i: usize = 0;
    while i < groups.len()
        invariant
            i <= groups@.len(),
            g == group_views(groups@),
            first_pair(g, 0) == first_pair(g, i as int),
        decreases groups@.len() - i,
    {
        let mut j: usize = i + 1;
        while j < groups.len()
            invariant
                i < j <= groups@.len(),
                g == group_views(groups@),
                first_pair(g, 0) == first_pair(g, i as int),
                partner(g, i as int, i + 1) == partner(g, i as int, j as int),
            decreases groups@.len() - j,
        {
            assert(g[i as int] == (groups@[i as int].0, groups@[i as int].1@));
            assert(g[j as int] == (groups@[j as int].0, groups@[j as int].1@));
            if touches(groups[i].0, groups[j].0) && groups[i].1.len() <= MAX_BLOBS
                && groups[j].1.len() <= MAX_BLOBS - groups[i].1.len() {
                return Some((i, j));
            }
            j = j + 1;
        }
        i = i + 1;
    }
    None
}

/// Fold groups whose bounding boxes touch into one, repeatedly, until none do that would
/// fit in one pass.
///
/// Quadratic and restarted on every merge, which is fine for the handful of blobs a screen
/// holds.
pub fn merge_touching(groups: &mut Vec<(Bounds, Vec<Ball>)>)
    ensures
        group_views(final(groups)@) == merged(group_views(old(groups)@)),
{
    let ghost start = group_views(groups@);
    let mut again = true;
    while again
        invariant
            merged(group_views(groups@)) == merged(start),
            !again ==> first_pair(group_views(groups@), 0) is None,
        decreases groups@.len(), (if again { 1int } else { 0 }),
    {
        let ghost g = group_views(groups@);
        match find_pair(groups) {
            None => {
                again = false;
            },
            Some((i, j)) => {
                proof {
                    lemma_first_pair(g, 0);
                    assert(g[i as int] == (groups@[i as int].0, groups@[i as int].1@));
                    assert(g[j as int] == (groups@[j as int].0, groups@[j as int].1@));
                }
                let (bb, mut balls) = groups.remove(j);
                let (own, mut mine) = groups.remove(i);
                let whole = union_of(own, bb);
                mine.append(&mut balls);
                groups.insert(i, (whole, mine));
                assert(group_views(groups@) =~= merged_at(g, i as int, j as int));
            },
        }
    }
}

// ---------------------------------------------------------------------------
// What merging does
// ---------------------------------------------------------------------------

/// All the balls of all the groups, in order.
pub open spec fn all_balls(g: Seq<(Bounds, Seq<Ball>)>) -> Seq<Ball>
    decreases g.len(),
{
    if g.len() == 0 {
        Seq::empty()
    } else {
        all_balls(g.drop_last()) + g.last().1
    }
}

proof fn lemma_all_balls_split(g: Seq<(Bounds, Seq<Ball>)>, i: int)
    requires
        0 <= i < g.len(),
    ensures
        all_balls(g).to_multiset() == all_balls(g.remove(i)).to_multiset().add(g[i].1.to_multiset()),
    decreases g.len(),
{
    let last = g.last().1;
    if i == g.len() - 1 {
        assert(g.remove(i) =~= g.drop_last());
        vstd::seq_lib::lemma_multiset_commutative(all_balls(g.drop_last()), last);
    } else {
        let head = g.drop_last();
        lemma_all_balls_split(head, i);
        let rest = g.remove(i);
        assert(rest.drop_last() =~= head.remove(i));
        assert(rest.last() == g.last());
        vstd::seq_lib::lemma_multiset_commutative(all_balls(head), last);
        vstd::seq_lib::lemma_multiset_commutative(all_balls(head.remove(i)), last);
        assert(all_balls(g).to_multiset() =~= all_balls(rest).to_multiset().add(
            g[i].1.to_multiset(),
        ));
    }
}

proof fn lemma_merge_keeps_balls(g: Seq<(Bounds, Seq<Ball>)>, i: int, j: int)
    requires
        0 <= i < j < g.len(),
    ensures
        all_balls(merged_at(g, i, j)).to_multiset() == all_balls(g).to_multiset(),
{
    let m = merged_at(g, i, j);
    lemma_all_balls_split(g, j);
    lemma_all_balls_split(g.remove(j), i);
    lemma_all_balls_split(m, i);
    assert(m.remove(i) =~= g.remove(j).remove(i));
    vstd::seq_lib::lemma_multiset_commutative(g[i].1, g[j].1);
    assert(all_balls(m).to_multiset() =~= all_balls(g).to_multiset());
}

/// Merging neither loses nor invents a ball; no group outgrows a pass by it; and when it
/// is done no two groups are left that touch and would fit in one pass together.
pub proof fn law_merging_gathers_what_touches(g: Seq<(Bounds, Seq<Ball>)>)
    requires
        forall|k: int| 0 <= k < g.len() ==> (#[trigger] g[k]).1.len() <= MAX_BLOBS,
    ensures
        all_balls(merged(g)).to_multiset() == all_balls(g).to_multiset(),
        merged(g).len() <= g.len(),
        forall|k: int| 0 <= k < merged(g).len() ==> (#[trigger] merged(g)[k]).1.len() <= MAX_BLOBS,
        forall|a: int, b: int|
            0 <= a < b < merged(g).len() ==> !mergeable(
                #[trigger] merged(g)[a],
                #[trigger] merged(g)[b],
            ),
    decreases g.len(),
{
    lemma_first_pair(g, 0);
    match first_pair(g, 0) {
        Some((i, j)) => {
            let m = merged_at(g, i, j);
            lemma_merge_keeps_balls(g, i, j);
            assert forall|k: int| 0 <= k < m.len() implies (#[trigger] m[k]).1.len()
                <= MAX_BLOBS by {
                if k != i {
                    assert(m[k] == g.remove(j)[k]);
                    assert(m[k] == if k < j {
                        g[k]
                    } else {
                        g[k + 1]
                    });
                }
            }
            law_merging_gathers_what_touches(m);
        },
        None => {},
    }
}

/// No side of the box is missing a number.
pub open spec fn sound(b: Bounds) -> bool {
    !b.x0.nan() && !b.y0.nan() && !b.x1.nan() && !b.y1.nan()
}

/// The box `a` lies within `b`.
pub open spec fn enclosed(a: Bounds, b: Bounds) -> bool {
    &&& b.x0.units() <= a.x0.units() && a.x1.units() <= b.x1.units()
    &&& b.y0.units() <= a.y0.units() && a.y1.units() <= b.y1.units()
}

/// The box around two boxes holds both, and lies within every box that does.
pub proof fn law_a_joined_box_is_the_smallest(a: Bounds, b: Bounds, other: Bounds)
    requires
        sound(a),
        sound(b),
    ensures
        sound(joined(a, b)),
        enclosed(a, joined(a, b)),
        enclosed(b, joined(a, b)),
        enclosed(a, other) && enclosed(b, other) ==> enclosed(joined(a, b), other),
{
}

/// The box around the first `n` groups holds the box of each, and lies within every box
/// that does.
pub proof fn law_the_box_around_all_is_the_smallest(
    g: Seq<(Bounds, Seq<Ball>)>,
    n: int,
    k: int,
    other: Bounds,
)
    requires
        1 <= n <= g.len(),
        0 <= k < n,
        forall|i: int| 0 <= i < g.len() ==> sound((#[trigger] g[i]).0),
    ensures
        sound(joined_all(g, n)),
        enclosed(g[k].0, joined_all(g, n)),
        (forall|i: int| 0 <= i < n ==> enclosed((#[trigger] g[i]).0, other)) ==> enclosed(
            joined_all(g, n),
            other,
        ),
    decreases n,
{
    if n > 1 {
        let m = if k < n - 1 { k } else { 0 };
        law_the_box_around_all_is_the_smallest(g, n - 1, m, other);
        law_a_joined_box_is_the_smallest(joined_all(g, n - 1), g[n - 1].0, other);
    }
}

/// Groups that do not touch are drawn as they are.
pub proof fn law_what_is_apart_stays_apart(g: Seq<(Bounds, Seq<Ball>)>)
    requires
        forall|a: int, b: int|
            0 <= a < b < g.len() ==> !(#[trigger] g[a]).0.meets((#[trigger] g[b]).0),
    ensures
        merged(g) == g,
{
    lemma_first_pair(g, 0);
}

/// When merging is done, two groups that still touch hold more than sixteen balls between
/// them; and if two groups touch that hold no more than that, there are fewer groups after
/// it than before.
pub proof fn law_what_touches_is_merged(g: Seq<(Bounds, Seq<Ball>)>, a: int, b: int)
    requires
        forall|k: int| 0 <= k < g.len() ==> (#[trigger] g[k]).1.len() <= 16,
        0 <= a < b,
    ensures
        b < merged(g).len() && merged(g)[a].0.meets(merged(g)[b].0) ==> merged(g)[a].1.len()
            + merged(g)[b].1.len() > 16,
        b < g.len() && g[a].0.meets(g[b].0) && g[a].1.len() + g[b].1.len() <= 16
            ==> merged(g).len() < g.len(),
{
    law_merging_gathers_what_touches(g);
    lemma_first_pair(g, 0);
    match first_pair(g, 0) {
        Some((i, j)) => {
            let m = merged_at(g, i, j);
            assert forall|k: int| 0 <= k < m.len() implies (#[trigger] m[k]).1.len()
                <= MAX_BLOBS by {
                if k != i {
                    assert(m[k] == if k < j {
                        g[k]
                    } else {
                        g[k + 1]
                    });
                }
            }
            law_merging_gathers_what_touches(m);
        },
        None => {},
    }
}

/// A group is part of another: its box lies within the other's and its balls are among the
/// other's.
pub open spec fn part_of(a: (Bounds, Seq<Ball>), b: (Bounds, Seq<Ball>)) -> bool {
    &&& enclosed(a.0, b.0)
    &&& forall|i: int| 0 <= i < a.1.len() ==> b.1.contains(#[trigger] a.1[i])
}

/// Every group ends up, box and balls, in one of the merged ones.
pub proof fn law_every_group_goes_somewhere(g: Seq<(Bounds, Seq<Ball>)>, k: int)
    requires
        0 <= k < g.len(),
        forall|i: int| 0 <= i < g.len() ==> sound((#[trigger] g[i]).0),
    ensures
        exists|m: int| 0 <= m < merged(g).len() && part_of(g[k], #[trigger] merged(g)[m]),
    decreases g.len(),
{
    lemma_first_pair(g, 0);
    match first_pair(g, 0) {
        Some((i, j)) => {
            let next = merged_at(g, i, j);
            assert(next.len() == g.len() - 1);
            law_a_joined_box_is_the_smallest(g[i].0, g[j].0, g[i].0);
            assert forall|x: int| 0 <= x < next.len() implies sound((#[trigger] next[x]).0) by {
                if x != i {
                    assert(next[x] == if x < j {
                        g[x]
                    } else {
                        g[x + 1]
                    });
                }
            }
            let here: int = if k == j || k == i {
                i
            } else if k < j {
                k
            } else {
                k - 1
            };
            let whole = g[i].1 + g[j].1;
            assert(next[i] == (joined(g[i].0, g[j].0), whole));
            assert(part_of(g[k], next[here])) by {
                if here != i || (k != i && k != j) {
                    assert(next[here] == g[k]);
                }
                assert forall|x: int| 0 <= x < g[k].1.len() implies next[here].1.contains(
                    #[trigger] g[k].1[x],
                ) by {
                    if k == i {
                        assert(whole[x] == g[k].1[x]);
                    } else if k == j {
                        assert(whole[g[i].1.len() + x] == g[k].1[x]);
                    }
                }
            }
            law_every_group_goes_somewhere(next, here);
            let m = choose|m: int|
                0 <= m < merged(next).len() && part_of(next[here], #[trigger] merged(next)[m]);
            let last = merged(next)[m];
            assert(part_of(g[k], last)) by {
                assert forall|x: int| 0 <= x < g[k].1.len() implies last.1.contains(
                    #[trigger] g[k].1[x],
                ) by {
                    assert(next[here].1.contains(g[k].1[x]));
                    let y = choose|y: int|
                        0 <= y < next[here].1.len() && next[here].1[y] == g[k].1[x];
                    assert(last.1.contains(next[here].1[y]));
                }
            }
            assert(merged(g) == merged(next));
        },
        None => {
            assert(part_of(g[k], merged(g)[k])) by {
                assert forall|x: int| 0 <= x < g[k].1.len() implies g[k].1.contains(
                    #[trigger] g[k].1[x],
                ) by {}
            }
        },
    }
}

} // verus!
