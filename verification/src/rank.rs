//! Ranking: stable insertion sort of opportunities by ROI, descending.
//!
//! [`insert_desc`] and [`sort_desc`] define the ranking order as a
//! mathematical function of the candidate sequence: sorted by ROI
//! descending, ties kept in discovery order.  The executable side keeps the
//! result list sorted by inserting each candidate at its ranked position.

use vstd::prelude::*;

use crate::model::{OppView, TradeOpportunity, opp_views};

verus! {

/// Stable descending insertion by ROI: `x` goes after every element whose
/// ROI is at least `x.roi` and before the first strictly smaller one.
pub open spec fn insert_desc(s: Seq<OppView>, x: OppView) -> Seq<OppView>
    decreases s.len(),
{
    if s.len() == 0 {
        seq![x]
    } else if s[0].roi >= x.roi {
        seq![s[0]] + insert_desc(s.drop_first(), x)
    } else {
        seq![x] + s
    }
}

/// Stable insertion sort by ROI, descending: the ranking order of a
/// candidate sequence, ties kept in the order the candidates were found.
pub open spec fn sort_desc(s: Seq<OppView>) -> Seq<OppView>
    decreases s.len(),
{
    if s.len() == 0 {
        Seq::empty()
    } else {
        insert_desc(sort_desc(s.drop_last()), s.last())
    }
}

/// Sorted by ROI, descending (every pair, not just adjacent ones).
pub open spec fn sorted_desc(s: Seq<OppView>) -> bool {
    forall|i: int, j: int| 0 <= i <= j < s.len() ==> #[trigger] s[i].roi >= #[trigger] s[j].roi
}

/// Inserting adds one element.
pub proof fn lemma_insert_desc_len(s: Seq<OppView>, x: OppView)
    ensures
        insert_desc(s, x).len() == s.len() + 1,
    decreases s.len(),
{
    if s.len() == 0 {
    } else if s[0].roi >= x.roi {
        lemma_insert_desc_len(s.drop_first(), x);
    }
}

/// The elements of `insert_desc(s, x)` are `x` and the elements of `s`.
pub proof fn lemma_insert_desc_contains(s: Seq<OppView>, x: OppView, y: OppView)
    ensures
        insert_desc(s, x).contains(y) <==> (y == x || s.contains(y)),
    decreases s.len(),
{
    if s.len() == 0 {
        assert(insert_desc(s, x) == seq![x]);
        assert(seq![x][0] == x);
        if y == x {
            assert(insert_desc(s, x).contains(y));
        }
    } else if s[0].roi >= x.roi {
        lemma_insert_desc_contains(s.drop_first(), x, y);
        let r = seq![s[0]] + insert_desc(s.drop_first(), x);
        assert(insert_desc(s, x) == r);
        if y == x || s.contains(y) {
            if y == s[0] {
                assert(r[0] == y);
                assert(r.contains(y));
            } else {
                if s.contains(y) {
                    let i = choose|i: int| 0 <= i < s.len() && s[i] == y;
                    assert(s.drop_first()[i - 1] == y);
                    assert(s.drop_first().contains(y));
                }
                assert(insert_desc(s.drop_first(), x).contains(y));
                let i = choose|i: int|
                    0 <= i < insert_desc(s.drop_first(), x).len() && insert_desc(
                        s.drop_first(),
                        x,
                    )[i] == y;
                assert(r[i + 1] == y);
                assert(r.contains(y));
            }
        }
        if r.contains(y) {
            let i = choose|i: int| 0 <= i < r.len() && r[i] == y;
            if i == 0 {
                assert(s[0] == y);
                assert(s.contains(y));
            } else {
                assert(insert_desc(s.drop_first(), x)[i - 1] == y);
                assert(insert_desc(s.drop_first(), x).contains(y));
                if s.drop_first().contains(y) {
                    let k = choose|k: int|
                        0 <= k < s.drop_first().len() && s.drop_first()[k] == y;
                    assert(s[k + 1] == y);
                    assert(s.contains(y));
                }
            }
        }
    } else {
        let r = seq![x] + s;
        assert(insert_desc(s, x) == r);
        assert(r[0] == x);
        if s.contains(y) {
            let i = choose|i: int| 0 <= i < s.len() && s[i] == y;
            assert(r[i + 1] == y);
        }
        if r.contains(y) {
            let i = choose|i: int| 0 <= i < r.len() && r[i] == y;
            if i > 0 {
                assert(s[i - 1] == y);
            }
        }
    }
}

/// Stable insertion keeps the sequence sorted.
pub proof fn lemma_insert_desc_sorted(s: Seq<OppView>, x: OppView)
    requires
        sorted_desc(s),
    ensures
        sorted_desc(insert_desc(s, x)),
    decreases s.len(),
{
    if s.len() == 0 {
    } else if s[0].roi >= x.roi {
        let tail = s.drop_first();
        assert forall|i: int, j: int| 0 <= i <= j < tail.len() implies #[trigger] tail[i].roi
            >= #[trigger] tail[j].roi by {
            assert(s[i + 1].roi >= s[j + 1].roi);
        }
        lemma_insert_desc_sorted(tail, x);
        lemma_insert_desc_len(tail, x);
        let ri = insert_desc(tail, x);
        let r = seq![s[0]] + ri;
        // every element of the inserted tail is bounded by the head
        assert forall|j: int| 0 <= j < ri.len() implies s[0].roi >= #[trigger] ri[j].roi by {
            assert(ri.contains(ri[j]));
            lemma_insert_desc_contains(tail, x, ri[j]);
            if ri[j] == x {
            } else {
                let k = choose|k: int| 0 <= k < tail.len() && tail[k] == ri[j];
                assert(s[0].roi >= s[k + 1].roi);
            }
        }
        assert forall|i: int, j: int| 0 <= i <= j < r.len() implies #[trigger] r[i].roi
            >= #[trigger] r[j].roi by {
            if i == 0 && j > 0 {
                assert(r[j] == ri[j - 1]);
            } else if i > 0 {
                assert(r[i] == ri[i - 1] && r[j] == ri[j - 1]);
            }
        }
    } else {
        let r = seq![x] + s;
        assert forall|i: int, j: int| 0 <= i <= j < r.len() implies #[trigger] r[i].roi
            >= #[trigger] r[j].roi by {
            if i == 0 && j > 0 {
                assert(r[j] == s[j - 1]);
                assert(s[0].roi >= s[j - 1].roi);
            } else if i > 0 {
                assert(r[i] == s[i - 1] && r[j] == s[j - 1]);
            }
        }
    }
}

/// The sort's output is sorted.
pub proof fn lemma_sort_desc_sorted(s: Seq<OppView>)
    ensures
        sorted_desc(sort_desc(s)),
    decreases s.len(),
{
    if s.len() > 0 {
        lemma_sort_desc_sorted(s.drop_last());
        lemma_insert_desc_sorted(sort_desc(s.drop_last()), s.last());
    }
}

/// Sorting neither adds nor removes elements.
pub proof fn lemma_sort_desc_contains(s: Seq<OppView>, y: OppView)
    ensures
        sort_desc(s).contains(y) <==> s.contains(y),
    decreases s.len(),
{
    if s.len() > 0 {
        lemma_sort_desc_contains(s.drop_last(), y);
        lemma_insert_desc_contains(sort_desc(s.drop_last()), s.last(), y);
        if s.contains(y) {
            let i = choose|i: int| 0 <= i < s.len() && s[i] == y;
            if i < s.len() - 1 {
                assert(s.drop_last()[i] == y);
                assert(s.drop_last().contains(y));
            }
        }
        if s.drop_last().contains(y) {
            let i = choose|i: int| 0 <= i < s.drop_last().len() && s.drop_last()[i] == y;
            assert(s[i] == y);
        }
        assert(s[s.len() - 1] == s.last());
    }
}

/// Inserting at the ranked position is exactly the stable insertion.
pub proof fn lemma_insert_desc_at(s: Seq<OppView>, x: OppView, pos: int)
    requires
        0 <= pos <= s.len(),
        forall|j: int| 0 <= j < pos ==> #[trigger] s[j].roi >= x.roi,
        pos < s.len() ==> s[pos].roi < x.roi,
    ensures
        insert_desc(s, x) == s.insert(pos, x),
    decreases s.len(),
{
    if pos == 0 {
        if s.len() == 0 {
            assert(insert_desc(s, x) =~= s.insert(0, x));
        } else {
            assert(s[0].roi < x.roi);
            assert(insert_desc(s, x) =~= s.insert(0, x));
        }
    } else {
        assert(s[0].roi >= x.roi);
        let tail = s.drop_first();
        assert(forall|j: int| 0 <= j < pos - 1 ==> #[trigger] tail[j].roi >= x.roi) by {
            assert(forall|j: int| 0 <= j < pos - 1 ==> tail[j] == s[j + 1]);
        }
        lemma_insert_desc_at(tail, x, pos - 1);
        assert(insert_desc(s, x) == seq![s[0]] + tail.insert(pos - 1, x));
        assert(seq![s[0]] + tail.insert(pos - 1, x) =~= s.insert(pos, x));
    }
}

/// The first position whose entry ranks strictly below `roi`, or the length
/// if every entry ranks at least as high.
fn find_insert_pos(list: &Vec<TradeOpportunity>, roi: i128) -> (pos: usize)
    ensures
        pos <= list.len(),
        forall|j: int| 0 <= j < pos ==> #[trigger] list@[j].roi >= roi,
        pos < list@.len() ==> list@[pos as int].roi < roi,
{
    let mut pos: usize = 0;
    while pos < list.len()
        invariant
            pos <= list.len(),
            forall|j: int| 0 <= j < pos ==> #[trigger] list@[j].roi >= roi,
        decreases list.len() - pos,
    {
        if list[pos].roi < roi {
            return pos;
        }
        pos += 1;
    }
    pos
}

/// Insert one opportunity into an already ranked list, keeping it ranked:
/// the list becomes the stable descending insertion of the new element.
pub fn insert_ranked(list: &mut Vec<TradeOpportunity>, opp: TradeOpportunity)
    ensures
        opp_views(final(list)@) == insert_desc(opp_views(old(list)@), opp@),
{
    let ghost before = opp_views(list@);
    let pos = find_insert_pos(list, opp.roi);
    list.insert(pos, opp);
    proof {
        lemma_insert_desc_at(before, opp@, pos as int);
        assert(opp_views(list@) =~= before.insert(pos as int, opp@));
    }
}

} // verus!
