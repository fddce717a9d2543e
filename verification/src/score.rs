//! Scores: who owns how many boxes, in the order in which the players first
//! appear when the boxes are read row by row, and who leads.

use crate::grid::Grid;
use vstd::prelude::*;

verus! {

/// One line of the score table: a player's rank and the number of boxes that
/// the player owns.
#[derive(Clone, Copy, Debug, PartialEq, Eq, Structural)]
pub struct Score {
    pub player: u8,
    pub boxes: u64,
}

/// How often `p` occurs in `s`.
pub open spec fn occurrences(s: Seq<u8>, p: u8) -> nat
    decreases s.len(),
{
    if s.len() == 0 {
        0
    } else {
        occurrences(s.drop_last(), p) + if s.last() == p {
            1nat
        } else {
            0nat
        }
    }
}

/// The number of entries of `s` that are not zero.
pub open spec fn filled(s: Seq<u8>) -> nat
    decreases s.len(),
{
    if s.len() == 0 {
        0
    } else {
        filled(s.drop_last()) + if s.last() != 0 {
            1nat
        } else {
            0nat
        }
    }
}

/// The ranks that occur in `s`, zero left out, each once, in the order of
/// their first occurrence.
pub open spec fn first_seen(s: Seq<u8>) -> Seq<u8>
    decreases s.len(),
{
    if s.len() == 0 {
        Seq::empty()
    } else {
        let before = first_seen(s.drop_last());
        if s.last() == 0 || before.contains(s.last()) {
            before
        } else {
            before.push(s.last())
        }
    }
}

/// The score table of the owners `s`: one line for each rank that occurs, in
/// the order of first occurrence, with the number of its occurrences.
pub open spec fn tally(s: Seq<u8>) -> Seq<Score> {
    Seq::new(
        first_seen(s).len(),
        |i: int| Score { player: first_seen(s)[i], boxes: occurrences(s, first_seen(s)[i]) as u64 },
    )
}

/// The sum of the boxes of all lines of `t`.
pub open spec fn total(t: Seq<Score>) -> nat
    decreases t.len(),
{
    if t.len() == 0 {
        0
    } else {
        total(t.drop_last()) + t.last().boxes as nat
    }
}

/// The highest number of boxes in a line of `t`, zero for an empty table.
pub open spec fn highest(t: Seq<Score>) -> u64
    decreases t.len(),
{
    if t.len() == 0 {
        0
    } else if t.last().boxes > highest(t.drop_last()) {
        t.last().boxes
    } else {
        highest(t.drop_last())
    }
}

/// The players of the lines of `t` that have exactly `boxes` boxes, in the
/// order of the table.
pub open spec fn players_with(t: Seq<Score>, boxes: u64) -> Seq<u8>
    decreases t.len(),
{
    if t.len() == 0 {
        Seq::empty()
    } else if t.last().boxes == boxes {
        players_with(t.drop_last(), boxes).push(t.last().player)
    } else {
        players_with(t.drop_last(), boxes)
    }
}

/// The players who lead the table `t`: those with the highest number of
/// boxes, in the order of the table.
pub open spec fn leaders(t: Seq<Score>) -> Seq<u8> {
    players_with(t, highest(t))
}

/// A rank occurs as often as it is there: never more often than the sequence
/// is long, and at least once exactly if the sequence contains it.
pub proof fn lemma_occurrences(s: Seq<u8>, p: u8)
    ensures
        occurrences(s, p) <= s.len(),
        occurrences(s, p) > 0 <==> s.contains(p),
    decreases s.len(),
{
    if s.len() > 0 {
        let d = s.drop_last();
        lemma_occurrences(d, p);
        if d.contains(p) {
            let i = choose|i: int| 0 <= i < d.len() && d[i] == p;
            assert(s[i] == p);
        }
        if s.last() == p {
            assert(s[s.len() - 1] == p);
        }
        if s.contains(p) {
            let i = choose|i: int| 0 <= i < s.len() && s[i] == p;
            if i < d.len() {
                assert(d[i] == p);
            }
        }
    }
}

/// The order of first occurrence holds every rank but zero that occurs, and
/// holds none twice.
pub proof fn lemma_first_seen(s: Seq<u8>)
    ensures
        first_seen(s).no_duplicates(),
        forall|p: u8| #[trigger] first_seen(s).contains(p) <==> p != 0 && s.contains(p),
    decreases s.len(),
{
    if s.len() > 0 {
        let d = s.drop_last();
        let x = s.last();
        lemma_first_seen(d);
        let before = first_seen(d);
        let after = first_seen(s);
        assert forall|p: u8| #[trigger] after.contains(p) <==> p != 0 && s.contains(p) by {
            lemma_occurrences(s, p);
            lemma_occurrences(d, p);
            if before.contains(p) {
                let i = choose|i: int| 0 <= i < before.len() && before[i] == p;
                assert(after[i] == p);
            }
            if after.contains(p) {
                let i = choose|i: int| 0 <= i < after.len() && after[i] == p;
                if i < before.len() {
                    assert(before[i] == p);
                }
            }
            if p == x && p != 0 && !before.contains(p) {
                assert(after[after.len() - 1] == p);
            }
        }
    }
}

/// What one more owner does to the score table: an empty box changes
/// nothing, a rank that has a line gets one box more in that line, and a new
/// rank gets a new last line with one box.
pub proof fn lemma_tally_push(s: Seq<u8>, x: u8)
    requires
        s.len() < u64::MAX,
    ensures
        x == 0 ==> tally(s.push(x)) == tally(s),
        x != 0 && !first_seen(s).contains(x) ==> tally(s.push(x)) == tally(s).push(
            Score { player: x, boxes: 1 },
        ),
        forall|k: int|
            0 <= k < first_seen(s).len() && #[trigger] first_seen(s)[k] == x ==> tally(s.push(x))
                == tally(s).update(k, Score { player: x, boxes: (tally(s)[k].boxes + 1) as u64 }),
{
    let s2 = s.push(x);
    assert(s2.drop_last() == s);
    lemma_first_seen(s);
    assert forall|p: u8| occurrences(s2, p) == occurrences(s, p) + if x == p {
        1nat
    } else {
        0nat
    } by {}
    lemma_occurrences(s, x);
    if x == 0 {
        assert forall|i: int| 0 <= i < first_seen(s).len() implies first_seen(s)[i] != 0 by {
            assert(first_seen(s).contains(first_seen(s)[i]));
        }
        assert(tally(s2) =~= tally(s));
    } else if !first_seen(s).contains(x) {
        assert(!s.contains(x));
        assert(tally(s2) =~= tally(s).push(Score { player: x, boxes: 1 }));
    } else {
        assert forall|k: int| 0 <= k < first_seen(s).len() && #[trigger] first_seen(s)[k]
            == x implies tally(s2) == tally(s).update(
            k,
            Score { player: x, boxes: (tally(s)[k].boxes + 1) as u64 },
        ) by {
            assert(tally(s2) =~= tally(s).update(
                k,
                Score { player: x, boxes: (tally(s)[k].boxes + 1) as u64 },
            ));
        }
    }
}

/// One more line adds its boxes to the total.
proof fn lemma_total_push(t: Seq<Score>, e: Score)
    ensures
        total(t.push(e)) == total(t) + e.boxes,
{
    assert(t.push(e).drop_last() == t);
}

/// A changed line changes the total by as much as the line changed.
proof fn lemma_total_update(t: Seq<Score>, k: int, e: Score)
    requires
        0 <= k < t.len(),
    ensures
        total(t.update(k, e)) == total(t) - t[k].boxes + e.boxes,
    decreases t.len(),
{
    let u = t.update(k, e);
    if k == t.len() - 1 {
        assert(u.drop_last() == t.drop_last());
    } else {
        assert(u.drop_last() == t.drop_last().update(k, e));
        lemma_total_update(t.drop_last(), k, e);
    }
}

/// The boxes of the score table add up to the number of boxes that have an
/// owner.
pub proof fn lemma_total_counts_filled(s: Seq<u8>)
    requires
        s.len() < u64::MAX,
    ensures
        total(tally(s)) == filled(s),
    decreases s.len(),
{
    if s.len() > 0 {
        let d = s.drop_last();
        let x = s.last();
        assert(d.push(x) == s);
        lemma_total_counts_filled(d);
        lemma_tally_push(d, x);
        lemma_first_seen(d);
        if x != 0 && first_seen(d).contains(x) {
            let k = choose|k: int| 0 <= k < first_seen(d).len() && first_seen(d)[k] == x;
            lemma_occurrences(d, x);
            lemma_total_update(
                tally(d),
                k,
                Score { player: x, boxes: (tally(d)[k].boxes + 1) as u64 },
            );
        } else if x != 0 {
            lemma_total_push(tally(d), Score { player: x, boxes: 1 });
        }
    }
}

/// All boxes have an owner exactly if as many have one as there are boxes.
pub proof fn lemma_filled_all(s: Seq<u8>)
    ensures
        filled(s) <= s.len(),
        filled(s) == s.len() <==> forall|i: int| 0 <= i < s.len() ==> s[i] != 0,
    decreases s.len(),
{
    if s.len() > 0 {
        let d = s.drop_last();
        lemma_filled_all(d);
        if forall|i: int| 0 <= i < s.len() ==> s[i] != 0 {
            assert forall|i: int| 0 <= i < d.len() implies d[i] != 0 by {
                assert(s[i] != 0);
            }
        }
        if filled(s) == s.len() {
            assert forall|i: int| 0 <= i < s.len() implies s[i] != 0 by {
                if i < d.len() {
                    assert(d[i] != 0);
                }
            }
        }
    }
}

/// The highest number of boxes is in the table, unless the table is empty,
/// and no line has more.
pub proof fn lemma_highest(t: Seq<Score>)
    ensures
        forall|i: int| 0 <= i < t.len() ==> (#[trigger] t[i]).boxes <= highest(t),
        t.len() > 0 ==> exists|i: int| 0 <= i < t.len() && (#[trigger] t[i]).boxes == highest(t),
    decreases t.len(),
{
    if t.len() > 0 {
        let d = t.drop_last();
        lemma_highest(d);
        assert forall|i: int| 0 <= i < t.len() implies (#[trigger] t[i]).boxes <= highest(t) by {
            if i < d.len() {
                assert(d[i].boxes <= highest(d));
            }
        }
        if t.last().boxes > highest(d) || d.len() == 0 {
            assert(t[t.len() - 1].boxes == highest(t));
        } else {
            let i = choose|i: int| 0 <= i < d.len() && (#[trigger] d[i]).boxes == highest(d);
            assert(t[i].boxes == highest(t));
        }
    }
}

/// The players with a given number of boxes are those of the lines with that
/// number.
pub proof fn lemma_players_with(t: Seq<Score>, boxes: u64, p: u8)
    ensures
        players_with(t, boxes).contains(p) <==> exists|i: int|
            0 <= i < t.len() && (#[trigger] t[i]).player == p && t[i].boxes == boxes,
    decreases t.len(),
{
    if t.len() > 0 {
        let d = t.drop_last();
        lemma_players_with(d, boxes, p);
        let chosen = players_with(t, boxes);
        let before = players_with(d, boxes);
        if chosen.contains(p) {
            let k = choose|k: int| 0 <= k < chosen.len() && chosen[k] == p;
            if k < before.len() {
                let i = choose|i: int|
                    0 <= i < d.len() && (#[trigger] d[i]).player == p && d[i].boxes == boxes;
            }
        }
        if exists|i: int| 0 <= i < t.len() && (#[trigger] t[i]).player == p && t[i].boxes == boxes {
            let i = choose|i: int|
                0 <= i < t.len() && (#[trigger] t[i]).player == p && t[i].boxes == boxes;
            if i < d.len() {
                assert(d[i].player == p && d[i].boxes == boxes);
                let k = choose|k: int| 0 <= k < before.len() && before[k] == p;
                assert(chosen[k] == p);
            } else {
                assert(chosen[chosen.len() - 1] == p);
            }
        }
    }
}

/// Who leads: a player leads exactly if the player owns a box and no player
/// owns more boxes.
pub proof fn lemma_leaders(s: Seq<u8>, p: u8)
    requires
        s.len() < u64::MAX,
    ensures
        leaders(tally(s)).contains(p) <==> p != 0 && s.contains(p) && forall|q: u8|
            q != 0 ==> #[trigger] occurrences(s, q) <= occurrences(s, p),
{
    let t = tally(s);
    let seen = first_seen(s);
    lemma_first_seen(s);
    lemma_highest(t);
    lemma_players_with(t, highest(t), p);
    lemma_occurrences(s, p);
    if leaders(t).contains(p) {
        let i = choose|i: int|
            0 <= i < t.len() && (#[trigger] t[i]).player == p && t[i].boxes == highest(t);
        assert(seen.contains(seen[i]));
        assert forall|q: u8| q != 0 implies #[trigger] occurrences(s, q) <= occurrences(s, p) by {
            lemma_occurrences(s, q);
            if s.contains(q) {
                assert(seen.contains(q));
                let j = choose|j: int| 0 <= j < seen.len() && seen[j] == q;
                assert(t[j].boxes <= highest(t));
            }
        }
    }
    if p != 0 && s.contains(p) && forall|q: u8|
        q != 0 ==> #[trigger] occurrences(s, q) <= occurrences(s, p) {
        assert(seen.contains(p));
        let i = choose|i: int| 0 <= i < seen.len() && seen[i] == p;
        assert(t[i].player == p);
        let j = choose|j: int| 0 <= j < t.len() && (#[trigger] t[j]).boxes == highest(t);
        let q = seen[j];
        assert(seen.contains(q));
        lemma_occurrences(s, q);
    }
}

impl Grid {
    /// The board is complete exactly if the boxes of its score table add up
    /// to the number of boxes of the board.
    pub proof fn lemma_complete_iff_all_scored(self)
        requires
            self.wf(),
        ensures
            self.complete() <==> total(tally(self.owners())) == (self.height() - 1) * (self.width()
                - 1),
    {
        let n = self.height() - 1;
        let w = self.width() - 1;
        self.lemma_owners_above(n);
        let s = self.owners();
        assert(n * w <= 0xFFFF * 0xFFFF) by (nonlinear_arith)
            requires
                0 <= n <= 0xFFFF,
                0 <= w <= 0xFFFF,
        ;
        lemma_total_counts_filled(s);
        lemma_filled_all(s);
        if self.complete() {
            assert forall|r: int, c: int| 0 <= r < n && 0 <= c < w implies #[trigger] self.owner(
                r,
                c,
            ) != 0 by {
                assert(self.has_box(r, c));
            }
        }
    }
}

} // verus!
