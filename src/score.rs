//! Totals over the selected rounds, ranks, and the climb since one round earlier.
use vstd::multiset::Multiset;
use vstd::prelude::*;

use crate::error::InsufficientData;
use crate::record::{final_round_spec, RecordV, Records};
use crate::round::{undo_rounds, BoundedRound, BoundedRounds, Rounds};

verus! {

/// The sum of `p[i]` for `lo <= i < end`.
pub open spec fn sum_upto(p: Seq<i32>, lo: int, end: int) -> int
    decreases end - lo,
{
    if end <= lo {
        0
    } else {
        sum_upto(p, lo, end - 1) + p[end - 1] as int
    }
}

/// A team's points over the rounds one selector picks; rounds it has not
/// played count nothing.
pub open spec fn round_total(p: Seq<i32>, b: BoundedRound) -> int {
    let end = if b.hi() + 1 < p.len() {
        b.hi() + 1
    } else {
        p.len() as int
    };
    sum_upto(p, b.lo(), end)
}

/// A team's points over a selection: each selector counts on its own.
pub open spec fn total(p: Seq<i32>, sel: Seq<BoundedRound>) -> int
    decreases sel.len(),
{
    if sel.len() == 0 {
        0
    } else {
        total(p, sel.drop_last()) + round_total(p, sel.last())
    }
}

/// Every team's total over a selection, in the records' order.
pub open spec fn totals(rs: Seq<RecordV>, sel: Seq<BoundedRound>) -> Seq<int> {
    rs.map_values(|r: RecordV| total(r.points, sel))
}

/// How many of `t` are greater than `x`.
pub open spec fn count_greater(t: Seq<int>, x: int) -> nat
    decreases t.len(),
{
    if t.len() == 0 {
        0
    } else {
        count_greater(t.drop_last(), x) + if t.last() > x {
            1nat
        } else {
            0nat
        }
    }
}

/// The rank of entry `i`: one more than the number of strictly greater totals.
pub open spec fn rank(t: Seq<int>, i: int) -> int {
    1 + count_greater(t, t[i]) as int
}

/// The change of rank from `prev` to `cur`, positive for a climb; 0 where
/// it does not fit in `isize`.
pub open spec fn climb_of(prev: int, cur: int) -> int {
    if isize::MIN <= prev - cur <= isize::MAX {
        prev - cur
    } else {
        0
    }
}

/// Bound on one selector's total: 2^31 for each of at most 2^64 rounds.
pub open spec fn round_bound() -> int {
    (0x8000_0000 * 0x1_0000_0000_0000_0000) as int
}

proof fn lemma_sum_bound(p: Seq<i32>, lo: int, end: int)
    requires
        0 <= lo,
        end <= p.len(),
    ensures
        end <= lo ==> sum_upto(p, lo, end) == 0,
        lo < end ==> -0x8000_0000 * (end - lo) <= sum_upto(p, lo, end) <= 0x8000_0000 * (end - lo),
    decreases end - lo,
{
    if lo < end {
        lemma_sum_bound(p, lo, end - 1);
    }
}

proof fn lemma_round_bound(p: Seq<i32>, b: BoundedRound)
    requires
        b.lo() >= 0,
        p.len() <= usize::MAX,
    ensures
        -round_bound() <= round_total(p, b) <= round_bound(),
{
    let end = if b.hi() + 1 < p.len() {
        b.hi() + 1
    } else {
        p.len() as int
    };
    lemma_sum_bound(p, b.lo(), end);
    if b.lo() < end {
        assert(0x8000_0000 * (end - b.lo()) <= round_bound()) by (nonlinear_arith)
            requires
                end - b.lo() <= 0x1_0000_0000_0000_0000,
        ;
    }
}

proof fn lemma_total_bound(p: Seq<i32>, sel: Seq<BoundedRound>)
    requires
        p.len() <= usize::MAX,
        forall|k: int| 0 <= k < sel.len() ==> (#[trigger] sel[k]).lo() >= 0,
    ensures
        -(round_bound() * sel.len()) <= total(p, sel) <= round_bound() * sel.len(),
    decreases sel.len(),
{
    if sel.len() > 0 {
        assert forall|k: int| 0 <= k < sel.drop_last().len() implies (#[trigger] sel.drop_last()[k]).lo() >= 0 by {
            assert(sel.drop_last()[k] == sel[k]);
        }
        lemma_total_bound(p, sel.drop_last());
        lemma_round_bound(p, sel.last());
        assert(round_bound() * (sel.len() - 1) + round_bound() == round_bound() * sel.len()) by (nonlinear_arith);
    }
}

proof fn lemma_count_greater_le(t: Seq<int>, x: int)
    ensures
        count_greater(t, x) <= t.len(),
    decreases t.len(),
{
    if t.len() > 0 {
        lemma_count_greater_le(t.drop_last(), x);
    }
}

proof fn lemma_count_greater_lt(t: Seq<int>, k: int)
    requires
        0 <= k < t.len(),
    ensures
        count_greater(t, t[k]) < t.len(),
    decreases t.len(),
{
    if k == t.len() - 1 {
        lemma_count_greater_le(t.drop_last(), t[k]);
    } else {
        assert(t.drop_last()[k] == t[k]);
        lemma_count_greater_lt(t.drop_last(), k);
    }
}

/// One row of the scoreboard.
#[derive(Clone, Debug)]
pub struct Score {
    pub team: String,
    /// The team's total over the selected rounds.
    pub points: i128,
    /// One-based rank; equal totals share a rank.
    pub place: usize,
    /// Rank one round earlier minus rank now: positive for a climb.
    pub climb: isize,
    /// The team's position in the records, which ties the two passes together.
    pub uid: usize,
}

/// What a [`Score`] holds, as a value.
pub struct ScoreV {
    pub team: Seq<char>,
    pub points: int,
    pub place: int,
    pub climb: int,
    pub uid: int,
}

impl View for Score {
    type V = ScoreV;

    open spec fn view(&self) -> ScoreV {
        ScoreV {
            team: self.team@,
            points: self.points as int,
            place: self.place as int,
            climb: self.climb as int,
            uid: self.uid as int,
        }
    }
}

pub open spec fn scores_view(v: Seq<Score>) -> Seq<ScoreV> {
    v.map_values(|s: Score| s@)
}

/// `s` ranks the teams of `rs` over `sel`, one row per record in the
/// records' order, before any climb is known.
pub open spec fn ranked(rs: Seq<RecordV>, sel: Seq<BoundedRound>, s: Seq<ScoreV>) -> bool {
    &&& s.len() == rs.len()
    &&& forall|i: int|
        0 <= i < s.len() ==> {
            &&& (#[trigger] s[i]).team == rs[i].team
            &&& s[i].points == total(rs[i].points, sel)
            &&& s[i].place == rank(totals(rs, sel), i)
            &&& s[i].uid == i
        }
}

/// The climb of row `i` of `rs` over `sel`: its rank one round earlier
/// minus its rank now, 0 where there is no earlier round.
pub open spec fn climb_spec(rs: Seq<RecordV>, sel: Seq<BoundedRound>, i: int) -> int {
    match undo_rounds(sel) {
        None => 0,
        Some(prev) => climb_of(rank(totals(rs, prev), i), rank(totals(rs, sel), i)),
    }
}

/// The scoreboard of `rs` over `sel`, one row per record in the records' order.
pub open spec fn scoreboard(rs: Seq<RecordV>, sel: Seq<BoundedRound>, s: Seq<ScoreV>) -> bool {
    &&& ranked(rs, sel, s)
    &&& forall|i: int| 0 <= i < s.len() ==> (#[trigger] s[i]).climb == climb_spec(rs, sel, i)
}

/// The rows of a scoreboard, and whether they are shown bottom first.
#[derive(Debug)]
pub struct Scores {
    scores: Vec<Score>,
    rev: bool,
}

impl View for Scores {
    type V = Seq<ScoreV>;

    closed spec fn view(&self) -> Seq<ScoreV> {
        scores_view(self.scores@)
    }
}

/// The difference `lhs - rhs` where it fits in `isize`.
pub fn checked_signed_diff(lhs: usize, rhs: usize) -> (r: Option<isize>)
    ensures
        r == if isize::MIN <= lhs - rhs <= isize::MAX {
            Some((lhs - rhs) as isize)
        } else {
            None::<isize>
        },
{
    if lhs >= rhs {
        let d = lhs - rhs;
        if d <= isize::MAX as usize {
            Some(d as isize)
        } else {
            None
        }
    } else {
        let d = rhs - lhs;
        if d <= isize::MAX as usize {
            Some(-(d as isize))
        } else if d == isize::MAX as usize + 1 {
            Some(isize::MIN)
        } else {
            None
        }
    }
}

/// A team's points over the rounds one selector picks.
fn round_points(p: &Vec<i32>, b: BoundedRound) -> (r: i128)
    ensures
        r == round_total(p@, b),
{
    let (lo, hi) = match b {
        BoundedRound::One(r) => (r, r),
        BoundedRound::Range { start, end } => (start, end),
    };
    let end = if hi < p.len() {
        hi + 1
    } else {
        p.len()
    };
    proof {
        lemma_sum_bound(p@, lo as int, end as int);
    }
    let mut s: i128 = 0;
    let mut i: usize = lo;
    while i < end
        invariant
            lo <= i,
            lo >= end ==> i == lo,
            lo < end ==> i <= end,
            end <= p@.len(),
            s == sum_upto(p@, lo as int, i as int),
            -0x8000_0000 * (i - lo) <= s <= 0x8000_0000 * (i - lo),
        decreases end - i,
    {
        proof {
            lemma_sum_bound(p@, lo as int, i + 1);
        }
        s = s + p[i] as i128;
        i += 1;
    }
    if lo >= end {
        assert(sum_upto(p@, lo as int, end as int) == 0);
        assert(sum_upto(p@, lo as int, i as int) == 0);
    }
    s
}

/// A team's points over a selection.
fn record_points(p: &Vec<i32>, sel: &Vec<BoundedRound>) -> (r: i128)
    requires
        sel@.len() < 0x1_0000_0000,
    ensures
        r == total(p@, sel@),
{
    let mut s: i128 = 0;
    let mut k: usize = 0;
    let plen = p.len();
    while k < sel.len()
        invariant
            plen == p@.len(),
            k <= sel@.len(),
            sel@.len() < 0x1_0000_0000,
            s == total(p@, sel@.subrange(0, k as int)),
        decreases sel@.len() - k,
    {
        let ghost pre = sel@.subrange(0, k + 1);
        assert(pre.drop_last() =~= sel@.subrange(0, k as int));
        assert(pre.last() == sel@[k as int]);
        proof {
            assert forall|j: int| 0 <= j < pre.len() implies (#[trigger] pre[j]).lo() >= 0 by {}
            lemma_total_bound(p@, pre);
            assert(round_bound() * pre.len() < 0x8000_0000_0000_0000_0000_0000_0000_0000) by (nonlinear_arith)
                requires
                    pre.len() < 0x1_0000_0000,
                    round_bound() == 0x8000_0000 * 0x1_0000_0000_0000_0000,
            ;
        }
        let t = round_points(p, sel[k]);
        s = s + t;
        k += 1;
    }
    assert(sel@.subrange(0, k as int) =~= sel@);
    s
}

/// Rows for every record over `sel`, ranked, with no climb yet.
fn scores_no_climb(records: &Records, sel: &BoundedRounds) -> (r: Vec<Score>)
    requires
        records.wf(),
        sel.wf(),
        sel@.len() < 0x1_0000_0000,
    ensures
        ranked(records@, sel@, scores_view(r@)),
        forall|i: int| 0 <= i < r@.len() ==> (#[trigger] r@[i]).climb == 0,
{
    let rounds = sel.rounds();
    let n = records.len();
    let mut pts: Vec<i128> = Vec::new();
    let ghost ts = totals(records@, sel@);
    let mut i: usize = 0;
    while i < n
        invariant
            n == records@.len(),
            rounds@ == sel@,
            sel@.len() < 0x1_0000_0000,
            ts == totals(records@, sel@),
            i <= n,
            pts@.len() == i,
            forall|j: int| 0 <= j < i ==> pts@[j] as int == #[trigger] ts[j],
        decreases n - i,
    {
        let t = record_points(&records.get(i).points, rounds);
        pts.push(t);
        i += 1;
    }
    let ghost tv = pts@.map_values(|x: i128| x as int);
    assert(tv =~= ts);
    let mut out: Vec<Score> = Vec::new();
    let mut i: usize = 0;
    while i < n
        invariant
            n == records@.len(),
            n == pts@.len(),
            ts == totals(records@, sel@),
            tv == ts,
            tv == pts@.map_values(|x: i128| x as int),
            i <= n,
            out@.len() == i,
            forall|j: int|
                0 <= j < i ==> {
                    &&& (#[trigger] out@[j])@.team == records@[j].team
                    &&& out@[j]@.points == ts[j]
                    &&& out@[j]@.place == rank(ts, j)
                    &&& out@[j]@.uid == j
                    &&& out@[j].climb == 0
                },
        decreases n - i,
    {
        let mut greater: usize = 0;
        let mut j: usize = 0;
        while j < n
            invariant
                n == pts@.len(),
                tv == pts@.map_values(|x: i128| x as int),
                i < n,
                j <= n,
                greater as nat == count_greater(tv.subrange(0, j as int), tv[i as int]),
                greater <= j,
            decreases n - j,
        {
            assert(tv.subrange(0, j + 1).drop_last() =~= tv.subrange(0, j as int));
            if pts[j] > pts[i] {
                greater += 1;
            }
            j += 1;
        }
        assert(tv.subrange(0, j as int) =~= tv);
        proof {
            lemma_count_greater_lt(tv, i as int);
        }
        let rec = records.get(i);
        out.push(Score { team: rec.team.clone(), points: pts[i], place: greater + 1, climb: 0, uid: i });
        i += 1;
    }
    assert(ranked(records@, sel@, scores_view(out@)));
    out
}

impl Scores {
    /// The scoreboard of `records` over the selection `rounds`: each team's
    /// total and rank, and its climb since the same selection one round earlier.
    pub fn new(records: &Records, rounds: Rounds, rev: bool) -> (r: Result<Scores, InsufficientData>)
        requires
            records.wf(),
            rounds.wf(),
            rounds.listed() is Some ==> rounds.listed()->0.len() < 0x1_0000_0000,
        ensures
            match rounds.bound_spec(final_round_spec(records@)) {
                Err(e) => r == Err::<Scores, InsufficientData>(e),
                Ok(sel) => r is Ok && board(records@, sel, r->Ok_0@) && sorted(r->Ok_0@) && places_are_ranks(
                    r->Ok_0@,
                ) && r->Ok_0.rev() == rev,
            },
    {
        let ghost listed = rounds.listed();
        let sel = match rounds.bound(records.final_round()) {
            Ok(sel) => sel,
            Err(e) => return Err(e),
        };
        proof {
            if listed is Some {
                assert(sel@.len() == listed->0.len());
            }
        }
        let mut scores = scores_no_climb(records, &sel);
        let ghost cur = scores_view(scores@);
        assert(forall|j: int| 0 <= j < scores@.len() ==> cur[j] == (#[trigger] scores@[j])@);
        match sel.undo() {
            None => {
                assert(scoreboard(records@, sel@, scores_view(scores@)));
            },
            Some(prev) => {
                let before = scores_no_climb(records, &prev);
                let n = scores.len();
                let mut i: usize = 0;
                while i < n
                    invariant
                        n == scores@.len(),
                        n == before@.len(),
                        i <= n,
                        ranked(records@, sel@, cur),
                        ranked(records@, prev@, scores_view(before@)),
                        undo_rounds(sel@) == Some(prev@),
                        forall|j: int| 0 <= j < n ==> {
                            &&& (#[trigger] scores@[j])@.team == cur[j].team
                            &&& scores@[j]@.points == cur[j].points
                            &&& scores@[j]@.place == cur[j].place
                            &&& scores@[j]@.uid == cur[j].uid
                        },
                        forall|j: int| 0 <= j < i ==> (#[trigger] scores@[j])@.climb == climb_spec(records@, sel@, j),
                    decreases n - i,
                {
                    assert(scores_view(before@)[i as int] == before@[i as int]@);
                    assert(scores_view(scores@)[i as int] == scores@[i as int]@);
                    let c = match checked_signed_diff(before[i].place, scores[i].place) {
                        Some(d) => d,
                        None => 0,
                    };
                    let row = Score {
                        team: scores[i].team.clone(),
                        points: scores[i].points,
                        place: scores[i].place,
                        climb: c,
                        uid: scores[i].uid,
                    };
                    scores.set(i, row);
                    i += 1;
                }
            },
        }
        let mut board_rows = Scores { scores, rev };
        proof {
            let rs = records@;
            let v = board_rows@;
            let t = totals(rs, sel@);
            assert(scoreboard(rs, sel@, v));
            assert forall|k: int| 0 <= k < v.len() implies (#[trigger] v[k]) == row_of(rs, sel@, k) by {}
            assert forall|i: int| 0 <= i < rs.len() implies #[trigger] has_uid(v, i) by {
                assert(v[i].uid == i);
            }
            assert(board(rs, sel@, v));
            assert forall|k: int| 0 <= k < v.len() implies (#[trigger] v[k]).points == t[k] by {}
            assert forall|k: int| 0 <= k < v.len() implies (#[trigger] v[k]).place == 1 + count_above(v, v[k].points) by {
                lemma_count_map(v, t, v[k].points);
            }
        }
        let ghost unsorted = board_rows@;
        board_rows.sort();
        proof {
            lemma_board_perm(records@, sel@, unsorted, board_rows@);
        }
        Ok(board_rows)
    }

    /// Whether the scoreboard is shown bottom first.
    pub closed spec fn rev(&self) -> bool {
        self.rev
    }

    pub fn is_rev(&self) -> (r: bool)
        ensures
            r == self.rev(),
    {
        self.rev
    }

    /// The rows, in their current order.
    pub fn rows(&self) -> (r: &Vec<Score>)
        ensures
            scores_view(r@) == self@,
    {
        &self.scores
    }
}

/// How many rows of `s` have more than `x` points.
pub open spec fn count_above(s: Seq<ScoreV>, x: int) -> nat
    decreases s.len(),
{
    if s.len() == 0 {
        0
    } else {
        count_above(s.drop_last(), x) + if s.last().points > x {
            1nat
        } else {
            0nat
        }
    }
}

/// Every row's place is one more than the number of rows with more points.
pub open spec fn places_are_ranks(s: Seq<ScoreV>) -> bool {
    forall|k: int| 0 <= k < s.len() ==> (#[trigger] s[k]).place == 1 + count_above(s, s[k].points)
}

/// The row of record `i` on the scoreboard of `rs` over `sel`.
pub open spec fn row_of(rs: Seq<RecordV>, sel: Seq<BoundedRound>, i: int) -> ScoreV {
    ScoreV {
        team: rs[i].team,
        points: total(rs[i].points, sel),
        place: rank(totals(rs, sel), i),
        climb: climb_spec(rs, sel, i),
        uid: i,
    }
}

/// `s` holds the scoreboard of `rs` over `sel` in some order: each row is
/// the row of the record its uid names, and every record has exactly one row.
pub open spec fn board(rs: Seq<RecordV>, sel: Seq<BoundedRound>, s: Seq<ScoreV>) -> bool {
    &&& s.len() == rs.len()
    &&& forall|k: int| 0 <= k < s.len() ==> 0 <= (#[trigger] s[k]).uid < rs.len() && s[k] == row_of(rs, sel, s[k].uid)
    &&& forall|k1: int, k2: int|
        0 <= k1 < s.len() && 0 <= k2 < s.len() && k1 != k2 ==> (#[trigger] s[k1]).uid != (#[trigger] s[k2]).uid
    &&& forall|i: int| 0 <= i < rs.len() ==> #[trigger] has_uid(s, i)
}

/// Some row of `s` has uid `i`.
pub open spec fn has_uid(s: Seq<ScoreV>, i: int) -> bool {
    exists|k: int| 0 <= k < s.len() && (#[trigger] s[k]).uid == i
}

proof fn lemma_count_map(s: Seq<ScoreV>, t: Seq<int>, x: int)
    requires
        s.len() == t.len(),
        forall|k: int| 0 <= k < s.len() ==> (#[trigger] s[k]).points == t[k],
    ensures
        count_above(s, x) == count_greater(t, x),
    decreases s.len(),
{
    if s.len() > 0 {
        lemma_count_map(s.drop_last(), t.drop_last(), x);
    }
}

proof fn lemma_count_remove(b: Seq<ScoreV>, j: int, x: int)
    requires
        0 <= j < b.len(),
    ensures
        count_above(b, x) == count_above(b.remove(j), x) + if b[j].points > x {
            1nat
        } else {
            0nat
        },
    decreases b.len(),
{
    if j == b.len() - 1 {
        assert(b.remove(j) =~= b.drop_last());
    } else {
        assert(b.remove(j).drop_last() =~= b.drop_last().remove(j));
        assert(b.remove(j).last() == b.last());
        lemma_count_remove(b.drop_last(), j, x);
    }
}

proof fn lemma_count_perm(a: Seq<ScoreV>, b: Seq<ScoreV>, x: int)
    requires
        a.to_multiset() == b.to_multiset(),
    ensures
        count_above(a, x) == count_above(b, x),
    decreases a.len(),
{
    broadcast use vstd::seq_lib::group_to_multiset_ensures;

    if a.len() == 0 {
        vstd::seq_lib::to_multiset_len(a);
        vstd::seq_lib::to_multiset_len(b);
        assert(b.len() == 0);
    } else {
        let e = a.last();
        assert(a =~= a.drop_last().push(e));
        assert(a.to_multiset() == a.drop_last().to_multiset().insert(e));
        assert(a.to_multiset().count(e) > 0);
        assert(b.contains(e));
        let j = choose|j: int| 0 <= j < b.len() && b[j] == e;
        lemma_count_remove(b, j, x);
        assert(b.remove(j).to_multiset() == b.to_multiset().remove(e));
        assert(a.drop_last().to_multiset() =~= a.to_multiset().remove(e));
        lemma_count_perm(a.drop_last(), b.remove(j), x);
    }
}

proof fn lemma_in_perm(a: Seq<ScoreV>, b: Seq<ScoreV>, k: int)
    requires
        a.to_multiset() == b.to_multiset(),
        0 <= k < b.len(),
    ensures
        exists|j: int| 0 <= j < a.len() && a[j] == b[k],
{
    broadcast use vstd::seq_lib::group_to_multiset_ensures;

    assert(b.contains(b[k]));
    assert(b.to_multiset().count(b[k]) > 0);
    assert(a.contains(b[k]));
}

proof fn lemma_places_perm(a: Seq<ScoreV>, b: Seq<ScoreV>)
    requires
        places_are_ranks(a),
        a.to_multiset() == b.to_multiset(),
    ensures
        places_are_ranks(b),
{
    assert forall|k: int| 0 <= k < b.len() implies (#[trigger] b[k]).place == 1 + count_above(b, b[k].points) by {
        lemma_in_perm(a, b, k);
        let j = choose|j: int| 0 <= j < a.len() && a[j] == b[k];
        lemma_count_perm(a, b, b[k].points);
    }
}

proof fn lemma_board_perm(rs: Seq<RecordV>, sel: Seq<BoundedRound>, a: Seq<ScoreV>, b: Seq<ScoreV>)
    requires
        board(rs, sel, a),
        a.to_multiset() == b.to_multiset(),
    ensures
        board(rs, sel, b),
{
    broadcast use vstd::seq_lib::group_to_multiset_ensures;

    assert(a.len() == b.len()) by {
        vstd::seq_lib::to_multiset_len(a);
        vstd::seq_lib::to_multiset_len(b);
    }
    assert forall|k: int| 0 <= k < b.len() implies 0 <= (#[trigger] b[k]).uid < rs.len() && b[k] == row_of(rs, sel, b[k].uid) by {
        lemma_in_perm(a, b, k);
    }
    assert forall|i: int| 0 <= i < rs.len() implies #[trigger] has_uid(b, i) by {
        assert(has_uid(a, i));
        let k = choose|k: int| 0 <= k < a.len() && (#[trigger] a[k]).uid == i;
        lemma_in_perm(b, a, k);
    }
    assert(a.no_duplicates()) by {
        assert forall|i: int, j: int| 0 <= i < a.len() && 0 <= j < a.len() && i != j implies a[i] != a[j] by {
            assert(a[i].uid != a[j].uid);
        }
    }
    a.lemma_multiset_has_no_duplicates();
    b.lemma_multiset_has_no_duplicates_conv();
    assert forall|k1: int, k2: int|
        0 <= k1 < b.len() && 0 <= k2 < b.len() && k1 != k2 implies (#[trigger] b[k1]).uid != (#[trigger] b[k2]).uid by {
        if b[k1].uid == b[k2].uid {
            assert(b[k1] == row_of(rs, sel, b[k1].uid));
            assert(b[k2] == row_of(rs, sel, b[k2].uid));
        }
    }
}

proof fn lemma_sorted_unique(a: Seq<ScoreV>, b: Seq<ScoreV>)
    requires
        sorted(a),
        sorted(b),
        a.no_duplicates(),
        b.no_duplicates(),
        forall|x: ScoreV| a.contains(x) <==> b.contains(x),
        forall|x: ScoreV, y: ScoreV| a.contains(x) && a.contains(y) && x != y ==> before(x, y) || before(y, x),
    ensures
        a == b,
    decreases a.len(),
{
    if a.len() == 0 {
        if b.len() > 0 {
            assert(b.contains(b[0]));
        }
        assert(a =~= b);
    } else {
        assert(a.contains(a[0]));
        let j = choose|j: int| 0 <= j < b.len() && b[j] == a[0];
        if b[0] != a[0] {
            assert(b.contains(b[0]));
            let i = choose|i: int| 0 <= i < a.len() && a[i] == b[0];
            assert(j != 0 && i != 0);
            assert(!before(b[j], b[0]));
            assert(!before(a[i], a[0]));
            assert(false);
        }
        let a1 = a.drop_first();
        let b1 = b.drop_first();
        assert forall|x: ScoreV| a1.contains(x) <==> b1.contains(x) by {
            if a1.contains(x) {
                let p = choose|p: int| 0 <= p < a1.len() && a1[p] == x;
                assert(a[p + 1] == x && x != a[0]);
                assert(b.contains(x));
                let q = choose|q: int| 0 <= q < b.len() && b[q] == x;
                assert(q != 0);
                assert(b1[q - 1] == x);
            }
            if b1.contains(x) {
                let p = choose|p: int| 0 <= p < b1.len() && b1[p] == x;
                assert(b[p + 1] == x && x != b[0]);
                assert(a.contains(x));
                let q = choose|q: int| 0 <= q < a.len() && a[q] == x;
                assert(q != 0);
                assert(a1[q - 1] == x);
            }
        }
        assert forall|x: ScoreV, y: ScoreV| a1.contains(x) && a1.contains(y) && x != y implies before(x, y) || before(y, x) by {
            let p = choose|p: int| 0 <= p < a1.len() && a1[p] == x;
            let q = choose|q: int| 0 <= q < a1.len() && a1[q] == y;
            assert(a[p + 1] == x && a[q + 1] == y);
        }
        assert(sorted(a1)) by {
            assert forall|i: int, j: int| 0 <= i < j < a1.len() implies !before(#[trigger] a1[j], #[trigger] a1[i]) by {
                assert(a1[i] == a[i + 1] && a1[j] == a[j + 1]);
            }
        }
        assert(sorted(b1)) by {
            assert forall|i: int, j: int| 0 <= i < j < b1.len() implies !before(#[trigger] b1[j], #[trigger] b1[i]) by {
                assert(b1[i] == b[i + 1] && b1[j] == b[j + 1]);
            }
        }
        lemma_sorted_unique(a1, b1);
        assert(a =~= seq![a[0]] + a1);
        assert(b =~= seq![b[0]] + b1);
    }
}

proof fn lemma_board_no_dup(rs: Seq<RecordV>, sel: Seq<BoundedRound>, s: Seq<ScoreV>)
    requires
        board(rs, sel, s),
    ensures
        s.no_duplicates(),
        forall|x: ScoreV| s.contains(x) <==> (0 <= x.uid < rs.len() && x == row_of(rs, sel, x.uid)),
{
    assert forall|i: int, j: int| 0 <= i < s.len() && 0 <= j < s.len() && i != j implies s[i] != s[j] by {
        assert(s[i].uid != s[j].uid);
    }
    assert forall|x: ScoreV| s.contains(x) <==> (0 <= x.uid < rs.len() && x == row_of(rs, sel, x.uid)) by {
        if 0 <= x.uid < rs.len() && x == row_of(rs, sel, x.uid) {
            assert(has_uid(s, x.uid));
            let k = choose|k: int| 0 <= k < s.len() && (#[trigger] s[k]).uid == x.uid;
            assert(s[k] == x);
        }
    }
}

proof fn lemma_count_above_mono(s: Seq<ScoreV>, x: int, y: int)
    requires
        x >= y,
    ensures
        count_above(s, x) <= count_above(s, y),
    decreases s.len(),
{
    if s.len() > 0 {
        lemma_count_above_mono(s.drop_last(), x, y);
    }
}

proof fn lemma_count_above_strict(s: Seq<ScoreV>, k: int, y: int)
    requires
        0 <= k < s.len(),
        s[k].points > y,
    ensures
        count_above(s, s[k].points) < count_above(s, y),
    decreases s.len(),
{
    if k == s.len() - 1 {
        lemma_count_above_mono(s.drop_last(), s[k].points, y);
    } else {
        assert(s.drop_last()[k] == s[k]);
        lemma_count_above_strict(s.drop_last(), k, y);
    }
}

/// Determinism: the scoreboard of given records over a given selection,
/// in the order it is shown, is a single sequence of rows.
pub proof fn law_scores_deterministic(rs: Seq<RecordV>, sel: Seq<BoundedRound>, s1: Seq<ScoreV>, s2: Seq<ScoreV>)
    requires
        board(rs, sel, s1),
        sorted(s1),
        board(rs, sel, s2),
        sorted(s2),
    ensures
        s1 == s2,
{
    lemma_board_no_dup(rs, sel, s1);
    lemma_board_no_dup(rs, sel, s2);
    assert forall|x: ScoreV, y: ScoreV| s1.contains(x) && s1.contains(y) && x != y implies before(x, y) || before(y, x) by {
        lemma_before_total(x, y);
    }
    lemma_sorted_unique(s1, s2);
}

/// Ranks follow points, on any rows whose places are ranks: every place is
/// at least 1, equal totals share a place, and a greater total has a
/// smaller (better) place.
pub proof fn law_rank_order(s: Seq<ScoreV>)
    requires
        places_are_ranks(s),
    ensures
        forall|k: int| 0 <= k < s.len() ==> (#[trigger] s[k]).place >= 1,
        forall|i: int, j: int|
            0 <= i < s.len() && 0 <= j < s.len() && s[i].points == s[j].points ==> #[trigger] s[i].place
                == #[trigger] s[j].place,
        forall|i: int, j: int|
            0 <= i < s.len() && 0 <= j < s.len() && s[i].points > s[j].points ==> #[trigger] s[i].place
                < #[trigger] s[j].place,
{
    assert forall|i: int, j: int|
        0 <= i < s.len() && 0 <= j < s.len() && s[i].points > s[j].points implies #[trigger] s[i].place
        < #[trigger] s[j].place by {
        lemma_count_above_strict(s, i, s[j].points);
    }
}

/// The sign of a climb: positive where the team's rank number went down
/// since one round earlier, negative where it went up, zero where it stayed
/// (for fewer than `isize::MAX` teams, so that every difference of ranks fits).
pub proof fn law_climb_sign(rs: Seq<RecordV>, sel: Seq<BoundedRound>, s: Seq<ScoreV>, k: int)
    requires
        board(rs, sel, s),
        rs.len() < isize::MAX,
        0 <= k < s.len(),
        undo_rounds(sel) is Some,
    ensures
        ({
            let before = rank(totals(rs, undo_rounds(sel)->0), s[k].uid);
            &&& before > s[k].place ==> s[k].climb > 0
            &&& before < s[k].place ==> s[k].climb < 0
            &&& before == s[k].place ==> s[k].climb == 0
        }),
{
    let i = s[k].uid;
    let prev = undo_rounds(sel)->0;
    let tp = totals(rs, prev);
    let tc = totals(rs, sel);
    lemma_count_greater_le(tp, tp[i]);
    lemma_count_greater_le(tc, tc[i]);
}

/// Whether team name `a` sorts before `b`: character by character, by code
/// point, a proper prefix first.
pub open spec fn name_lt(a: Seq<char>, b: Seq<char>) -> bool
    decreases a.len(),
{
    if a.len() == 0 {
        b.len() > 0
    } else if b.len() == 0 {
        false
    } else if a[0] != b[0] {
        a[0] < b[0]
    } else {
        name_lt(a.drop_first(), b.drop_first())
    }
}

proof fn lemma_name_lt_asym(a: Seq<char>, b: Seq<char>)
    ensures
        name_lt(a, b) ==> !name_lt(b, a),
    decreases a.len(),
{
    if a.len() > 0 && b.len() > 0 && a[0] == b[0] {
        lemma_name_lt_asym(a.drop_first(), b.drop_first());
    }
}

proof fn lemma_name_lt_trans(a: Seq<char>, b: Seq<char>, c: Seq<char>)
    requires
        name_lt(a, b),
        name_lt(b, c),
    ensures
        name_lt(a, c),
    decreases a.len(),
{
    if a.len() > 0 && b.len() > 0 && c.len() > 0 && a[0] == b[0] && b[0] == c[0] {
        lemma_name_lt_trans(a.drop_first(), b.drop_first(), c.drop_first());
    }
}

/// Whether row `a` is shown above row `b`: more points first, then the
/// smaller climb, then the team name, then the earlier record.
pub open spec fn before(a: ScoreV, b: ScoreV) -> bool {
    a.points > b.points || (a.points == b.points && (a.climb < b.climb || (a.climb == b.climb && (
    name_lt(a.team, b.team) || (a.team == b.team && a.uid < b.uid)))))
}

/// No row is shown above one that comes before it.
pub open spec fn sorted(s: Seq<ScoreV>) -> bool {
    forall|i: int, j: int| 0 <= i < j < s.len() ==> !before(#[trigger] s[j], #[trigger] s[i])
}

proof fn lemma_before_asym(a: ScoreV, b: ScoreV)
    ensures
        before(a, b) ==> !before(b, a),
{
    lemma_name_lt_asym(a.team, b.team);
}

proof fn lemma_before_trans(a: ScoreV, b: ScoreV, c: ScoreV)
    requires
        before(a, b),
        before(b, c),
    ensures
        before(a, c),
{
    if a.points == b.points && b.points == c.points && a.climb == b.climb && b.climb == c.climb {
        if name_lt(a.team, b.team) && name_lt(b.team, c.team) {
            lemma_name_lt_trans(a.team, b.team, c.team);
        }
    }
}

proof fn lemma_name_lt_total(a: Seq<char>, b: Seq<char>)
    ensures
        name_lt(a, b) || name_lt(b, a) || a == b,
    decreases a.len(),
{
    if a.len() > 0 && b.len() > 0 && a[0] == b[0] {
        lemma_name_lt_total(a.drop_first(), b.drop_first());
        if a.drop_first() == b.drop_first() {
            assert(a =~= b) by {
                assert(a =~= seq![a[0]] + a.drop_first());
                assert(b =~= seq![b[0]] + b.drop_first());
            }
        }
    } else if a.len() == 0 && b.len() == 0 {
        assert(a =~= b);
    }
}

proof fn lemma_before_total(a: ScoreV, b: ScoreV)
    requires
        a.uid != b.uid,
    ensures
        before(a, b) || before(b, a),
{
    lemma_name_lt_total(a.team, b.team);
}

fn name_less(a: &String, b: &String) -> (r: bool)
    ensures
        r == name_lt(a@, b@),
{
    let x = crate::text::chars_of(a.as_str());
    let y = crate::text::chars_of(b.as_str());
    let mut i: usize = 0;
    assert(x@.subrange(0, x@.len() as int) =~= x@);
    assert(y@.subrange(0, y@.len() as int) =~= y@);
    while i < x.len() && i < y.len()
        invariant
            x@ == a@,
            y@ == b@,
            i <= x@.len(),
            i <= y@.len(),
            name_lt(x@, y@) == name_lt(x@.subrange(i as int, x@.len() as int), y@.subrange(i as int, y@.len() as int)),
        decreases x@.len() - i,
    {
        let ghost xs = x@.subrange(i as int, x@.len() as int);
        let ghost ys = y@.subrange(i as int, y@.len() as int);
        assert(xs[0] == x@[i as int] && ys[0] == y@[i as int]);
        if x[i] != y[i] {
            return x[i] < y[i];
        }
        assert(xs.drop_first() =~= x@.subrange(i + 1, x@.len() as int));
        assert(ys.drop_first() =~= y@.subrange(i + 1, y@.len() as int));
        i += 1;
    }
    let ghost xs = x@.subrange(i as int, x@.len() as int);
    let ghost ys = y@.subrange(i as int, y@.len() as int);
    assert(xs.len() == 0 || ys.len() == 0);
    i == x.len() && i < y.len()
}

impl Score {
    /// A copy of the row.
    pub fn copy(&self) -> (r: Score)
        ensures
            r@ == self@,
    {
        Score { team: self.team.clone(), points: self.points, place: self.place, climb: self.climb, uid: self.uid }
    }

    /// Whether this row is shown above `other`.
    pub fn comes_before(&self, other: &Score) -> (r: bool)
        ensures
            r == before(self@, other@),
    {
        if self.points != other.points {
            return self.points > other.points;
        }
        if self.climb != other.climb {
            return self.climb < other.climb;
        }
        if name_less(&self.team, &other.team) {
            return true;
        }
        if name_less(&other.team, &self.team) {
            return false;
        }
        proof {
            lemma_name_lt_total(self.team@, other.team@);
        }
        self.uid < other.uid
    }
}

impl Scores {
    /// Puts the rows in the order they are shown: more points first, then
    /// the smaller climb, then the team name, then the earlier record.
    pub fn sort(&mut self)
        ensures
            final(self)@.to_multiset() == old(self)@.to_multiset(),
            final(self)@.len() == old(self)@.len(),
            sorted(final(self)@),
            places_are_ranks(old(self)@) ==> places_are_ranks(final(self)@),
            final(self).rev() == old(self).rev(),
    {
        broadcast use vstd::seq_lib::group_to_multiset_ensures;

        let n = self.scores.len();
        let ghost all = scores_view(self.scores@);
        let mut out: Vec<Score> = Vec::new();
        let mut i: usize = 0;
        assert(scores_view(out@) =~= all.subrange(0, 0));
        while i < n
            invariant
                n == self.scores@.len(),
                all == scores_view(self.scores@),
                i <= n,
                scores_view(out@).len() == i,
                scores_view(out@).to_multiset() == all.subrange(0, i as int).to_multiset(),
                sorted(scores_view(out@)),
            decreases n - i,
        {
            let x = self.scores[i].copy();
            let mut k: usize = 0;
            let ghost o = scores_view(out@);
            while k < out.len() && !x.comes_before(&out[k])
                invariant
                    k <= out@.len(),
                    o == scores_view(out@),
                    forall|m: int| 0 <= m < k ==> !before(x@, #[trigger] o[m]),
                decreases out@.len() - k,
            {
                k += 1;
            }
            let ghost xv = x@;
            assert(k < o.len() ==> before(xv, o[k as int]));
            out.insert(k, x);
            proof {
                let no = scores_view(out@);
                assert(no =~= o.insert(k as int, xv));
                assert forall|p: int, q: int| 0 <= p < q < no.len() implies !before(#[trigger] no[q], #[trigger] no[p]) by {
                    if q < k {
                        assert(no[p] == o[p] && no[q] == o[q]);
                    } else if q == k {
                        assert(no[p] == o[p]);
                    } else if p > k {
                        assert(no[p] == o[p - 1] && no[q] == o[q - 1]);
                    } else if p == k {
                        assert(no[q] == o[q - 1]);
                        if before(no[q], xv) {
                            lemma_before_trans(no[q], xv, o[k as int]);
                            if q - 1 == k {
                                lemma_before_asym(o[k as int], o[k as int]);
                            }
                        }
                    } else {
                        assert(no[p] == o[p] && no[q] == o[q - 1]);
                    }
                }
                assert(all.subrange(0, i + 1) =~= all.subrange(0, i as int).push(all[i as int]));
                assert(all[i as int] == xv);
                vstd::seq_lib::to_multiset_insert(o, k as int, xv);
                vstd::seq_lib::to_multiset_build(all.subrange(0, i as int), xv);
            }
            i += 1;
        }
        assert(all.subrange(0, n as int) =~= all);
        self.scores = out;
        proof {
            if places_are_ranks(all) {
                lemma_places_perm(all, self@);
            }
        }
    }

    /// Puts the rows in the order they are shown: as `sort` does, then
    /// bottom first where the scoreboard is reversed.
    pub fn arrange(&mut self)
        ensures
            final(self)@.to_multiset() == old(self)@.to_multiset(),
            final(self)@.len() == old(self)@.len(),
            sorted(if old(self).rev() { final(self)@.reverse() } else { final(self)@ }),
            places_are_ranks(old(self)@) ==> places_are_ranks(final(self)@),
            final(self).rev() == old(self).rev(),
    {
        broadcast use vstd::seq_lib::group_to_multiset_ensures;

        self.sort();
        if !self.rev {
            return;
        }
        let ghost s = scores_view(self.scores@);
        let n = self.scores.len();
        let mut rest: Vec<Score> = Vec::new();
        std::mem::swap(&mut rest, &mut self.scores);
        let mut out: Vec<Score> = Vec::new();
        assert(scores_view(rest@) =~= s);
        assert(scores_view(out@) =~= Seq::<ScoreV>::empty());
        while rest.len() > 0
            invariant
                n == s.len(),
                scores_view(rest@) == s.subrange(0, n - out@.len()),
                out@.len() <= n,
                forall|k: int| 0 <= k < out@.len() ==> (#[trigger] out@[k])@ == s[n - 1 - k],
                scores_view(out@).to_multiset().add(scores_view(rest@).to_multiset()) == s.to_multiset(),
            decreases rest@.len(),
        {
            let ghost before = scores_view(rest@);
            let x = rest.pop().unwrap();
            proof {
                assert(before =~= scores_view(rest@).push(x@));
                assert(before[before.len() - 1] == x@);
                assert(x@ == s[n - 1 - out@.len()]);
                assert(scores_view(out@.push(x)) =~= scores_view(out@).push(x@));
                vstd::seq_lib::to_multiset_build(scores_view(rest@), x@);
                vstd::seq_lib::to_multiset_build(scores_view(out@), x@);
                assert(scores_view(rest@) =~= s.subrange(0, n - out@.len() - 1));
            }
            out.push(x);
            proof {
                assert(scores_view(out@).to_multiset().add(scores_view(rest@).to_multiset()) =~= s.to_multiset());
            }
        }
        proof {
            assert(scores_view(rest@).len() == 0);
            assert(scores_view(rest@).to_multiset() =~= Multiset::<ScoreV>::empty());
            assert(scores_view(out@).to_multiset().add(Multiset::<ScoreV>::empty()) =~= scores_view(out@).to_multiset());
            assert(scores_view(out@).reverse() =~= s);
        }
        self.scores = out;
        proof {
            if places_are_ranks(s) {
                lemma_places_perm(s, self@);
            }
        }
    }
}

} // verus!
