//! Round selectors as the user writes them, and as resolved against the data.
use vstd::prelude::*;

use crate::error::InsufficientData;

verus! {

/// A round selector as given on the command line; indices are zero-based.
#[derive(Clone, Copy, Debug, PartialEq, Eq)]
pub enum Round {
    One(usize),
    /// An inclusive range; an absent bound reaches the first or last round.
    Range { start: Option<usize>, end: Option<usize> },
}

/// A round selector resolved against the last round of the data.
#[derive(Clone, Copy, Debug, PartialEq, Eq)]
pub enum BoundedRound {
    One(usize),
    Range { start: usize, end: usize },
}

impl Round {
    /// Every index is below `usize::MAX`, so that its one-based number fits.
    pub open spec fn wf(self) -> bool {
        match self {
            Round::One(r) => r < usize::MAX,
            Round::Range { start, end } => (start is Some ==> start->0 < usize::MAX) && (end is Some
                ==> end->0 < usize::MAX),
        }
    }

    pub open spec fn check_spec(round: usize, final_round: usize) -> Result<usize, InsufficientData> {
        if round <= final_round {
            Ok(round)
        } else {
            Err(InsufficientData::RoundNotYet { round: (round + 1) as usize, final_round: (final_round + 1) as usize })
        }
    }

    /// What `bound` resolves this selector to.
    pub open spec fn bound_spec(self, final_round: Option<usize>) -> Result<BoundedRound, InsufficientData> {
        match final_round {
            None => Err(InsufficientData::NoRoundsYet),
            Some(f) => match self {
                Round::One(r) => match Self::check_spec(r, f) {
                    Ok(r) => Ok(BoundedRound::One(r)),
                    Err(e) => Err(e),
                },
                Round::Range { start, end } => {
                    let s = match start {
                        Some(s) => Self::check_spec(s, f),
                        None => Ok(0usize),
                    };
                    let e = match end {
                        Some(e) => Self::check_spec(e, f),
                        None => Ok(f),
                    };
                    match (s, e) {
                        (Err(err), _) => Err(err),
                        (Ok(_), Err(err)) => Err(err),
                        (Ok(s), Ok(e)) => Ok(BoundedRound::new_spec(s, Some(e))),
                    }
                },
            },
        }
    }

    fn check(round: usize, final_round: usize) -> (r: Result<usize, InsufficientData>)
        requires
            round < usize::MAX,
        ensures
            r == Self::check_spec(round, final_round),
    {
        if round <= final_round {
            Ok(round)
        } else {
            Err(InsufficientData::RoundNotYet { round: round + 1, final_round: final_round + 1 })
        }
    }

    /// Resolves the selector against the zero-based last round of the data
    /// (`None` where no team has any round yet).
    pub fn bound(self, final_round: Option<usize>) -> (r: Result<BoundedRound, InsufficientData>)
        requires
            self.wf(),
        ensures
            r == self.bound_spec(final_round),
    {
        let f = match final_round {
            Some(f) => f,
            None => return Err(InsufficientData::NoRoundsYet),
        };
        match self {
            Round::One(r) => match Self::check(r, f) {
                Ok(r) => Ok(BoundedRound::One(r)),
                Err(e) => Err(e),
            },
            Round::Range { start, end } => {
                let s = match start {
                    Some(s) => Self::check(s, f),
                    None => Ok(0usize),
                };
                let e = match end {
                    Some(e) => Self::check(e, f),
                    None => Ok(f),
                };
                match (s, e) {
                    (Err(err), _) => Err(err),
                    (Ok(_), Err(err)) => Err(err),
                    (Ok(s), Ok(e)) => Ok(BoundedRound::new(s, Some(e))),
                }
            },
        }
    }
}

impl BoundedRound {
    /// First index of the range.
    pub open spec fn lo(self) -> int {
        match self {
            BoundedRound::One(r) => r as int,
            BoundedRound::Range { start, .. } => start as int,
        }
    }

    /// Last index of the range (below `lo` only for a reversed range, which selects nothing).
    pub open spec fn hi(self) -> int {
        match self {
            BoundedRound::One(r) => r as int,
            BoundedRound::Range { end, .. } => end as int,
        }
    }

    /// Whether round `i` is selected.
    pub open spec fn selects(self, i: int) -> bool {
        self.lo() <= i <= self.hi()
    }

    pub open spec fn new_spec(start: usize, end: Option<usize>) -> BoundedRound {
        match end {
            Some(e) if e != start => BoundedRound::Range { start, end: e },
            _ => BoundedRound::One(start),
        }
    }

    /// A single round where `end` is absent or equal to `start`, else the range.
    pub fn new(start: usize, end: Option<usize>) -> (r: Self)
        ensures
            r == Self::new_spec(start, end),
    {
        if let Some(e) = end {
            if e != start {
                return BoundedRound::Range { start, end: e };
            }
        }
        BoundedRound::One(start)
    }

    /// The same selector one round earlier: a range loses its last round
    /// (or, reversed, gains one); a single round has none before it.
    pub open spec fn undo_spec(self) -> Option<BoundedRound> {
        match self {
            BoundedRound::One(_) => None,
            BoundedRound::Range { start, end } => if end == start {
                None
            } else if end < start {
                Some(Self::new_spec(start, Some((end + 1) as usize)))
            } else {
                Some(Self::new_spec(start, Some((end - 1) as usize)))
            },
        }
    }

    pub fn undo(self) -> (r: Option<Self>)
        ensures
            r == self.undo_spec(),
    {
        match self {
            BoundedRound::One(_) => None,
            BoundedRound::Range { start, end } => {
                if end == start {
                    None
                } else if end < start {
                    Some(Self::new(start, Some(end + 1)))
                } else {
                    Some(Self::new(start, Some(end - 1)))
                }
            },
        }
    }
}

/// A non-empty list of resolved round selectors.
#[derive(Debug)]
pub struct BoundedRounds {
    rounds: Vec<BoundedRound>,
}

/// The list one round earlier: only the last selector changes, and it goes
/// where it has no round before it; `None` where nothing would be left.
pub open spec fn undo_rounds(s: Seq<BoundedRound>) -> Option<Seq<BoundedRound>> {
    if s.len() == 0 {
        Some(s)
    } else {
        match s.last().undo_spec() {
            Some(l) => Some(s.drop_last().push(l)),
            None => if s.len() == 1 {
                None
            } else {
                Some(s.drop_last())
            },
        }
    }
}

impl View for BoundedRounds {
    type V = Seq<BoundedRound>;

    closed spec fn view(&self) -> Seq<BoundedRound> {
        self.rounds@
    }
}

impl BoundedRounds {
    pub open spec fn wf(&self) -> bool {
        self@.len() > 0
    }

    /// Fails with `NoRoundsQueried` exactly where `rounds` is empty.
    pub fn new(rounds: Vec<BoundedRound>) -> (r: Result<Self, InsufficientData>)
        ensures
            rounds@.len() == 0 ==> r == Err::<Self, InsufficientData>(InsufficientData::NoRoundsQueried),
            rounds@.len() > 0 ==> r is Ok && r->Ok_0@ == rounds@ && r->Ok_0.wf(),
    {
        if rounds.len() == 0 {
            return Err(InsufficientData::NoRoundsQueried);
        }
        Ok(BoundedRounds { rounds })
    }

    /// The first error of `rounds` if there is one, else as `new`.
    pub fn try_new(rounds: Vec<Result<BoundedRound, InsufficientData>>) -> (r: Result<Self, InsufficientData>)
        ensures
            match first_error(rounds@) {
                Some(e) => r == Err::<Self, InsufficientData>(e),
                None => if rounds@.len() == 0 {
                    r == Err::<Self, InsufficientData>(InsufficientData::NoRoundsQueried)
                } else {
                    r is Ok && r->Ok_0@ == rounds@.map_values(|x: Result<BoundedRound, InsufficientData>| x->Ok_0)
                },
            },
    {
        let mut out: Vec<BoundedRound> = Vec::new();
        let mut i: usize = 0;
        while i < rounds.len()
            invariant
                i <= rounds@.len(),
                forall|j: int| 0 <= j < i ==> (#[trigger] rounds@[j]) is Ok,
                out@ == rounds@.subrange(0, i as int).map_values(|x: Result<BoundedRound, InsufficientData>| x->Ok_0),
            decreases rounds@.len() - i,
        {
            match &rounds[i] {
                Ok(b) => out.push(*b),
                Err(e) => {
                    proof {
                        lemma_first_error_at(rounds@, i as int);
                    }
                    return Err(*e);
                },
            }
            i += 1;
            assert(out@ =~= rounds@.subrange(0, i as int).map_values(|x: Result<BoundedRound, InsufficientData>| x->Ok_0));
        }
        assert(rounds@.subrange(0, i as int) =~= rounds@);
        proof {
            lemma_first_error_none(rounds@);
        }
        Self::new(out)
    }

    /// The selection one round earlier, if any is left.
    pub fn undo(&self) -> (r: Option<Self>)
        requires
            self.wf(),
        ensures
            match undo_rounds(self@) {
                Some(s) => r is Some && r->0@ == s && r->0.wf(),
                None => r is None,
            },
    {
        let mut rounds: Vec<BoundedRound> = Vec::new();
        let mut i: usize = 0;
        while i < self.rounds.len()
            invariant
                i <= self.rounds@.len(),
                rounds@ == self.rounds@.subrange(0, i as int),
            decreases self.rounds@.len() - i,
        {
            rounds.push(self.rounds[i]);
            i += 1;
        }
        assert(rounds@ =~= self@);
        let last = rounds.pop().unwrap();
        match last.undo() {
            Some(l) => {
                rounds.push(l);
            },
            None => {
                if rounds.len() == 0 {
                    return None;
                }
            },
        }
        Some(BoundedRounds { rounds })
    }

    /// The selectors, in order.
    pub fn rounds(&self) -> (r: &Vec<BoundedRound>)
        ensures
            r@ == self@,
    {
        &self.rounds
    }
}

/// The first error in a list of results.
pub open spec fn first_error<T>(s: Seq<Result<T, InsufficientData>>) -> Option<InsufficientData>
    decreases s.len(),
{
    if s.len() == 0 {
        None
    } else {
        match s[0] {
            Err(e) => Some(e),
            Ok(_) => first_error(s.drop_first()),
        }
    }
}

proof fn lemma_first_error_none<T>(s: Seq<Result<T, InsufficientData>>)
    requires
        forall|j: int| 0 <= j < s.len() ==> (#[trigger] s[j]) is Ok,
    ensures
        first_error(s) is None,
    decreases s.len(),
{
    if s.len() > 0 {
        assert(s[0] is Ok);
        assert forall|j: int| 0 <= j < s.drop_first().len() implies (#[trigger] s.drop_first()[j]) is Ok by {
            assert(s.drop_first()[j] == s[j + 1]);
        }
        lemma_first_error_none(s.drop_first());
    }
}

proof fn lemma_first_error_at<T>(s: Seq<Result<T, InsufficientData>>, i: int)
    requires
        0 <= i < s.len(),
        forall|j: int| 0 <= j < i ==> (#[trigger] s[j]) is Ok,
        s[i] is Err,
    ensures
        first_error(s) == Some(s[i]->Err_0),
    decreases i,
{
    if i > 0 {
        assert(s[0] is Ok);
        assert forall|j: int| 0 <= j < i - 1 implies (#[trigger] s.drop_first()[j]) is Ok by {
            assert(s.drop_first()[j] == s[j + 1]);
        }
        assert(s.drop_first()[i - 1] == s[i]);
        lemma_first_error_at(s.drop_first(), i - 1);
    }
}

/// A non-empty list of round selectors, in the order given.
#[derive(Debug)]
pub struct SomeRounds {
    rounds: Vec<Round>,
}

impl View for SomeRounds {
    type V = Seq<Round>;

    closed spec fn view(&self) -> Seq<Round> {
        self.rounds@
    }
}

impl SomeRounds {
    pub open spec fn wf(&self) -> bool {
        self@.len() > 0 && forall|i: int| 0 <= i < self@.len() ==> (#[trigger] self@[i]).wf()
    }

    pub fn new(round: Round) -> (r: Self)
        requires
            round.wf(),
        ensures
            r@ == seq![round],
            r.wf(),
    {
        SomeRounds { rounds: vec![round] }
    }

    pub fn add_round(&mut self, round: Round)
        requires
            old(self).wf(),
            round.wf(),
        ensures
            final(self)@ == old(self)@.push(round),
            final(self).wf(),
    {
        self.rounds.push(round);
    }

    /// The selectors, in order.
    pub fn rounds(&self) -> (r: &Vec<Round>)
        ensures
            r@ == self@,
    {
        &self.rounds
    }
}

/// The rounds a query asks for: all of them, or those listed.
#[derive(Debug)]
pub enum Rounds {
    All,
    Listed(SomeRounds),
}

/// Resolves each selector of `s` against `final_round`.
pub open spec fn bound_each(s: Seq<Round>, final_round: Option<usize>) -> Seq<Result<BoundedRound, InsufficientData>> {
    s.map_values(|r: Round| r.bound_spec(final_round))
}

/// Resolves a selection (`None` for all rounds) against `final_round`.
pub open spec fn bound_listed(listed: Option<Seq<Round>>, final_round: Option<usize>) -> Result<Seq<BoundedRound>, InsufficientData> {
    match listed {
        None => match final_round {
            None => Err(InsufficientData::NoRoundsYet),
            Some(f) => Ok(seq![BoundedRound::new_spec(0, Some(f))]),
        },
        Some(s) => {
            let b = bound_each(s, final_round);
            match first_error(b) {
                Some(e) => Err(e),
                None => if b.len() == 0 {
                    Err(InsufficientData::NoRoundsQueried)
                } else {
                    Ok(b.map_values(|x: Result<BoundedRound, InsufficientData>| x->Ok_0))
                },
            }
        },
    }
}

impl Rounds {
    pub open spec fn wf(&self) -> bool {
        match self {
            Rounds::All => true,
            Rounds::Listed(s) => s.wf(),
        }
    }

    /// The listed selectors; `None` for all rounds.
    pub open spec fn listed(&self) -> Option<Seq<Round>> {
        match self {
            Rounds::All => None,
            Rounds::Listed(s) => Some(s@),
        }
    }

    /// What `bound` resolves to.
    pub open spec fn bound_spec(&self, final_round: Option<usize>) -> Result<Seq<BoundedRound>, InsufficientData> {
        bound_listed(self.listed(), final_round)
    }

    /// Appends a selector; the first one replaces "all rounds".
    pub fn add_round(&mut self, round: Round)
        requires
            old(self).wf(),
            round.wf(),
        ensures
            final(self).wf(),
            final(self).listed() == Some(
                match old(self).listed() {
                    None => seq![round],
                    Some(s) => s.push(round),
                },
            ),
    {
        match self {
            Rounds::Listed(rounds) => rounds.add_round(round),
            Rounds::All => {
                *self = Rounds::Listed(SomeRounds::new(round));
            },
        }
    }

    /// Resolves the selection against the zero-based last round of the data.
    pub fn bound(self, final_round: Option<usize>) -> (r: Result<BoundedRounds, InsufficientData>)
        requires
            self.wf(),
        ensures
            match self.bound_spec(final_round) {
                Ok(s) => r is Ok && r->Ok_0@ == s && r->Ok_0.wf(),
                Err(e) => r == Err::<BoundedRounds, InsufficientData>(e),
            },
    {
        match self {
            Rounds::All => {
                let f = match final_round {
                    Some(f) => f,
                    None => return Err(InsufficientData::NoRoundsYet),
                };
                let v = vec![BoundedRound::new(0, Some(f))];
                let r = BoundedRounds::new(v);
                assert(r is Ok);
                r
            },
            Rounds::Listed(rounds) => {
                let rs = rounds.rounds();
                let mut b: Vec<Result<BoundedRound, InsufficientData>> = Vec::new();
                let mut i: usize = 0;
                while i < rs.len()
                    invariant
                        i <= rs@.len(),
                        rs@ == rounds@,
                        rounds.wf(),
                        b@ == bound_each(rs@.subrange(0, i as int), final_round),
                    decreases rs@.len() - i,
                {
                    b.push(rs[i].bound(final_round));
                    i += 1;
                    assert(b@ =~= bound_each(rs@.subrange(0, i as int), final_round));
                }
                assert(rs@.subrange(0, i as int) =~= rs@);
                BoundedRounds::try_new(b)
            },
        }
    }
}

/// Resolving: "all rounds" against a last round `f` is the single range
/// from the first round to `f`; a single round `r` stays itself where
/// `r <= f`, and is a round that has not happened yet where `r > f`.
pub proof fn law_resolve(f: usize, r: usize)
    requires
        r < usize::MAX,
    ensures
        Rounds::All.bound_spec(Some(f)) is Ok,
        Rounds::All.bound_spec(Some(f))->Ok_0.len() == 1,
        Rounds::All.bound_spec(Some(f))->Ok_0[0].lo() == 0,
        Rounds::All.bound_spec(Some(f))->Ok_0[0].hi() == f,
        r <= f ==> Round::One(r).bound_spec(Some(f)) == Ok::<BoundedRound, InsufficientData>(BoundedRound::One(r)),
        r > f ==> Round::One(r).bound_spec(Some(f)) == Err::<BoundedRound, InsufficientData>(
            InsufficientData::RoundNotYet { round: (r + 1) as usize, final_round: (f + 1) as usize },
        ),
{
}

} // verus!
