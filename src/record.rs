//! The teams and their points per round, and the lines of a records file.
use vstd::prelude::*;
use vstd::string::*;

use crate::text::{chars_of, is_space, is_space_char, trim, trim_range};

verus! {

/// One team's points, one entry per round it has played, as exact integers
/// in a unit the caller chooses.
#[derive(Clone, Debug)]
pub struct Record {
    pub team: String,
    pub points: Vec<i32>,
}

/// What a [`Record`] holds, as a value.
pub struct RecordV {
    pub team: Seq<char>,
    pub points: Seq<i32>,
}

impl View for Record {
    type V = RecordV;

    open spec fn view(&self) -> RecordV {
        RecordV { team: self.team@, points: self.points@ }
    }
}

/// A line of the records file that cannot be read; rows are one-based.
#[derive(Clone, Debug)]
pub enum InvalidSyntax {
    /// The file holds no team.
    NoTeams,
    /// The line has no `:` between team and points.
    MissingColon { row: usize, line: String },
    /// The team name before the `:` is blank.
    UnnamedTeam { row: usize, line: String },
}

/// A non-empty list of records, in the order they were read.
#[derive(Debug)]
pub struct Records {
    records: Vec<Record>,
}

/// The longest number of rounds among `rs`.
pub open spec fn max_rounds(rs: Seq<RecordV>) -> nat
    decreases rs.len(),
{
    if rs.len() == 0 {
        0
    } else {
        let m = max_rounds(rs.drop_last());
        if rs.last().points.len() > m {
            rs.last().points.len()
        } else {
            m
        }
    }
}

/// The zero-based last round that any team has played; `None` where none has.
pub open spec fn final_round_spec(rs: Seq<RecordV>) -> Option<usize> {
    if max_rounds(rs) == 0 {
        None
    } else {
        Some((max_rounds(rs) - 1) as usize)
    }
}

pub open spec fn records_view(v: Seq<Record>) -> Seq<RecordV> {
    v.map_values(|r: Record| r@)
}

impl View for Records {
    type V = Seq<RecordV>;

    closed spec fn view(&self) -> Seq<RecordV> {
        records_view(self.records@)
    }
}

impl Records {
    pub open spec fn wf(&self) -> bool {
        self@.len() > 0
    }

    /// Fails exactly where `records` is empty.
    pub fn collect_from(records: Vec<Record>) -> (r: Result<Records, InvalidSyntax>)
        ensures
            records@.len() == 0 ==> r is Err && r->Err_0 is NoTeams,
            records@.len() > 0 ==> r is Ok && r->Ok_0@ == records_view(records@) && r->Ok_0.wf(),
    {
        if records.len() == 0 {
            return Err(InvalidSyntax::NoTeams);
        }
        Ok(Records { records })
    }

    /// The zero-based last round that any team has played.
    pub fn final_round(&self) -> (r: Option<usize>)
        ensures
            r == final_round_spec(self@),
            r is Some ==> r->0 < usize::MAX,
    {
        let mut m: usize = 0;
        let mut i: usize = 0;
        let ghost all = self@;
        while i < self.records.len()
            invariant
                all == records_view(self.records@),
                i <= self.records@.len(),
                m as nat == max_rounds(all.subrange(0, i as int)),
            decreases self.records@.len() - i,
        {
            assert(all.subrange(0, i + 1).drop_last() =~= all.subrange(0, i as int));
            assert(all.subrange(0, i + 1).last() == self.records@[i as int]@);
            let n = self.records[i].points.len();
            if n > m {
                m = n;
            }
            i += 1;
        }
        assert(all.subrange(0, i as int) =~= all);
        if m == 0 {
            None
        } else {
            Some(m - 1)
        }
    }

    pub fn len(&self) -> (r: usize)
        ensures
            r == self@.len(),
    {
        self.records.len()
    }

    /// The record at `i`.
    pub fn get(&self, i: usize) -> (r: &Record)
        requires
            i < self@.len(),
        ensures
            r@ == self@[i as int],
    {
        &self.records[i]
    }
}

/// The index of the last `:` in `s`.
pub open spec fn last_colon(s: Seq<char>) -> Option<int>
    decreases s.len(),
{
    if s.len() == 0 {
        None
    } else if s.last() == ':' {
        Some(s.len() - 1)
    } else {
        last_colon(s.drop_last())
    }
}

/// The words of `s` from index `i` on, as `(start, end)` character spans,
/// where `start` is where the word being read began and `done` the words read.
pub open spec fn words_from(s: Seq<char>, i: int, start: Option<int>, done: Seq<(int, int)>) -> Seq<(int, int)>
    decreases s.len() - i,
{
    if i >= s.len() {
        match start {
            Some(a) => done.push((a, s.len() as int)),
            None => done,
        }
    } else if is_space(s[i]) {
        match start {
            Some(a) => words_from(s, i + 1, None, done.push((a, i))),
            None => words_from(s, i + 1, None, done),
        }
    } else {
        match start {
            Some(a) => words_from(s, i + 1, Some(a), done),
            None => words_from(s, i + 1, Some(i), done),
        }
    }
}

/// A line with a team: the team's name, and the span of each point value
/// (whitespace-separated words after the last `:`) in characters of the line.
#[derive(Clone, Debug)]
pub struct RecordLine {
    pub team: String,
    pub fields: Vec<(usize, usize)>,
}

/// What a line holds: nothing where it is blank, else the team's name
/// (trimmed, before the last `:`) and the spans of its point values; an
/// error where the `:` is missing or the name is blank.
pub open spec fn line_spec(s: Seq<char>) -> Result<Option<(Seq<char>, Seq<(int, int)>)>, bool> {
    if trim(s).len() == 0 {
        Ok(None)
    } else {
        match last_colon(s) {
            None => Err(true),
            Some(c) => if trim(s.subrange(0, c)).len() == 0 {
                Err(false)
            } else {
                Ok(Some((trim(s.subrange(0, c)), words_from(s, c + 1, None, Seq::empty()))))
            },
        }
    }
}

pub open spec fn spans_view(v: Seq<(usize, usize)>) -> Seq<(int, int)> {
    v.map_values(|p: (usize, usize)| (p.0 as int, p.1 as int))
}

fn find_last_colon(s: &[char]) -> (r: Option<usize>)
    ensures
        r is None <==> last_colon(s@) is None,
        r is Some ==> last_colon(s@) == Some(r->0 as int) && r->0 < s@.len(),
{
    let mut i: usize = s.len();
    assert(s@.subrange(0, i as int) =~= s@);
    while i > 0
        invariant
            i <= s@.len(),
            last_colon(s@) == last_colon(s@.subrange(0, i as int)),
        decreases i,
    {
        let ghost p = s@.subrange(0, i as int);
        assert(p.last() == s@[i - 1]);
        if s[i - 1] == ':' {
            return Some(i - 1);
        }
        assert(p.drop_last() =~= s@.subrange(0, i - 1));
        i -= 1;
    }
    None
}

fn find_words(s: &[char], from: usize) -> (r: Vec<(usize, usize)>)
    requires
        from <= s@.len(),
    ensures
        spans_view(r@) == words_from(s@, from as int, None, Seq::empty()),
{
    let n = s.len();
    let mut done: Vec<(usize, usize)> = Vec::new();
    let mut start: Option<usize> = None;
    let mut i: usize = from;
    assert(spans_view(done@) =~= Seq::<(int, int)>::empty());
    while i < n
        invariant
            n == s@.len(),
            from <= i <= n,
            start is Some ==> start->0 < n,
            words_from(s@, from as int, None, Seq::empty()) == words_from(
                s@,
                i as int,
                match start {
                    Some(a) => Some(a as int),
                    None => None,
                },
                spans_view(done@),
            ),
        decreases n - i,
    {
        if is_space_char(s[i]) {
            if let Some(a) = start {
                assert(spans_view(done@.push((a, i))) =~= spans_view(done@).push((a as int, i as int)));
                done.push((a, i));
            }
            start = None;
        } else if start.is_none() {
            start = Some(i);
        }
        i += 1;
    }
    if let Some(a) = start {
        assert(spans_view(done@.push((a, n))) =~= spans_view(done@).push((a as int, n as int)));
        done.push((a, n));
    }
    done
}

/// Reads the lines of a records file one at a time, counting rows.
#[derive(Debug)]
pub struct RecordParser {
    row: usize,
    records: Vec<Record>,
}

impl RecordParser {
    /// The number of lines read so far.
    pub closed spec fn rows(&self) -> nat {
        self.row as nat
    }

    /// The records added so far.
    pub closed spec fn added(&self) -> Seq<RecordV> {
        records_view(self.records@)
    }

    pub fn new() -> (r: Self)
        ensures
            r.rows() == 0,
            r.added() == Seq::<RecordV>::empty(),
    {
        let r = RecordParser { row: 0, records: Vec::new() };
        assert(r.added() =~= Seq::<RecordV>::empty());
        r
    }

    /// The one-based number of the last line read.
    pub fn row(&self) -> (r: usize)
        ensures
            r == self.rows(),
    {
        self.row
    }

    /// Reads the next line: `None` where it is blank, else its team and the
    /// spans of its point values.
    pub fn parse_line(&mut self, line: &str) -> (r: Result<Option<RecordLine>, InvalidSyntax>)
        requires
            old(self).rows() < usize::MAX,
        ensures
            final(self).rows() == old(self).rows() + 1,
            final(self).added() == old(self).added(),
            match line_spec(line@) {
                Ok(None) => r matches Ok(None),
                Ok(Some((team, spans))) => r matches Ok(Some(l)) && l.team@ == team && spans_view(l.fields@) == spans,
                Err(true) => r matches Err(InvalidSyntax::MissingColon { row, line: text }) && row == final(self).rows() && text@ == line@,
                Err(false) => r matches Err(InvalidSyntax::UnnamedTeam { row, line: text }) && row == final(self).rows() && text@ == line@,
            },
    {
        self.row = self.row + 1;
        let s = chars_of(line);
        let n = s.len();
        let (a, b) = trim_range(s.as_slice());
        if a == b {
            return Ok(None);
        }
        let c = match find_last_colon(s.as_slice()) {
            Some(c) => c,
            None => return Err(InvalidSyntax::MissingColon { row: self.row, line: String::from_str(line) }),
        };
        let head = crate::text::slice_chars(s.as_slice(), 0, c);
        assert(head@ == line@.subrange(0, c as int));
        let (ta, tb) = trim_range(head.as_slice());
        if ta == tb {
            return Err(InvalidSyntax::UnnamedTeam { row: self.row, line: String::from_str(line) });
        }
        let team = String::from_str(line.substring_char(ta, tb));
        assert(team@ =~= trim(line@.subrange(0, c as int)));
        let fields = find_words(s.as_slice(), c + 1);
        Ok(Some(RecordLine { team, fields }))
    }

    /// Adds the record of the line just read.
    pub fn add(&mut self, record: Record)
        ensures
            final(self).rows() == old(self).rows(),
            final(self).added() == old(self).added().push(record@),
    {
        self.records.push(record);
        assert(self.added() =~= old(self).added().push(record@));
    }

    /// The records read; an error where there are none.
    pub fn collect(self) -> (r: Result<Records, InvalidSyntax>)
        ensures
            self.added().len() == 0 ==> r is Err && r->Err_0 is NoTeams,
            self.added().len() > 0 ==> r is Ok && r->Ok_0@ == self.added() && r->Ok_0.wf(),
    {
        Records::collect_from(self.records)
    }
}

} // verus!
