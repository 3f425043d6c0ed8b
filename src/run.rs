//! A query ready to run: which rounds, which file, which order.
use vstd::prelude::*;
use vstd::string::*;

use crate::call::RunV;
use crate::error::{Error, ErrorV};
use crate::record::{final_round_spec, Records};
use crate::round::{bound_listed, Rounds};
use crate::score::{board, places_are_ranks, sorted, Scores};

verus! {

/// The file the records are read from when no `--file` is given.
pub const DEFAULT_FILE_PATH: &'static str = "./poengsum.txt";

/// A query ready to run.
pub struct Run {
    rounds: Rounds,
    file: Option<String>,
    rev: bool,
}

impl View for Run {
    type V = RunV;

    closed spec fn view(&self) -> RunV {
        RunV { rounds: self.rounds.listed(), file: crate::error::opt_view(self.file), rev: self.rev }
    }
}

impl Run {
    pub closed spec fn wf(&self) -> bool {
        self.rounds.wf()
    }

    /// `file` is `None` where the default file is meant.
    pub fn new(rounds: Rounds, file: Option<String>, rev: bool) -> (r: Self)
        requires
            rounds.wf(),
        ensures
            r@ == (RunV { rounds: rounds.listed(), file: crate::error::opt_view(file), rev }),
            r.wf(),
    {
        Run { rounds, file, rev }
    }

    /// The file to read: the one named by `--file`, else the default.
    pub fn file_path(&self) -> (r: String)
        ensures
            r@ == match self@.file {
                Some(f) => f,
                None => DEFAULT_FILE_PATH@,
            },
    {
        match &self.file {
            Some(f) => f.clone(),
            None => String::from_str(DEFAULT_FILE_PATH),
        }
    }

    /// The selected rounds.
    pub fn rounds(&self) -> (r: &Rounds)
        requires
            self.wf(),
        ensures
            r.listed() == self@.rounds,
            r.wf(),
    {
        &self.rounds
    }

    /// Runs the query on `records`.
    pub fn scores(self, records: &Records) -> (r: Result<Scores, Error>)
        requires
            self.wf(),
            records.wf(),
            self@.rounds is Some ==> self@.rounds->0.len() < 0x1_0000_0000,
        ensures
            match bound_listed(self@.rounds, final_round_spec(records@)) {
                Err(e) => r is Err && r->Err_0@ == ErrorV::InsufficientData(e),
                Ok(sel) => r is Ok && board(records@, sel, r->Ok_0@) && sorted(r->Ok_0@) && places_are_ranks(r->Ok_0@)
                    && r->Ok_0.rev() == self@.rev,
            },
    {
        match Scores::new(records, self.rounds, self.rev) {
            Ok(s) => Ok(s),
            Err(error) => Err(Error::InsufficientData { error }),
        }
    }

    /// Whether the scoreboard is shown bottom first.
    pub fn rev(&self) -> (r: bool)
        ensures
            r == self@.rev,
    {
        self.rev
    }
}

} // verus!
