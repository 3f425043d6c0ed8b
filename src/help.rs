//! A request for help, and the flags it should explain.
use vstd::prelude::*;

use crate::error::{catch_spec, ArgError, ArgErrorV};
use crate::flag::FlagKind;

verus! {

/// A request to explain the program instead of running it.
#[derive(Clone, Debug)]
pub struct Help {
    exe: String,
    flags: Vec<FlagKind>,
}

/// `flags` with `flag` added at the end, unless it is there already.
pub open spec fn add_once(flags: Seq<FlagKind>, flag: FlagKind) -> Seq<FlagKind> {
    if flags.contains(flag) {
        flags
    } else {
        flags.push(flag)
    }
}

/// `into` with each of `flags` added in turn by [`add_once`].
pub open spec fn add_all(into: Seq<FlagKind>, flags: Seq<FlagKind>) -> Seq<FlagKind>
    decreases flags.len(),
{
    if flags.len() == 0 {
        into
    } else {
        add_all(add_once(into, flags[0]), flags.drop_first())
    }
}

impl Help {
    /// The name the program was called by.
    pub closed spec fn exe(&self) -> Seq<char> {
        self.exe@
    }

    /// The flags to explain, in order; none means general usage.
    pub closed spec fn flags(&self) -> Seq<FlagKind> {
        self.flags@
    }

    pub fn new(exe: String) -> (r: Self)
        ensures
            r.exe() == exe@,
            r.flags() == Seq::<FlagKind>::empty(),
    {
        Help { exe, flags: Vec::new() }
    }

    pub fn exe_name(&self) -> (r: &String)
        ensures
            r@ == self.exe(),
    {
        &self.exe
    }

    pub fn flag_list(&self) -> (r: &Vec<FlagKind>)
        ensures
            r@ == self.flags(),
    {
        &self.flags
    }

    /// Adds a flag to explain, unless it is there already.
    pub fn add_flag(&mut self, flag: FlagKind)
        ensures
            final(self).exe() == old(self).exe(),
            final(self).flags() == add_once(old(self).flags(), flag),
    {
        let mut i: usize = 0;
        while i < self.flags.len()
            invariant
                i <= self.flags@.len(),
                forall|j: int| 0 <= j < i ==> self.flags@[j] != flag,
            decreases self.flags@.len() - i,
        {
            if self.flags[i] == flag {
                return;
            }
            i += 1;
        }
        self.flags.push(flag);
    }

    /// Merges a second request for help into this one: the help flag itself
    /// becomes a flag to explain, then those of `help`.
    pub fn and(&mut self, help: Help)
        ensures
            final(self).exe() == old(self).exe(),
            final(self).flags() == add_all(add_once(old(self).flags(), FlagKind::Help), help.flags()),
    {
        self.add_flag(FlagKind::Help);
        self.add_each(&help.flags);
    }

    fn add_each(&mut self, flags: &Vec<FlagKind>)
        ensures
            final(self).exe() == old(self).exe(),
            final(self).flags() == add_all(old(self).flags(), flags@),
    {
        let mut i: usize = 0;
        assert(flags@.subrange(0, flags@.len() as int) =~= flags@);
        while i < flags.len()
            invariant
                i <= flags@.len(),
                self.exe() == old(self).exe(),
                add_all(old(self).flags(), flags@) == add_all(self.flags(), flags@.subrange(i as int, flags@.len() as int)),
            decreases flags@.len() - i,
        {
            assert(flags@.subrange(i as int, flags@.len() as int).drop_first() =~= flags@.subrange(i + 1, flags@.len() as int));
            self.add_flag(flags[i]);
            i += 1;
        }
    }

    /// Puts `flags` first, then adds the flags this request had.
    pub fn prepend_flags(&mut self, flags: Vec<FlagKind>)
        ensures
            final(self).exe() == old(self).exe(),
            final(self).flags() == add_all(flags@, old(self).flags()),
    {
        let mut before = flags;
        std::mem::swap(&mut self.flags, &mut before);
        self.add_each(&before);
    }

    /// Takes in what a caught error asks to explain.
    pub fn reap_catch(&mut self, catch: Catch)
        ensures
            final(self).exe() == old(self).exe(),
            final(self).flags() == match catch {
                Catch::Args => old(self).flags(),
                Catch::Flag(k) => add_once(old(self).flags(), k),
            },
    {
        match catch {
            Catch::Args => {},
            Catch::Flag(k) => self.add_flag(k),
        }
    }
}

/// The flags a request for help explains once it takes in `e`, or `e`
/// back where it cannot.
pub open spec fn caught_by(flags: Seq<FlagKind>, e: ArgErrorV) -> Result<Seq<FlagKind>, ArgErrorV> {
    match catch_spec(e) {
        None => Err(e),
        Some(Catch::Args) => Ok(flags),
        Some(Catch::Flag(k)) => Ok(add_once(flags, k)),
    }
}

impl Help {
    /// Takes in an error that help can explain instead; hands back one it cannot.
    pub fn catch(&mut self, error: ArgError) -> (r: Result<(), ArgError>)
        ensures
            final(self).exe() == old(self).exe(),
            match caught_by(old(self).flags(), error@) {
                Ok(f) => r is Ok && final(self).flags() == f,
                Err(e) => r is Err && r->Err_0@ == e && final(self).flags() == old(self).flags(),
            },
    {
        match error.catch() {
            Err(e) => Err(e),
            Ok(c) => {
                self.reap_catch(c);
                Ok(())
            },
        }
    }
}

/// What a caught error asks to explain: the round arguments, or a flag.
#[derive(Clone, Copy, Debug, PartialEq, Eq)]
pub enum Catch {
    Args,
    Flag(FlagKind),
}

} // verus!
