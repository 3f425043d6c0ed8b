//! The command line, read one argument at a time.
use vstd::prelude::*;
use vstd::string::*;

use crate::error::{
    at_spec, opt_view, ArgError, ArgErrorV, Error, ErrorV, ExpectedArg, InvalidArg,
    InvalidArgV, InvalidFlag,
};
use crate::flag::{flag_named, Flag, FlagKind, FlagName, FlagOption};
use crate::help::{add_all, add_once, caught_by, Help};
use crate::round::{Round, Rounds};
use crate::run::Run;
use crate::text::{chars_of, trim, trim_range};
use crate::token::{parse_round_chars, round_of};

verus! {

/// A flag that still waits for its argument.
#[derive(Clone, Copy, Debug, PartialEq, Eq)]
enum FlagCall {
    File,
}

/// The state of reading a command line.
pub struct Call {
    exe: Option<String>,
    flag_call: Option<FlagCall>,
    flags: Vec<FlagKind>,
    rounds: Rounds,
    file: Option<String>,
    help: Option<Help>,
    rev: bool,
    no: usize,
}

/// What a [`Call`] holds, as a value.
pub struct CallV {
    /// The program's name, once read.
    pub exe: Option<Seq<char>>,
    /// Whether `--file` waits for its path.
    pub pending: bool,
    /// The flags applied so far, in order.
    pub flags: Seq<FlagKind>,
    /// The round selectors; `None` for all rounds.
    pub rounds: Option<Seq<Round>>,
    /// The file named by `--file`.
    pub file: Option<Seq<char>>,
    /// The flags a request for help explains, if help was asked for.
    pub help: Option<Seq<FlagKind>>,
    pub rev: bool,
    /// Number of arguments read after the program's name.
    pub no: usize,
}

/// A flag with its argument, as a value.
pub enum FlagV {
    Help,
    File(Seq<char>),
    Rev,
}

/// What a flag option starts: a flag ready to apply, or `--file` waiting for its path.
pub enum Start {
    Ready(FlagV),
    NeedsPath,
}

pub open spec fn flag_kind_of(f: FlagV) -> FlagKind {
    match f {
        FlagV::Help => FlagKind::Help,
        FlagV::File(_) => FlagKind::File,
        FlagV::Rev => FlagKind::Rev,
    }
}

/// An error taken in by the request for help: the flags it then explains,
/// or the error back where there is no request or it cannot take it in.
pub open spec fn caught(help: Option<Seq<FlagKind>>, e: ArgErrorV) -> Result<Seq<FlagKind>, ArgErrorV> {
    match help {
        None => Err(e),
        Some(h) => caught_by(h, e),
    }
}

/// Applies a flag: `--help` starts or widens the request for help, `--file`
/// sets the file once, `--rev` toggles. A conflict is taken in by help where it can be.
pub open spec fn add_flag_spec(c: CallV, f: FlagV) -> Result<CallV, ArgErrorV> {
    let kind = flag_kind_of(f);
    let added: Result<CallV, ArgErrorV> = match f {
        FlagV::Help => Ok(
            CallV {
                help: Some(
                    match c.help {
                        Some(h) => add_once(h, FlagKind::Help),
                        None => Seq::empty(),
                    },
                ),
                ..c
            },
        ),
        FlagV::File(p) => if c.file is None {
            Ok(CallV { file: Some(p), ..c })
        } else {
            Err(ArgErrorV::InvalidArg(InvalidArgV::InvalidFlag(InvalidFlag::FileAlreadySpecified)))
        },
        FlagV::Rev => Ok(CallV { rev: !c.rev, ..c }),
    };
    match added {
        Ok(c2) => Ok(CallV { flags: c2.flags.push(kind), ..c2 }),
        Err(e) => match caught(c.help, e) {
            Ok(h) => Ok(CallV { help: Some(h), flags: c.flags.push(kind), ..c }),
            Err(e) => Err(e),
        },
    }
}

/// What a flag option starts, or why it cannot be used.
pub open spec fn start_spec(c: CallV, n: FlagName) -> Result<Start, ArgErrorV> {
    match flag_named(n) {
        None => Err(ArgErrorV::InvalidArg(InvalidArgV::NonexistentFlag(n))),
        Some(FlagKind::Help) => if c.rounds is None {
            Ok(Start::Ready(FlagV::Help))
        } else {
            Err(ArgErrorV::InvalidArg(InvalidArgV::InvalidFlag(InvalidFlag::HelpAfterInteger)))
        },
        Some(FlagKind::File) => if c.file is Some {
            Err(ArgErrorV::InvalidArg(InvalidArgV::InvalidFlag(InvalidFlag::FileAlreadySpecified)))
        } else {
            Ok(Start::NeedsPath)
        },
        Some(FlagKind::Rev) => Ok(Start::Ready(FlagV::Rev)),
    }
}

/// Reads one flag option. A `--file` that waited in vain when another
/// starts is an error, which help may take in.
pub open spec fn add_option_spec(c: CallV, n: FlagName) -> Result<CallV, ArgErrorV> {
    match start_spec(c, n) {
        Err(e) => match caught(c.help, e) {
            Ok(h) => Ok(CallV { help: Some(h), ..c }),
            Err(e) => Err(e),
        },
        Ok(Start::Ready(f)) => add_flag_spec(c, f),
        Ok(Start::NeedsPath) => {
            let c2 = CallV { pending: true, ..c };
            if c.pending {
                match caught(c.help, ArgErrorV::ExpectedArg(ExpectedArg::Filename)) {
                    Ok(h) => Ok(CallV { help: Some(h), ..c2 }),
                    Err(e) => Err(e),
                }
            } else {
                Ok(c2)
            }
        },
    }
}

/// Reads the characters of `-abc` as short flags, left to right.
pub open spec fn add_shorts_spec(c: CallV, cs: Seq<char>) -> Result<CallV, ArgErrorV>
    decreases cs.len(),
{
    if cs.len() == 0 {
        Ok(c)
    } else {
        match add_option_spec(c, FlagName::Short(cs[0])) {
            Err(e) => Err(e),
            Ok(c2) => add_shorts_spec(c2, cs.drop_first()),
        }
    }
}

/// Reads one trimmed argument that no flag waits for.
pub open spec fn token_spec(c: CallV, t: Seq<char>) -> Result<CallV, ArgErrorV> {
    if t.len() > 0 && t[0] == '-' {
        let rest = t.drop_first();
        if rest.len() > 0 && rest[0] == '-' {
            add_option_spec(c, FlagName::Long(rest.drop_first()))
        } else {
            add_shorts_spec(c, rest)
        }
    } else if c.help is Some {
        Err(ArgErrorV::InvalidArg(InvalidArgV::IntegerAfterHelp))
    } else {
        match round_of(t) {
            Err(e) => Err(ArgErrorV::InvalidArg(e)),
            Ok(r) => Ok(
                CallV {
                    rounds: Some(
                        match c.rounds {
                            None => seq![r],
                            Some(s) => s.push(r),
                        },
                    ),
                    ..c
                },
            ),
        }
    }
}

/// Reads argument number `c.no`: the path a `--file` waits for, or else
/// flags or a round selector; an error names the argument.
pub open spec fn step_spec(c: CallV, arg: Seq<char>) -> Result<CallV, ErrorV> {
    let r = if c.pending {
        add_flag_spec(CallV { pending: false, ..c }, FlagV::File(arg))
    } else {
        token_spec(c, trim(arg))
    };
    match r {
        Ok(c2) => Ok(c2),
        Err(e) => Err(at_spec(e, c.exe->0, c.no, Some(arg))),
    }
}

/// Reads `args` in order: the first becomes the program's name if none is known yet.
pub open spec fn parse_spec(c: CallV, args: Seq<Seq<char>>) -> Result<CallV, ErrorV>
    decreases args.len(),
{
    if args.len() == 0 {
        Ok(c)
    } else if c.exe is None {
        parse_spec(CallV { exe: Some(args[0]), ..c }, args.drop_first())
    } else {
        match step_spec(CallV { no: (c.no + 1) as usize, ..c }, args[0]) {
            Err(e) => Err(e),
            Ok(c2) => parse_spec(c2, args.drop_first()),
        }
    }
}

/// What a finished call comes to: the query to run.
pub struct RunV {
    pub rounds: Option<Seq<Round>>,
    pub file: Option<Seq<char>>,
    pub rev: bool,
}

/// Ends the command line: a `--file` still waiting is an error unless help
/// takes it in; a request for help then wins, explaining first the flags
/// that were used (but `--help`) and then those it gathered.
pub open spec fn collect_spec(c: CallV) -> Result<RunV, ErrorV> {
    match c.exe {
        None => Err(ErrorV::NoExecutable),
        Some(exe) => {
            let c2: Result<CallV, ErrorV> = if c.pending {
                match caught(c.help, ArgErrorV::ExpectedArg(ExpectedArg::Filename)) {
                    Ok(h) => Ok(CallV { help: Some(h), pending: false, ..c }),
                    Err(e) => Err(at_spec(e, exe, c.no, None)),
                }
            } else {
                Ok(c)
            };
            match c2 {
                Err(e) => Err(e),
                Ok(c2) => match c2.help {
                    Some(h) => Err(
                        ErrorV::ShowHelp {
                            exe,
                            flags: add_all(c2.flags.filter(|k: FlagKind| k != FlagKind::Help), h),
                        },
                    ),
                    None => Ok(RunV { rounds: c2.rounds, file: c2.file, rev: c2.rev }),
                },
            }
        },
    }
}

pub open spec fn args_view(args: Seq<String>) -> Seq<Seq<char>> {
    args.map_values(|a: String| a@)
}

/// The state before any argument.
pub open spec fn fresh() -> CallV {
    CallV {
        exe: None,
        pending: false,
        flags: Seq::empty(),
        rounds: None,
        file: None,
        help: None,
        rev: false,
        no: 0,
    }
}

impl View for Call {
    type V = CallV;

    closed spec fn view(&self) -> CallV {
        CallV {
            exe: opt_view(self.exe),
            pending: self.flag_call is Some,
            flags: self.flags@,
            rounds: self.rounds.listed(),
            file: opt_view(self.file),
            help: match self.help {
                Some(h) => Some(h.flags()),
                None => None,
            },
            rev: self.rev,
            no: self.no,
        }
    }
}

impl Call {
    /// The request for help, if any, was made by the program named in the call.
    pub closed spec fn wf(&self) -> bool {
        &&& self.rounds.wf()
        &&& self.help is Some ==> self.exe is Some && self.help->0.exe() == self.exe->0@
    }

    pub fn new() -> (r: Self)
        ensures
            r@ == fresh(),
            r.wf(),
    {
        Call {
            exe: None,
            flag_call: None,
            flags: Vec::new(),
            rounds: Rounds::All,
            file: None,
            help: None,
            rev: false,
            no: 0,
        }
    }

    /// Reads a whole command line, the program's name first.
    pub fn from_args(args: Vec<String>) -> (r: Result<Self, Error>)
        ensures
            match parse_spec(fresh(), args_view(args@)) {
                Ok(c) => r is Ok && r->Ok_0@ == c && r->Ok_0.wf(),
                Err(e) => r is Err && r->Err_0@ == e,
            },
    {
        let mut call = Self::new();
        let n = args.len();
        match call.parse(args) {
            Ok(()) => Ok(call),
            Err(e) => Err(e),
        }
    }

    /// Takes in `e` where a request for help can explain it instead.
    fn catch(&mut self, e: ArgError) -> (r: Result<(), ArgError>)
        requires
            old(self).wf(),
        ensures
            final(self).wf(),
            match caught(old(self)@.help, e@) {
                Ok(h) => r is Ok && final(self)@ == (CallV { help: Some(h), ..old(self)@ }),
                Err(e2) => r is Err && r->Err_0@ == e2 && final(self)@ == old(self)@,
            },
    {
        match self.help.take() {
            None => Err(e),
            Some(mut help) => {
                let r = help.catch(e);
                self.help = Some(help);
                r
            },
        }
    }

    /// Applies a flag with its argument.
    fn add_flag(&mut self, flag: Flag) -> (r: Result<(), ArgError>)
        requires
            old(self).wf(),
            flag matches Flag::Help(h) ==> old(self).exe is Some && h.exe() == old(self).exe->0@
                && h.flags() == Seq::<FlagKind>::empty(),
        ensures
            final(self).wf(),
            match add_flag_spec(old(self)@, flag_view(flag)) {
                Ok(c) => r is Ok && final(self)@ == c,
                Err(e) => r is Err && r->Err_0@ == e,
            },
    {
        let kind = flag.kind();
        let added: Result<(), ArgError> = match flag {
            Flag::Help(h) => {
                match self.help.take() {
                    Some(mut mine) => {
                        mine.and(h);
                        self.help = Some(mine);
                    },
                    None => {
                        self.help = Some(h);
                    },
                }
                Ok(())
            },
            Flag::File(path) => {
                if self.file.is_none() {
                    self.file = Some(path);
                    Ok(())
                } else {
                    Err(ArgError::InvalidArg(InvalidArg::InvalidFlag { error: InvalidFlag::FileAlreadySpecified }))
                }
            },
            Flag::Rev => {
                self.rev = !self.rev;
                Ok(())
            },
        };
        match added {
            Ok(()) => {},
            Err(e) => {
                match self.catch(e) {
                    Ok(()) => {},
                    Err(e) => return Err(e),
                }
            },
        }
        self.flags.push(kind);
        Ok(())
    }

    /// What a flag option starts: a flag ready to apply, or `--file` waiting for its path.
    fn start_flag(&self, opt: FlagOption, exe: &String) -> (r: Result<Result<Flag, FlagCall>, ArgError>)
        requires
            self.wf(),
            self@.exe == Some(exe@),
        ensures
            match start_spec(self@, opt@) {
                Ok(Start::Ready(f)) => r is Ok && r->Ok_0 is Ok && flag_view(r->Ok_0->Ok_0) == f
                    && (r->Ok_0->Ok_0 matches Flag::Help(h) ==> h.exe() == exe@ && h.flags()
                    == Seq::<FlagKind>::empty()),
                Ok(Start::NeedsPath) => r is Ok && r->Ok_0 is Err,
                Err(e) => r is Err && r->Err_0@ == e,
            },
    {
        let kind = match FlagKind::named(&opt) {
            Some(k) => k,
            None => return Err(ArgError::InvalidArg(InvalidArg::NonexistentFlag { flag: opt })),
        };
        match kind {
            FlagKind::Help => if let Rounds::All = self.rounds {
                Ok(Ok(Flag::Help(Help::new(exe.clone()))))
            } else {
                Err(ArgError::InvalidArg(InvalidArg::InvalidFlag { error: InvalidFlag::HelpAfterInteger }))
            },
            FlagKind::File => if self.file.is_some() {
                Err(ArgError::InvalidArg(InvalidArg::InvalidFlag { error: InvalidFlag::FileAlreadySpecified }))
            } else {
                Ok(Err(FlagCall::File))
            },
            FlagKind::Rev => Ok(Ok(Flag::Rev)),
        }
    }

    /// Reads one flag option.
    fn add_flag_option(&mut self, opt: FlagOption, exe: &String) -> (r: Result<(), ArgError>)
        requires
            old(self).wf(),
            old(self)@.exe == Some(exe@),
        ensures
            final(self).wf(),
            r is Ok ==> final(self)@.exe == old(self)@.exe && final(self)@.no == old(self)@.no,
            match add_option_spec(old(self)@, opt@) {
                Ok(c) => r is Ok && final(self)@ == c,
                Err(e) => r is Err && r->Err_0@ == e,
            },
    {
        let ghost n = opt@;
        match self.start_flag(opt, exe) {
            Err(e) => self.catch(e),
            Ok(Ok(flag)) => self.add_flag(flag),
            Ok(Err(flag_call)) => {
                let waiting = self.flag_call.is_some();
                self.flag_call = Some(flag_call);
                if waiting {
                    self.catch(ArgError::ExpectedArg(ExpectedArg::Filename))
                } else {
                    Ok(())
                }
            },
        }
    }

    /// Reads one trimmed argument, `arg[a..b]`, that no flag waits for.
    fn parse_trimmed(&mut self, arg: &str, chars: &Vec<char>, a: usize, b: usize, exe: &String) -> (r: Result<(), ArgError>)
        requires
            old(self).wf(),
            old(self)@.exe == Some(exe@),
            chars@ == arg@,
            a <= b <= chars@.len(),
        ensures
            final(self).wf(),
            r is Ok ==> final(self)@.exe == old(self)@.exe && final(self)@.no == old(self)@.no,
            match token_spec(old(self)@, chars@.subrange(a as int, b as int)) {
                Ok(c) => r is Ok && final(self)@ == c,
                Err(e) => r is Err && r->Err_0@ == e,
            },
    {
        let ghost t = chars@.subrange(a as int, b as int);
        if a < b && chars[a] == '-' {
            assert(t[0] == chars@[a as int]);
            let ghost rest = t.drop_first();
            if a + 1 < b && chars[a + 1] == '-' {
                assert(rest[0] == chars@[a + 1]);
                let name = String::from_str(arg.substring_char(a + 2, b));
                assert(name@ =~= rest.drop_first());
                self.add_flag_option(FlagOption::Long(name), exe)
            } else {
                assert(rest.len() == 0 || rest[0] != '-') by {
                    if rest.len() > 0 {
                        assert(rest[0] == chars@[a + 1]);
                    }
                }
                assert(token_spec(old(self)@, t) == add_shorts_spec(old(self)@, rest));
                let mut i: usize = a + 1;
                assert(rest =~= chars@.subrange(i as int, b as int));
                while i < b
                    invariant
                        a < i <= b,
                        b <= chars@.len(),
                        self.wf(),
                        self@.exe == old(self)@.exe,
                        self@.no == old(self)@.no,
                        old(self)@.exe == Some(exe@),
                        t == chars@.subrange(a as int, b as int),
                        token_spec(old(self)@, t) == add_shorts_spec(old(self)@, rest),
                        add_shorts_spec(old(self)@, rest) == add_shorts_spec(self@, chars@.subrange(i as int, b as int)),
                    decreases b - i,
                {
                    let ghost cs = chars@.subrange(i as int, b as int);
                    assert(cs[0] == chars@[i as int]);
                    assert(cs.drop_first() =~= chars@.subrange(i + 1, b as int));
                    let ghost before = self@;
                    match self.add_flag_option(FlagOption::Short(chars[i]), exe) {
                        Ok(()) => {},
                        Err(e) => {
                            assert(add_shorts_spec(before, cs) == Err::<CallV, ArgErrorV>(e@));
                            assert(token_spec(old(self)@, t) == Err::<CallV, ArgErrorV>(e@));
                            return Err(e);
                        },
                    }
                    i += 1;
                }
                assert(chars@.subrange(i as int, b as int).len() == 0);
                Ok(())
            }
        } else if self.help.is_some() {
            Err(ArgError::InvalidArg(InvalidArg::IntegerAfterHelp))
        } else {
            let tc = crate::text::slice_chars(chars.as_slice(), a, b);
            match parse_round_chars(tc.as_slice()) {
                Err(e) => Err(ArgError::InvalidArg(e)),
                Ok(round) => {
                    self.rounds.add_round(round);
                    Ok(())
                },
            }
        }
    }

    /// Reads the next argument after the program's name.
    fn step(&mut self, arg: String) -> (r: Result<(), Error>)
        requires
            old(self).wf(),
            old(self).exe is Some,
        ensures
            final(self).wf(),
            r is Ok ==> final(self)@.exe == old(self)@.exe && final(self)@.no == old(self)@.no,
            match step_spec(old(self)@, arg@) {
                Ok(c) => r is Ok && final(self)@ == c,
                Err(e) => r is Err && r->Err_0@ == e,
            },
    {
        let exe: String = match &self.exe {
            Some(e) => e.clone(),
            None => String::new(),
        };
        let no = self.no;
        if self.flag_call.is_some() {
            self.flag_call = None;
            let path = arg.clone();
            match self.add_flag(Flag::File(path)) {
                Ok(()) => Ok(()),
                Err(e) => Err(e.at(exe, no, Some(arg))),
            }
        } else {
            let chars = chars_of(arg.as_str());
            let (a, b) = trim_range(chars.as_slice());
            match self.parse_trimmed(arg.as_str(), &chars, a, b, &exe) {
                Ok(()) => Ok(()),
                Err(e) => Err(e.at(exe, no, Some(arg))),
            }
        }
    }

    /// Reads `args` in order, the program's name first unless it is known.
    pub fn parse(&mut self, args: Vec<String>) -> (r: Result<(), Error>)
        requires
            old(self).wf(),
            old(self)@.no + args@.len() <= usize::MAX,
        ensures
            final(self).wf(),
            match parse_spec(old(self)@, args_view(args@)) {
                Ok(c) => r is Ok && final(self)@ == c,
                Err(e) => r is Err && r->Err_0@ == e,
            },
    {
        let ghost all = args_view(args@);
        let mut i: usize = 0;
        assert(all.subrange(0, all.len() as int) =~= all);
        while i < args.len()
            invariant
                self.wf(),
                i <= args@.len(),
                all == args_view(args@),
                self@.no + (args@.len() - i) <= usize::MAX,
                parse_spec(old(self)@, all) == parse_spec(self@, all.subrange(i as int, all.len() as int)),
            decreases args@.len() - i,
        {
            let ghost rest = all.subrange(i as int, all.len() as int);
            assert(rest[0] == args@[i as int]@);
            assert(rest.drop_first() =~= all.subrange(i + 1, all.len() as int));
            let arg = args[i].clone();
            i += 1;
            if self.exe.is_none() {
                self.exe = Some(arg);
            } else {
                self.no = self.no + 1;
                match self.step(arg) {
                    Ok(()) => {},
                    Err(e) => return Err(e),
                }
            }
        }
        assert(all.subrange(i as int, all.len() as int).len() == 0);
        Ok(())
    }

    /// Ends the command line: the query to run, or why there is none.
    pub fn collect(self) -> (r: Result<Run, Error>)
        requires
            self.wf(),
        ensures
            match collect_spec(self@) {
                Ok(q) => r is Ok && r->Ok_0@ == q && r->Ok_0.wf(),
                Err(e) => r is Err && r->Err_0@ == e,
            },
    {
        let mut call = self;
        let exe: String = match &call.exe {
            Some(e) => e.clone(),
            None => return Err(Error::NoExecutable),
        };
        assert(exe@ == self@.exe->0);
        if call.flag_call.is_some() {
            call.flag_call = None;
            let ghost before = call@;
            assert(before.help == self@.help);
            match call.catch(ArgError::ExpectedArg(ExpectedArg::Filename)) {
                Ok(()) => {},
                Err(e) => {
                    let no = call.no;
                    assert(no == self@.no);
                    let r = e.at(exe, no, None);
                    assert(caught(self@.help, ArgErrorV::ExpectedArg(ExpectedArg::Filename)) == Err::<Seq<FlagKind>, ArgErrorV>(e@));
                    assert(r@ == at_spec(e@, self@.exe->0, self@.no, None));
                    return Err(r);
                },
            }
        }
        let Call { exe: _, flag_call: _, flags, rounds, file, help, rev, no: _ } = call;
        match help {
            Some(mut help) => {
                let mut kept: Vec<FlagKind> = Vec::new();
                let mut i: usize = 0;
                while i < flags.len()
                    invariant
                        i <= flags@.len(),
                        kept@ == flags@.subrange(0, i as int).filter(|k: FlagKind| k != FlagKind::Help),
                    decreases flags@.len() - i,
                {
                    proof {
                        reveal_with_fuel(Seq::filter, 1);
                        assert(flags@.subrange(0, i + 1).drop_last() =~= flags@.subrange(0, i as int));
                    }
                    if flags[i] != FlagKind::Help {
                        kept.push(flags[i]);
                    }
                    i += 1;
                }
                assert(flags@.subrange(0, i as int) =~= flags@);
                help.prepend_flags(kept);
                Err(Error::ShowHelp { help })
            },
            None => Ok(Run::new(rounds, file, rev)),
        }
    }
}

/// What a [`Flag`] says, as a value.
pub open spec fn flag_view(f: Flag) -> FlagV {
    match f {
        Flag::Help(_) => FlagV::Help,
        Flag::File(p) => FlagV::File(p@),
        Flag::Rev => FlagV::Rev,
    }
}

} // verus!
