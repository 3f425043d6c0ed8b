//! The command-line flags.
use vstd::prelude::*;

use crate::help::Help;

verus! {

/// The flags this program knows.
#[derive(Clone, Copy, Debug, PartialEq, Eq, Structural)]
pub enum FlagKind {
    Help,
    File,
    Rev,
}

/// A flag as written: `--name` or one character of `-abc`.
#[derive(Clone, Debug)]
pub enum FlagOption {
    Long(String),
    Short(char),
}

/// What a [`FlagOption`] says, as a value.
pub enum FlagName {
    Long(Seq<char>),
    Short(char),
}

impl View for FlagOption {
    type V = FlagName;

    open spec fn view(&self) -> FlagName {
        match self {
            FlagOption::Long(s) => FlagName::Long(s@),
            FlagOption::Short(c) => FlagName::Short(*c),
        }
    }
}

/// The long name of a flag.
pub open spec fn long_name(k: FlagKind) -> Seq<char> {
    match k {
        FlagKind::Help => seq!['h', 'e', 'l', 'p'],
        FlagKind::File => seq!['f', 'i', 'l', 'e'],
        FlagKind::Rev => seq!['r', 'e', 'v'],
    }
}

/// The short name of a flag: the first character of its long name.
pub open spec fn short_name(k: FlagKind) -> char {
    long_name(k)[0]
}

/// The flag a name stands for, if any.
pub open spec fn flag_named(n: FlagName) -> Option<FlagKind> {
    let matches = |k: FlagKind|
        match n {
            FlagName::Long(s) => s == long_name(k),
            FlagName::Short(c) => c == short_name(k),
        };
    if matches(FlagKind::Help) {
        Some(FlagKind::Help)
    } else if matches(FlagKind::File) {
        Some(FlagKind::File)
    } else if matches(FlagKind::Rev) {
        Some(FlagKind::Rev)
    } else {
        None
    }
}

impl FlagKind {
    /// All flags, in the order they are listed.
    pub fn variants() -> (r: Vec<FlagKind>)
        ensures
            r@ == seq![FlagKind::Help, FlagKind::File, FlagKind::Rev],
    {
        vec![FlagKind::Help, FlagKind::File, FlagKind::Rev]
    }

    /// The long name, as written after `--`.
    pub fn option(self) -> (r: &'static str)
        ensures
            r@ == long_name(self),
    {
        proof {
            reveal_strlit("help");
            reveal_strlit("file");
            reveal_strlit("rev");
        }
        match self {
            FlagKind::Help => "help",
            FlagKind::File => "file",
            FlagKind::Rev => "rev",
        }
    }

    /// The short name, as written after `-`.
    pub fn option_short(self) -> (r: char)
        ensures
            r == short_name(self),
    {
        match self {
            FlagKind::Help => 'h',
            FlagKind::File => 'f',
            FlagKind::Rev => 'r',
        }
    }

    fn has_long_name(self, name: &[char]) -> (r: bool)
        ensures
            r == (name@ == long_name(self)),
    {
        let expected = self.option();
        let n = name.len();
        if n != expected.unicode_len() {
            return false;
        }
        let mut i: usize = 0;
        while i < n
            invariant
                n == name@.len(),
                n == expected@.len(),
                expected@ == long_name(self),
                i <= n,
                name@.subrange(0, i as int) == long_name(self).subrange(0, i as int),
            decreases n - i,
        {
            if name[i] != expected.get_char(i) {
                return false;
            }
            assert(name@.subrange(0, i + 1) =~= long_name(self).subrange(0, i + 1)) by {
                assert(name@.subrange(0, i + 1) =~= name@.subrange(0, i as int).push(name@[i as int]));
                assert(long_name(self).subrange(0, i + 1) =~= long_name(self).subrange(0, i as int).push(long_name(self)[i as int]));
            }
            i += 1;
        }
        assert(name@ =~= name@.subrange(0, n as int));
        assert(long_name(self) =~= long_name(self).subrange(0, n as int));
        true
    }

    fn is_named(self, opt: &FlagOption) -> (r: bool)
        ensures
            r == match opt@ {
                FlagName::Long(s) => s == long_name(self),
                FlagName::Short(c) => c == short_name(self),
            },
    {
        match opt {
            FlagOption::Long(s) => {
                let chars = crate::text::chars_of(s.as_str());
                self.has_long_name(chars.as_slice())
            },
            FlagOption::Short(c) => *c == self.option_short(),
        }
    }

    /// The flag that `opt` names, if any.
    pub fn named(opt: &FlagOption) -> (r: Option<FlagKind>)
        ensures
            r == flag_named(opt@),
    {
        let kinds = Self::variants();
        let mut i: usize = 0;
        while i < kinds.len()
            invariant
                kinds@ == seq![FlagKind::Help, FlagKind::File, FlagKind::Rev],
                i <= 3,
                forall|j: int| 0 <= j < i ==> flag_named(opt@) != Some(#[trigger] kinds@[j]) && !(match opt@ {
                    FlagName::Long(s) => s == long_name(kinds@[j]),
                    FlagName::Short(c) => c == short_name(kinds@[j]),
                }),
            decreases 3 - i,
        {
            if kinds[i].is_named(opt) {
                return Some(kinds[i]);
            }
            i += 1;
        }
        None
    }
}

/// A flag with its argument, ready to apply.
pub enum Flag {
    Help(Help),
    File(String),
    Rev,
}

impl Flag {
    pub open spec fn kind_spec(&self) -> FlagKind {
        match self {
            Flag::Help(_) => FlagKind::Help,
            Flag::File(_) => FlagKind::File,
            Flag::Rev => FlagKind::Rev,
        }
    }

    pub fn kind(&self) -> (r: FlagKind)
        ensures
            r == self.kind_spec(),
    {
        match self {
            Flag::Help(_) => FlagKind::Help,
            Flag::File(_) => FlagKind::File,
            Flag::Rev => FlagKind::Rev,
        }
    }
}

} // verus!
