use poengsum::call::Call;
use poengsum::error::{ArgError, Error, ExpectedArg, InsufficientData, InvalidArg, InvalidCall, InvalidFlag};
use poengsum::flag::{FlagKind, FlagOption};
use poengsum::help::{Catch, Help};
use poengsum::record::{InvalidSyntax, Record, RecordParser, Records};
use poengsum::round::{BoundedRound, BoundedRounds, Round, Rounds, SomeRounds};
use poengsum::run::{Run, DEFAULT_FILE_PATH};
use poengsum::score::{checked_signed_diff, Score, Scores};
use poengsum::text::{parse_usize, IntError};
use poengsum::token::parse_round;

fn args(list: &[&str]) -> Vec<String> {
    list.iter().map(|s| s.to_string()).collect()
}

fn records(rows: &[(&str, &[i32])]) -> Records {
    let list: Vec<Record> = rows
        .iter()
        .map(|(team, points)| Record { team: team.to_string(), points: points.to_vec() })
        .collect();
    Records::collect_from(list).unwrap()
}

fn run_of(list: &[&str]) -> Result<Run, Error> {
    Call::from_args(args(list))?.collect()
}

fn board(rows: &[(&str, &[i32])], list: &[&str]) -> Result<Scores, Error> {
    run_of(list)?.scores(&records(rows))
}

fn row<'a>(scores: &'a Scores, team: &str) -> &'a Score {
    scores.rows().iter().find(|s| s.team == team).unwrap()
}

fn three_rounds() -> Records {
    records(&[("Alpha", &[10, 5, 7]), ("Beta", &[20, 1, 3]), ("Gamma", &[0, 30, 2])])
}

#[test]
fn it_works() {
    let calls: [&[&str]; 9] = [
        &["poengsum"],
        &["poengsum", "1"],
        &["poengsum", "2"],
        &["poengsum", "3"],
        &["poengsum", "1", "2"],
        &["poengsum", "2", "3"],
        &["poengsum", "1", "2", "3"],
        &["poengsum", "--file", "poengsum.txt"],
        &["poengsum", "-f", "poengsum.txt"],
    ];
    for list in calls {
        let run = run_of(list).unwrap();
        if list.len() == 3 && list[2] == "poengsum.txt" {
            assert_eq!(run.file_path(), "poengsum.txt");
        } else {
            assert_eq!(run.file_path(), DEFAULT_FILE_PATH);
        }
        assert!(run.scores(&three_rounds()).is_ok());
    }
}

#[test]
fn single_round_numbers() {
    assert_eq!(parse_round("1").unwrap(), Round::One(0));
    assert_eq!(parse_round("3").unwrap(), Round::One(2));
    assert_eq!(parse_round(" 12 ").unwrap(), Round::One(11));
    assert_eq!(parse_round("+4").unwrap(), Round::One(3));
    assert!(matches!(parse_round("0"), Err(InvalidArg::RoundZero)));
    assert!(matches!(parse_round("abc"), Err(InvalidArg::CannotParseInteger { error: IntError::InvalidDigit })));
    assert!(matches!(parse_round(""), Err(InvalidArg::CannotParseInteger { error: IntError::Empty })));
    assert!(matches!(parse_round("-"), Err(InvalidArg::CannotParseInteger { error: IntError::InvalidDigit })));
    assert!(matches!(
        parse_round("99999999999999999999"),
        Err(InvalidArg::CannotParseInteger { error: IntError::Overflow })
    ));
}

#[test]
fn range_tokens() {
    assert_eq!(parse_round("2..5").unwrap(), Round::Range { start: Some(1), end: Some(4) });
    assert_eq!(parse_round("3..3").unwrap(), Round::Range { start: Some(2), end: Some(2) });
    assert!(matches!(parse_round("5..2"), Err(InvalidArg::NotInOrder { start: 5, end: 2 })));
    assert_eq!(parse_round("..").unwrap(), Round::Range { start: None, end: None });
    assert_eq!(parse_round("2..").unwrap(), Round::Range { start: Some(1), end: None });
    assert_eq!(parse_round("..3").unwrap(), Round::Range { start: None, end: Some(2) });
    assert_eq!(parse_round(" 2 .. 4 ").unwrap(), Round::Range { start: Some(1), end: Some(3) });
    assert!(matches!(parse_round("1.5"), Err(InvalidArg::UseTwoDots)));
    assert!(matches!(parse_round("0..2"), Err(InvalidArg::RoundZero)));
    assert!(matches!(parse_round("1...2"), Err(InvalidArg::CannotParseInteger { error: IntError::InvalidDigit })));
}

#[test]
fn chained_ranges() {
    assert_eq!(parse_round("1..3..5").unwrap(), Round::Range { start: Some(0), end: Some(4) });
    assert!(matches!(parse_round("3..5..2"), Err(InvalidArg::NotInOrder { start: 5, end: 2 })));
    assert!(matches!(parse_round("5....3"), Err(InvalidArg::NotInOrder { start: 5, end: 3 })));
    assert_eq!(parse_round("2....7").unwrap(), Round::Range { start: Some(1), end: Some(6) });
}

#[test]
fn decimal_reading() {
    assert_eq!(parse_usize(&['4', '2']).unwrap(), 42);
    assert_eq!(parse_usize(&['+', '7']).unwrap(), 7);
    assert_eq!(parse_usize(&['1', '8', '4', '4', '6', '7', '4', '4', '0', '7', '3', '7', '0', '9', '5', '5', '1', '6', '1', '5']).unwrap(), usize::MAX);
    assert_eq!(
        parse_usize(&['1', '8', '4', '4', '6', '7', '4', '4', '0', '7', '3', '7', '0', '9', '5', '5', '1', '6', '1', '6']),
        Err(IntError::Overflow)
    );
    assert_eq!(parse_usize(&['9', '9', '9', '9', '9', '9', '9', '9', '9', '9', '9', '9', '9', '9', '9', '9', '9', '9', '9', '9', 'x']), Err(IntError::Overflow));
    assert_eq!(parse_usize(&['1', 'x']), Err(IntError::InvalidDigit));
}

#[test]
fn resolve_all_rounds() {
    let b = Rounds::All.bound(Some(2)).unwrap();
    assert_eq!(b.rounds(), &vec![BoundedRound::Range { start: 0, end: 2 }]);
    let b = Rounds::All.bound(Some(0)).unwrap();
    assert_eq!(b.rounds(), &vec![BoundedRound::One(0)]);
    assert!(matches!(Rounds::All.bound(None), Err(InsufficientData::NoRoundsYet)));
}

#[test]
fn resolve_single_rounds() {
    assert_eq!(Round::One(1).bound(Some(2)).unwrap(), BoundedRound::One(1));
    assert_eq!(Round::One(2).bound(Some(2)).unwrap(), BoundedRound::One(2));
    assert_eq!(Round::One(3).bound(Some(2)), Err(InsufficientData::RoundNotYet { round: 4, final_round: 3 }));
    assert_eq!(Round::One(0).bound(None), Err(InsufficientData::NoRoundsYet));
    let open = Round::Range { start: Some(1), end: None };
    assert_eq!(open.bound(Some(4)).unwrap(), BoundedRound::Range { start: 1, end: 4 });
    let up_to = Round::Range { start: None, end: Some(0) };
    assert_eq!(up_to.bound(Some(4)).unwrap(), BoundedRound::One(0));
    let late = Round::Range { start: Some(1), end: Some(9) };
    assert_eq!(late.bound(Some(4)), Err(InsufficientData::RoundNotYet { round: 10, final_round: 5 }));
}

#[test]
fn listed_rounds_resolve_in_order() {
    let mut rounds = Rounds::All;
    rounds.add_round(Round::One(0));
    rounds.add_round(Round::Range { start: Some(1), end: None });
    let b = rounds.bound(Some(3)).unwrap();
    assert_eq!(b.rounds(), &vec![BoundedRound::One(0), BoundedRound::Range { start: 1, end: 3 }]);
    let mut some = SomeRounds::new(Round::One(5));
    some.add_round(Round::One(0));
    assert_eq!(some.rounds().len(), 2);
    assert_eq!(Rounds::Listed(some).bound(Some(3)).unwrap_err(), InsufficientData::RoundNotYet { round: 6, final_round: 4 });
}

#[test]
fn bounded_rounds_need_one() {
    assert_eq!(BoundedRounds::new(vec![]).unwrap_err(), InsufficientData::NoRoundsQueried);
    assert_eq!(BoundedRounds::try_new(vec![]).unwrap_err(), InsufficientData::NoRoundsQueried);
    let err = BoundedRounds::try_new(vec![Ok(BoundedRound::One(0)), Err(InsufficientData::NoRoundsYet)]);
    assert_eq!(err.unwrap_err(), InsufficientData::NoRoundsYet);
}

#[test]
fn undo_one_round() {
    assert_eq!(BoundedRound::Range { start: 0, end: 3 }.undo(), Some(BoundedRound::Range { start: 0, end: 2 }));
    assert_eq!(BoundedRound::Range { start: 0, end: 1 }.undo(), Some(BoundedRound::One(0)));
    assert_eq!(BoundedRound::Range { start: 4, end: 2 }.undo(), Some(BoundedRound::Range { start: 4, end: 3 }));
    assert_eq!(BoundedRound::Range { start: 2, end: 2 }.undo(), None);
    assert_eq!(BoundedRound::One(3).undo(), None);
    assert_eq!(BoundedRound::new(2, Some(2)), BoundedRound::One(2));
    assert_eq!(BoundedRound::new(2, None), BoundedRound::One(2));

    let single = BoundedRounds::new(vec![BoundedRound::One(0)]).unwrap();
    assert!(single.undo().is_none());
    let two = BoundedRounds::new(vec![BoundedRound::One(0), BoundedRound::One(2)]).unwrap();
    assert_eq!(two.undo().unwrap().rounds(), &vec![BoundedRound::One(0)]);
    let range = BoundedRounds::new(vec![BoundedRound::Range { start: 0, end: 1 }]).unwrap();
    assert_eq!(range.undo().unwrap().rounds(), &vec![BoundedRound::One(0)]);
}

#[test]
fn one_round_scenario() {
    let scores = board(&[("A", &[10]), ("B", &[20])], &["poengsum"]).unwrap();
    let rows = scores.rows();
    assert_eq!((rows[0].team.as_str(), rows[0].uid), ("B", 1));
    assert_eq!((rows[0].place, rows[0].points, rows[0].climb), (1, 20, 0));
    assert_eq!(rows[1].team, "A");
    assert_eq!((rows[1].place, rows[1].points, rows[1].climb), (2, 10, 0));
}

#[test]
fn two_round_scenario() {
    let scores = board(&[("A", &[10, 5]), ("B", &[20, 30])], &["poengsum"]).unwrap();
    let order: Vec<(&str, usize)> = scores.rows().iter().map(|s| (s.team.as_str(), s.uid)).collect();
    assert_eq!(order, vec![("B", 1), ("A", 0)]);
    let a = row(&scores, "A");
    let b = row(&scores, "B");
    assert_eq!((a.points, a.place, a.climb), (15, 2, 0));
    assert_eq!((b.points, b.place, b.climb), (50, 1, 0));
}

#[test]
fn scores_repeat_exactly() {
    let data = three_rounds();
    let first = run_of(&["poengsum", "1..3"]).unwrap().scores(&data).unwrap();
    let second = run_of(&["poengsum", "1..3"]).unwrap().scores(&data).unwrap();
    for (x, y) in first.rows().iter().zip(second.rows().iter()) {
        assert_eq!((x.points, x.place, x.climb, x.uid), (y.points, y.place, y.climb, y.uid));
    }
}

#[test]
fn ties_share_a_rank() {
    let scores = board(&[("A", &[10]), ("B", &[10]), ("C", &[8]), ("D", &[12])], &["poengsum"]).unwrap();
    assert_eq!(row(&scores, "D").place, 1);
    assert_eq!(row(&scores, "A").place, 2);
    assert_eq!(row(&scores, "B").place, 2);
    assert_eq!(row(&scores, "C").place, 4);
}

#[test]
fn climb_sign() {
    // After round 1: A first, B second, C third. After round 2: C first, B second, A third.
    let scores = board(&[("A", &[30, 0]), ("B", &[20, 15]), ("C", &[10, 40])], &["poengsum"]).unwrap();
    assert_eq!(row(&scores, "C").climb, 2);
    assert_eq!(row(&scores, "B").climb, 0);
    assert_eq!(row(&scores, "A").climb, -2);
}

#[test]
fn climb_against_earlier_selection() {
    // Rounds 1 and 3 against round 1 alone.
    let scores = board(&[("A", &[5, 0, 1]), ("B", &[4, 0, 9])], &["poengsum", "1", "3"]).unwrap();
    assert_eq!((row(&scores, "A").points, row(&scores, "A").climb), (6, -1));
    assert_eq!((row(&scores, "B").points, row(&scores, "B").climb), (13, 1));
}

#[test]
fn missing_rounds_count_nothing() {
    let scores = board(&[("A", &[1, 2, 3]), ("B", &[10])], &["poengsum", "2..3"]).unwrap();
    assert_eq!(row(&scores, "A").points, 5);
    assert_eq!(row(&scores, "B").points, 0);
    let twice = board(&[("A", &[1, 2, 3])], &["poengsum", "2", "2"]).unwrap();
    assert_eq!(row(&twice, "A").points, 4);
}

#[test]
fn round_zero_is_refused() {
    match run_of(&["poengsum", "0"]) {
        Err(Error::InvalidCall { exe, no, error: InvalidCall::InvalidArg { arg, error: InvalidArg::RoundZero } }) => {
            assert_eq!(exe, "poengsum");
            assert_eq!(no, 1);
            assert_eq!(arg.as_deref(), Some("0"));
        },
        _ => panic!("expected round zero"),
    }
}

#[test]
fn round_not_yet_played() {
    let data = records(&[("A", &[1, 2]), ("B", &[3])]);
    let result = run_of(&["poengsum", "3"]).unwrap().scores(&data);
    assert!(matches!(
        result,
        Err(Error::InsufficientData { error: InsufficientData::RoundNotYet { round: 3, final_round: 2 } })
    ));
    let empty = records(&[("A", &[]), ("B", &[])]);
    let result = run_of(&["poengsum"]).unwrap().scores(&empty);
    assert!(matches!(result, Err(Error::InsufficientData { error: InsufficientData::NoRoundsYet })));
}

#[test]
fn help_with_file_flag() {
    match run_of(&["poengsum", "--help", "--file"]) {
        Err(Error::ShowHelp { help }) => {
            assert_eq!(help.exe_name(), "poengsum");
            assert_eq!(help.flag_list(), &vec![FlagKind::File]);
        },
        _ => panic!("expected help"),
    }
}

#[test]
fn help_alone_and_twice() {
    match run_of(&["poengsum", "-h"]) {
        Err(Error::ShowHelp { help }) => assert!(help.flag_list().is_empty()),
        _ => panic!("expected help"),
    }
    match run_of(&["poengsum", "--help", "--help"]) {
        Err(Error::ShowHelp { help }) => assert_eq!(help.flag_list(), &vec![FlagKind::Help]),
        _ => panic!("expected help"),
    }
    match run_of(&["poengsum", "--rev", "--help", "-f", "x"]) {
        Err(Error::ShowHelp { help }) => assert_eq!(help.flag_list(), &vec![FlagKind::Rev, FlagKind::File]),
        _ => panic!("expected help"),
    }
}

#[test]
fn help_takes_in_conflicts() {
    match run_of(&["poengsum", "--help", "-f", "a", "-f"]) {
        Err(Error::ShowHelp { help }) => assert_eq!(help.flag_list(), &vec![FlagKind::File]),
        _ => panic!("expected help"),
    }
    // After help, a bare word reads as a round argument, which help cannot take in.
    assert!(matches!(
        run_of(&["poengsum", "--help", "-f", "a", "-f", "b"]),
        Err(Error::InvalidCall { no: 5, error: InvalidCall::InvalidArg { error: InvalidArg::IntegerAfterHelp, .. }, .. })
    ));
    match run_of(&["poengsum", "--help", "--nope"]) {
        Err(Error::InvalidCall { no: 2, error: InvalidCall::InvalidArg { error: InvalidArg::NonexistentFlag { flag: FlagOption::Long(name) }, .. }, .. }) => {
            assert_eq!(name, "nope")
        },
        _ => panic!("expected an unknown flag"),
    }
    assert!(matches!(
        run_of(&["poengsum", "--help", "1"]),
        Err(Error::InvalidCall { no: 2, error: InvalidCall::InvalidArg { error: InvalidArg::IntegerAfterHelp, .. }, .. })
    ));
}

#[test]
fn flag_errors() {
    assert!(matches!(
        run_of(&["poengsum", "1", "--help"]),
        Err(Error::InvalidCall { no: 2, error: InvalidCall::InvalidArg { error: InvalidArg::InvalidFlag { error: InvalidFlag::HelpAfterInteger }, .. }, .. })
    ));
    assert!(matches!(
        run_of(&["poengsum", "-f", "a", "--file", "b"]),
        Err(Error::InvalidCall { no: 3, error: InvalidCall::InvalidArg { error: InvalidArg::InvalidFlag { error: InvalidFlag::FileAlreadySpecified }, .. }, .. })
    ));
    assert!(matches!(
        run_of(&["poengsum", "--file"]),
        Err(Error::InvalidCall { no: 1, error: InvalidCall::ExpectedArg { error: ExpectedArg::Filename }, .. })
    ));
    assert!(matches!(
        run_of(&["poengsum", "-ff", "a"]),
        Err(Error::InvalidCall { no: 1, error: InvalidCall::ExpectedArg { error: ExpectedArg::Filename }, .. })
    ));
    match run_of(&["poengsum", "-x"]) {
        Err(Error::InvalidCall { error: InvalidCall::InvalidArg { error: InvalidArg::NonexistentFlag { flag: FlagOption::Short(c) }, .. }, .. }) => {
            assert_eq!(c, 'x')
        },
        _ => panic!("expected an unknown flag"),
    }
    assert!(matches!(run_of(&[]), Err(Error::NoExecutable)));
}

#[test]
fn bundled_short_flags() {
    let run = run_of(&["poengsum", "-rf", "data.txt", "2"]).unwrap();
    assert!(run.rev());
    assert_eq!(run.file_path(), "data.txt");
    let run = run_of(&["poengsum", "--rev", "-r"]).unwrap();
    assert!(!run.rev());
    let run = run_of(&["poengsum", "-", "1"]).unwrap();
    assert!(!run.rev());
}

#[test]
fn file_path_keeps_spaces() {
    let run = run_of(&["poengsum", "--file", " my file.txt "]).unwrap();
    assert_eq!(run.file_path(), " my file.txt ");
}

#[test]
fn parse_in_two_parts() {
    let mut call = Call::new();
    call.parse(args(&["poengsum", "2"])).unwrap();
    call.parse(args(&["3"])).unwrap();
    let data = three_rounds();
    let scores = call.collect().unwrap().scores(&data).unwrap();
    assert_eq!(row(&scores, "Gamma").points, 32);
}

#[test]
fn sort_orders_rows() {
    let mut scores = board(&[("b", &[5]), ("a", &[5]), ("c", &[9]), ("ab", &[5])], &["poengsum"]).unwrap();
    scores.sort();
    let teams: Vec<&str> = scores.rows().iter().map(|s| s.team.as_str()).collect();
    assert_eq!(teams, vec!["c", "a", "ab", "b"]);
    let places: Vec<usize> = scores.rows().iter().map(|s| s.place).collect();
    assert_eq!(places, vec![1, 2, 2, 2]);
    assert!(!scores.is_rev());
    let rev = board(&[("a", &[1])], &["poengsum", "-r"]).unwrap();
    assert!(rev.is_rev());
}

#[test]
fn signed_difference() {
    assert_eq!(checked_signed_diff(5, 3), Some(2));
    assert_eq!(checked_signed_diff(3, 5), Some(-2));
    assert_eq!(checked_signed_diff(usize::MAX, 0), None);
    assert_eq!(checked_signed_diff(0, 1usize << 63), Some(isize::MIN));
    assert_eq!(checked_signed_diff(0, (1usize << 63) + 1), None);
}

#[test]
fn records_need_a_team() {
    assert!(matches!(Records::collect_from(vec![]), Err(InvalidSyntax::NoTeams)));
    assert_eq!(three_rounds().final_round(), Some(2));
    assert_eq!(records(&[("A", &[]), ("B", &[4])]).final_round(), Some(0));
    assert_eq!(records(&[("A", &[])]).final_round(), None);
}

#[test]
fn flag_names() {
    assert_eq!(FlagKind::Help.option(), "help");
    assert_eq!(FlagKind::Rev.option_short(), 'r');
    assert_eq!(FlagKind::named(&FlagOption::Long("file".to_string())), Some(FlagKind::File));
    assert_eq!(FlagKind::named(&FlagOption::Short('h')), Some(FlagKind::Help));
    assert_eq!(FlagKind::named(&FlagOption::Long("files".to_string())), None);
    assert_eq!(InvalidFlag::FileAlreadySpecified.related_flag(), FlagKind::File);
}

#[test]
fn help_gathers_flags_once() {
    let mut help = Help::new("poengsum".to_string());
    help.add_flag(FlagKind::File);
    help.add_flag(FlagKind::File);
    help.reap_catch(Catch::Args);
    help.reap_catch(Catch::Flag(FlagKind::Rev));
    assert_eq!(help.flag_list(), &vec![FlagKind::File, FlagKind::Rev]);
    help.prepend_flags(vec![FlagKind::Rev, FlagKind::Help]);
    assert_eq!(help.flag_list(), &vec![FlagKind::Rev, FlagKind::Help, FlagKind::File]);
    help.and(Help::new("poengsum".to_string()));
    assert_eq!(help.flag_list().len(), 3);
    let caught = ArgError::InvalidArg(InvalidArg::RoundZero).catch();
    assert!(matches!(caught, Ok(Catch::Args)));
    let kept = ArgError::InvalidArg(InvalidArg::IntegerAfterHelp).catch();
    assert!(kept.is_err());
    assert!(matches!(ArgError::ExpectedArg(ExpectedArg::Filename).catch(), Ok(Catch::Flag(FlagKind::File))));
}

#[test]
fn record_lines() {
    let mut parser = RecordParser::new();
    assert!(parser.parse_line("   ").unwrap().is_none());
    assert_eq!(parser.row(), 1);
    let line = parser.parse_line(" Team A : 10  2.5\t-3 ").unwrap().unwrap();
    assert_eq!(line.team, "Team A");
    assert_eq!(line.fields, vec![(10, 12), (14, 17), (18, 20)]);
    let line = parser.parse_line("a:b: 7").unwrap().unwrap();
    assert_eq!(line.team, "a:b");
    assert_eq!(line.fields, vec![(5, 6)]);
    let line = parser.parse_line("Solo:").unwrap().unwrap();
    assert!(line.fields.is_empty());
    match parser.parse_line("no colon here") {
        Err(InvalidSyntax::MissingColon { row, line }) => {
            assert_eq!(row, 5);
            assert_eq!(line, "no colon here");
        },
        _ => panic!("expected a missing colon"),
    }
    assert!(matches!(parser.parse_line("  : 4"), Err(InvalidSyntax::UnnamedTeam { row: 6, .. })));
    assert!(matches!(RecordParser::new().collect(), Err(InvalidSyntax::NoTeams)));
    parser.add(Record { team: "Team A".to_string(), points: vec![10] });
    let records = parser.collect().unwrap();
    assert_eq!(records.len(), 1);
    assert_eq!(records.get(0).team, "Team A");
}

#[test]
fn arrange_reverses_when_asked() {
    let rows: &[(&str, &[i32])] = &[("A", &[1]), ("B", &[3]), ("C", &[2])];
    let mut shown = board(rows, &["poengsum"]).unwrap();
    shown.arrange();
    let teams: Vec<&str> = shown.rows().iter().map(|s| s.team.as_str()).collect();
    assert_eq!(teams, vec!["B", "C", "A"]);
    let mut reversed = board(rows, &["poengsum", "--rev"]).unwrap();
    reversed.arrange();
    let teams: Vec<&str> = reversed.rows().iter().map(|s| s.team.as_str()).collect();
    assert_eq!(teams, vec!["A", "C", "B"]);
    let places: Vec<usize> = reversed.rows().iter().map(|s| s.place).collect();
    assert_eq!(places, vec![3, 2, 1]);
}

#[test]
fn equal_rows_keep_record_order() {
    let scores = board(&[("X", &[4]), ("X", &[4]), ("Y", &[9])], &["poengsum"]).unwrap();
    let order: Vec<usize> = scores.rows().iter().map(|s| s.uid).collect();
    assert_eq!(order, vec![2, 0, 1]);
    let places: Vec<usize> = scores.rows().iter().map(|s| s.place).collect();
    assert_eq!(places, vec![1, 2, 2]);
}
