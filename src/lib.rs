//! Scoreboard calculator: the command-line grammar, round selection, and
//! ranking of teams with their climb since one round earlier.
pub mod call;
pub mod error;
pub mod flag;
pub mod help;
pub mod record;
pub mod round;
pub mod run;
pub mod score;
pub mod text;
pub mod token;
