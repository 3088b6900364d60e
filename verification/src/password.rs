use vstd::prelude::*;

verus! {

/// The password that the guessing game waits for.
pub open spec fn password() -> Seq<char> {
    "Password1"@
}

/// What the guessing game does with one line that it read.
#[derive(Debug, PartialEq, Eq, Structural)]
pub enum GuessReply {
    /// Nothing was read: the game stops without a word.
    Stop,
    /// The line is the password: the game says so and stops.
    Guessed,
    /// A wrong guess: the game prints `shown`, the number of guesses so far
    /// (this one included), and goes on with `next` guesses counted.
    Wrong { shown: i32, next: i32 },
}

/// Judges the line `line` (as read, line terminator included) when
/// `guesses` wrong guesses came before it.
pub fn judge_guess(guesses: i32, line: &String) -> (r: GuessReply)
    requires
        line@.len() == 0 || line@ == "Password1"@ || guesses < i32::MAX,
    ensures
        r == (if line@.len() == 0 {
            GuessReply::Stop
        } else if line@ == "Password1"@ {
            GuessReply::Guessed
        } else {
            GuessReply::Wrong { shown: (guesses + 1) as i32, next: (guesses + 1) as i32 }
        }),
{
    if line.as_str().is_empty() {
        return GuessReply::Stop;
    }
    let pw = String::from_str("Password1");
    if *line == pw {
        GuessReply::Guessed
    } else {
        GuessReply::Wrong { shown: guesses + 1, next: guesses + 1 }
    }
}

} // verus!
