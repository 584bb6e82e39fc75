//! The lines the small ownership demos print.

use vstd::prelude::*;
use crate::text::push_str;

verus! {

/// The line `say` prints for the string it takes over.
pub fn said_line(s: &str) -> (line: String)
    ensures
        line@ == "The String is "@ + s@,
{
    let mut line = String::from_str("The String is ");
    push_str(&mut line, s);
    line
}

/// The string `say` hands back to its caller in place of the one it took.
pub fn replacement_string() -> (s: String)
    ensures
        s@ == "new string"@,
{
    String::from_str("new string")
}

/// The line printed for a borrowed person.
pub fn congratulation_line(name: &str) -> (line: String)
    ensures
        line@ == "Congratulations, "@ + name@ + "!!"@,
{
    let mut line = String::from_str("Congratulations, ");
    push_str(&mut line, name);
    push_str(&mut line, "!!");
    line
}

/// The line printed for a cloned string.
pub fn say_line(s: &str) -> (line: String)
    ensures
        line@ == "I say "@ + s@,
{
    let mut line = String::from_str("I say ");
    push_str(&mut line, s);
    line
}

} // verus!
