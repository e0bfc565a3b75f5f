//! The greeting that the desktop shell shows.

use vstd::prelude::*;

verus! {

/// The text of the greeting for a name.
pub open spec fn greeting_text(name: Seq<char>) -> Seq<char> {
    "Hello, "@ + name + "! Welcome to Cleveland LGBTQ Center Automation."@
}

/// Greets a user by name. The name is taken as it is, whatever it holds.
pub fn greet(name: &str) -> (out: String)
    ensures
        out@ == "Hello, "@ + name@ + "! Welcome to Cleveland LGBTQ Center Automation."@,
        out@ == greeting_text(name@),
{
    let mut out = String::from_str("Hello, ");
    out.append(name);
    out.append("! Welcome to Cleveland LGBTQ Center Automation.");
    out
}

} // verus!
