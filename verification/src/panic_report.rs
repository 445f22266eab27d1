//! What is logged of a panic.

use vstd::prelude::*;

use crate::text;

verus! {

/// Where a panic happened.
#[derive(Debug, PartialEq, Eq)]
pub struct PanicLocation {
    pub file: String,
    pub line: u32,
    pub column: u32,
}

/// The place of a panic, as it is logged.
pub open spec fn place(location: Option<PanicLocation>) -> Seq<char> {
    match location {
        Some(l) => l.file@ + ":"@ + text::decimal(l.line as nat) + ":"@ + text::decimal(
            l.column as nat,
        ),
        None => "<unknown>"@,
    }
}

/// What a panic says: its payload where that is text, borrowed or owned.
pub open spec fn said(borrowed: Option<&str>, owned: Option<&String>) -> Seq<char> {
    match (borrowed, owned) {
        (Some(payload), _) => payload@,
        (None, Some(payload)) => payload@,
        (None, None) => "<non-string panic payload>"@,
    }
}

/// The line that is logged of a panic at `location`, whose payload is given as
/// borrowed text and as owned text, as far as it is either.
pub fn panic_line(
    location: &Option<PanicLocation>,
    borrowed: Option<&str>,
    owned: Option<&String>,
) -> (r: String)
    ensures
        r@ == "panic at "@ + place(*location) + ": "@ + said(borrowed, owned),
{
    let mut line = "panic at ".to_owned();
    match location {
        Some(l) => {
            line.append(l.file.as_str());
            line.append(":");
            line.append(text::decimal_text(l.line as u64).as_str());
            line.append(":");
            line.append(text::decimal_text(l.column as u64).as_str());
        },
        None => {
            line.append("<unknown>");
        },
    }
    assert(line@ =~= "panic at "@ + place(*location));
    line.append(": ");
    match (borrowed, owned) {
        (Some(payload), _) => line.append(payload),
        (None, Some(payload)) => line.append(payload.as_str()),
        (None, None) => line.append("<non-string panic payload>"),
    }
    line
}

/// The logged line tells the file, line and column of the panic, as far as they
/// are known, and all of its text, as far as it has one.
pub proof fn law_line_tells_all(
    location: Option<PanicLocation>,
    borrowed: Option<&str>,
    owned: Option<&String>,
    r: String,
)
    requires
        call_ensures(panic_line, (&location, borrowed, owned), r),
    ensures
        exists|at: Seq<char>, what: Seq<char>|
            #![trigger at + ": "@ + what]
            {
                &&& r@ == "panic at "@ + (at + ": "@ + what)
                &&& location is None ==> at == "<unknown>"@
                &&& location matches Some(l) ==> at == l.file@ + ":"@ + text::decimal(l.line as nat)
                    + ":"@ + text::decimal(l.column as nat)
                &&& borrowed matches Some(payload) ==> what == payload@
                &&& borrowed is None ==> (owned matches Some(payload) ==> what == payload@)
                &&& borrowed is None && owned is None ==> what == "<non-string panic payload>"@
            },
{
    let at = place(location);
    let what = said(borrowed, owned);
    assert(r@ =~= "panic at "@ + (at + ": "@ + what));
}

} // verus!
