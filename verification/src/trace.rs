//! A record of a resize, a line for each thing that happened, for whoever has
//! to find out why one stuttered.

use vstd::prelude::*;
use vstd::string::*;

verus! {

/// The variable that names the file a resize is recorded in.
pub const VARIABLE: &'static str = "SOLIUM_RESIZE_TRACE";

/// Where a resize is recorded, if it is.
pub struct Trace<W> {
    pub sink: Option<W>,
}

/// A line of the record.
pub open spec fn line_of(what: Seq<char>, fields: Seq<char>) -> Seq<char> {
    what + " "@ + fields + "\n"@
}

/// Whether a resize is recorded.
pub fn on<W>(trace: &Trace<W>) -> (r: bool)
    ensures
        r == (trace.sink is Some),
{
    trace.sink.is_some()
}

/// The line to write, if a resize is recorded: what happened, and what there
/// is to say of it.
pub fn line<W>(trace: &Trace<W>, what: &str, fields: &str) -> (line: Option<String>)
    ensures
        match line {
            Some(line) => trace.sink is Some && line@ == line_of(what@, fields@),
            None => trace.sink is None,
        },
{
    if trace.sink.is_none() {
        return None;
    }
    let mut line = what.to_owned();
    line.append(" ");
    line.append(fields);
    line.append("\n");
    Some(line)
}

/// A line of the record is what happened and what there is to say of it, in that
/// order, with one space between them and one line's end behind them, and
/// `SOLIUM_RESIZE_TRACE` names the file it goes in.
pub proof fn a_line_says_both(what: Seq<char>, fields: Seq<char>)
    ensures
        ({
            let line = line_of(what, fields);
            &&& line.len() == what.len() + fields.len() + 2
            &&& line.take(what.len() as int) == what
            &&& line[what.len() as int] == ' '
            &&& line.subrange(what.len() as int + 1, line.len() - 1) == fields
            &&& line.last() == '\n'
        }),
        VARIABLE@ == "SOLIUM_RESIZE_TRACE"@,
{
    reveal_strlit(" ");
    reveal_strlit("\n");
    let line = line_of(what, fields);
    assert(line.take(what.len() as int) =~= what);
    assert(line.subrange(what.len() as int + 1, line.len() - 1) =~= fields);
}

} // verus!
