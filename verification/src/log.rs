//! The message that a script's call to the log is written as.

use itertools::Itertools;
use vstd::prelude::*;

verus! {

/// One argument of a call to the log.
#[derive(Debug)]
pub enum LogArgument {
    /// A string, taken as it is.
    Text(String),
    /// Any other value, by its JSON text if it has one.
    Json(Option<String>),
}

/// What stands for a value that has no JSON text.
pub open spec fn no_representation() -> Seq<char> {
    "<norepr>"@
}

/// The text that an argument is logged as.
pub open spec fn rendered(arg: LogArgument) -> Seq<char> {
    match arg {
        LogArgument::Text(text) => text@,
        LogArgument::Json(Some(text)) => text@,
        LogArgument::Json(None) => no_representation(),
    }
}

/// `parts` in a row, with `sep` between each two neighbours.
pub open spec fn joined(parts: Seq<Seq<char>>, sep: Seq<char>) -> Seq<char>
    decreases parts.len(),
{
    if parts.len() == 0 {
        Seq::empty()
    } else if parts.len() == 1 {
        parts[0]
    } else {
        joined(parts.drop_last(), sep) + sep + parts.last()
    }
}

/// The texts of `parts`, in order.
pub open spec fn texts(parts: Seq<String>) -> Seq<Seq<char>> {
    parts.map_values(|part: String| part@)
}

/// `Itertools::join` on the strings of `parts`: their texts in a row, with
/// `sep` between each two neighbours.
#[verifier::external_body]
fn join(parts: &Vec<String>, sep: &str) -> (text: String)
    ensures
        text@ == joined(texts(parts@), sep@),
{
    parts.iter().join(sep)
}

/// The text that `arg` is logged as.
pub fn render(arg: &LogArgument) -> (text: String)
    ensures
        text@ == rendered(*arg),
{
    match arg {
        LogArgument::Text(text) => text.clone(),
        LogArgument::Json(Some(text)) => text.clone(),
        LogArgument::Json(None) => "<norepr>".to_owned(),
    }
}

/// The message for a call to the log with `args`: each argument as it is
/// logged, separated by single spaces.
pub fn log_message(args: &Vec<LogArgument>) -> (message: String)
    ensures
        message@ == joined(args@.map_values(|arg: LogArgument| rendered(arg)), " "@),
{
    let mut parts: Vec<String> = Vec::new();
    let mut i: usize = 0;
    while i < args.len()
        invariant
            i <= args@.len(),
            parts@.len() == i,
            forall|j: int| 0 <= j < i ==> (#[trigger] parts@[j])@ == rendered(args@[j]),
        decreases args@.len() - i,
    {
        parts.push(render(&args[i]));
        i = i + 1;
    }
    assert(texts(parts@) =~= args@.map_values(|arg: LogArgument| rendered(arg)));
    join(&parts, " ")
}

} // verus!
