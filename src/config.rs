use vstd::prelude::*;

verus! {

/// The number of lines printed per input when no count is given.
pub const DEFAULT_LINES: usize = 10;

/// How the output of every input is bounded, for the whole run.
#[derive(Debug, Clone, Copy, PartialEq, Eq, Structural)]
pub enum Limit {
    /// The first that many newline-terminated lines.
    Lines(usize),
    /// The first that many bytes.
    Bytes(usize),
}

/// The resolved configuration of one run.
#[derive(Debug)]
pub struct Cli {
    /// The inputs in the order given; `-` stands for standard input.
    pub files: Vec<String>,
    /// The line limit, used when no byte limit is set.
    pub lines: usize,
    /// The byte limit; when set, it bounds every input instead of `lines`.
    pub bytes: Option<usize>,
}

/// Why the command line does not resolve into a configuration.
#[derive(Debug, Clone, Copy, PartialEq, Eq, Structural)]
pub enum UsageError {
    /// A line count and a byte count were both given.
    LinesAndBytes,
}

/// The marker that stands for standard input.
pub open spec fn stdin_marker() -> Seq<char> {
    seq!['-']
}

impl Cli {
    /// At least one input is named.
    pub open spec fn wf(&self) -> bool {
        self.files@.len() > 0
    }

    /// The mode of the run: a byte limit, when set, wins over the line limit.
    pub open spec fn limit_spec(&self) -> Limit {
        match self.bytes {
            Some(m) => Limit::Bytes(m),
            None => Limit::Lines(self.lines),
        }
    }

    /// The mode that bounds every input of this run.
    pub fn limit(&self) -> (r: Limit)
        ensures
            r == self.limit_spec(),
    {
        match self.bytes {
            Some(m) => Limit::Bytes(m),
            None => Limit::Lines(self.lines),
        }
    }
}

/// Resolves the values read from the command line into a configuration.
///
/// `files` are the positional inputs, `lines` and `bytes` the counts given
/// with `--lines` and `--bytes`, if any. Both counts together are refused;
/// no input means standard input; no line count means the default.
pub fn get_args(files: Vec<String>, lines: Option<usize>, bytes: Option<usize>) -> (r: Result<
    Cli,
    UsageError,
>)
    ensures
        r is Err <==> (lines is Some && bytes is Some),
        r is Err ==> r == Err::<Cli, UsageError>(UsageError::LinesAndBytes),
        r matches Ok(c) ==> {
            &&& c.wf()
            &&& files@.len() == 0 ==> c.files@.len() == 1 && c.files@[0]@ == stdin_marker()
            &&& files@.len() > 0 ==> c.files@ == files@
            &&& c.lines == (match lines {
                Some(n) => n,
                None => DEFAULT_LINES,
            })
            &&& c.bytes == bytes
        },
{
    if lines.is_some() && bytes.is_some() {
        return Err(UsageError::LinesAndBytes);
    }
    let files = if files.len() == 0 {
        let mut v: Vec<String> = Vec::new();
        v.push(String::from_str("-"));
        proof {
            reveal_strlit("-");
        }
        v
    } else {
        files
    };
    let lines = match lines {
        Some(n) => n,
        None => DEFAULT_LINES,
    };
    Ok(Cli { files, lines, bytes })
}

} // verus!
