//! External commands that drive the tunnel interface, as values: the
//! library decides what to run, the caller runs it.
use vstd::prelude::*;
use vstd::string::*;

verus! {

/// A program, its arguments, and text to feed on its standard input.
#[derive(Clone, Debug)]
pub struct Command {
    pub program: String,
    pub args: Vec<String>,
    pub stdin: Option<String>,
}

pub struct CommandView {
    pub program: Seq<char>,
    pub args: Seq<Seq<char>>,
    pub stdin: Option<Seq<char>>,
}

pub open spec fn texts(v: Seq<String>) -> Seq<Seq<char>> {
    v.map_values(|s: String| s@)
}

impl View for Command {
    type V = CommandView;

    open spec fn view(&self) -> CommandView {
        CommandView {
            program: self.program@,
            args: texts(self.args@),
            stdin: match &self.stdin {
                Some(s) => Some(s@),
                None => None,
            },
        }
    }
}

/// Appends one argument.
pub fn push_arg(args: &mut Vec<String>, a: &str)
    ensures
        texts(final(args)@) == texts(old(args)@).push(a@),
{
    args.push(String::from_str(a));
    assert(texts(final(args)@) =~= texts(old(args)@).push(a@));
}

impl Command {
    pub fn new(program: &str, args: Vec<String>, stdin: Option<String>) -> (r: Command)
        ensures
            r@.program == program@,
            r@.args == texts(args@),
            r@.stdin == match stdin {
                Some(s) => Some(s@),
                None => None::<Seq<char>>,
            },
    {
        Command { program: String::from_str(program), args, stdin }
    }
}

} // verus!
