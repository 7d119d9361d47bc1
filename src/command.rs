use vstd::prelude::*;
use crate::text::string_views;

verus! {

/// An outside program to run: its name, its arguments, and what to write
/// to its standard input, if anything.
#[derive(Debug)]
pub struct Invocation {
    pub program: String,
    pub args: Vec<String>,
    pub input: Option<String>,
}

pub struct InvocationView {
    pub program: Seq<char>,
    pub args: Seq<Seq<char>>,
    pub input: Option<Seq<char>>,
}

impl View for Invocation {
    type V = InvocationView;

    open spec fn view(&self) -> InvocationView {
        InvocationView {
            program: self.program@,
            args: string_views(self.args@),
            input: match self.input {
                Some(s) => Some(s@),
                None => None,
            },
        }
    }
}

pub fn owned(s: &str) -> (r: String)
    ensures
        r@ == s@,
{
    s.to_owned()
}

/// `program` with `args` and no input.
pub fn invocation(program: &str, args: Vec<String>) -> (r: Invocation)
    ensures
        r.program@ == program@,
        r.args == args,
        r.input is None,
{
    Invocation { program: owned(program), args, input: None }
}

/// The vault command that logs `username` in.
pub fn login(username: &str) -> (r: Invocation)
    ensures
        r@ == (InvocationView {
            program: "lpass"@,
            args: seq!["login"@, username@],
            input: None,
        }),
{
    let args = vec![owned("login"), owned(username)];
    let r = invocation("lpass", args);
    proof {
        assert(r@.args =~= seq!["login"@, username@]);
    }
    r
}

/// The vault command that lists every entry.
pub fn list_entries() -> (r: Invocation)
    ensures
        r@ == (InvocationView {
            program: "lpass"@,
            args: seq!["ls"@, "--color=never"@],
            input: None,
        }),
{
    let args = vec![owned("ls"), owned("--color=never")];
    let r = invocation("lpass", args);
    proof {
        assert(r@.args =~= seq!["ls"@, "--color=never"@]);
    }
    r
}

/// The player command that plays `file` once, without a window.
pub fn run(file: &str) -> (r: Invocation)
    ensures
        r@ == (InvocationView {
            program: "ffplay"@,
            args: seq![
                "-hide_banner"@,
                "-loglevel"@,
                "warning"@,
                "-nodisp"@,
                "-autoexit"@,
                file@,
            ],
            input: None,
        }),
{
    let args = vec![
        owned("-hide_banner"),
        owned("-loglevel"),
        owned("warning"),
        owned("-nodisp"),
        owned("-autoexit"),
        owned(file),
    ];
    let r = invocation("ffplay", args);
    proof {
        assert(r@.args =~= seq![
            "-hide_banner"@,
            "-loglevel"@,
            "warning"@,
            "-nodisp"@,
            "-autoexit"@,
            file@,
        ]);
    }
    r
}

} // verus!
