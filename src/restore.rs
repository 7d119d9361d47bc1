use vstd::prelude::*;
use crate::note::ConfigFile;
use crate::text::{chars_of, string_of, string_views};

verus! {

/// The lines `ls` joined by single `\n`, with none after the last.
pub open spec fn joined(ls: Seq<Seq<char>>) -> Seq<char>
    decreases ls.len(),
{
    if ls.len() == 0 {
        Seq::<char>::empty()
    } else if ls.len() == 1 {
        ls[0]
    } else {
        joined(ls.drop_last()) + seq!['\n'] + ls.last()
    }
}

/// A path that starts at the root of the file system.
pub open spec fn is_absolute(path: Seq<char>) -> bool {
    path.len() > 0 && path[0] == '/'
}

/// What to do with one config file of a note when restoring it.
#[derive(Debug, PartialEq, Eq)]
pub enum RestoreAction {
    /// The path is absolute: it is never written.
    SkipAbsolute,
    /// A file is already there: it is never overwritten.
    SkipExists,
    /// Create the file with these contents.
    Write(String),
}

/// What came of restoring one config file.
#[derive(Debug, PartialEq, Eq)]
pub enum RestoreOutcome {
    SkippedAbsolute,
    SkippedExists,
    Written,
    Failed(String),
}

/// The contents of a restored config file: its lines joined by `\n`.
pub fn file_contents(secrets: &Vec<String>) -> (r: String)
    ensures
        r@ == joined(string_views(secrets@)),
{
    let ghost ls = string_views(secrets@);
    let mut out: Vec<char> = Vec::new();
    let mut i: usize = 0;
    proof {
        assert(ls.take(0) =~= Seq::<Seq<char>>::empty());
    }
    while i < secrets.len()
        invariant
            i <= secrets.len(),
            ls == string_views(secrets@),
            out@ == joined(ls.take(i as int)),
        decreases secrets.len() - i,
    {
        let ghost before = out@;
        if i > 0 {
            out.push('\n');
        }
        let mut line = chars_of(secrets[i].as_str());
        out.append(&mut line);
        proof {
            let t = ls.take(i + 1);
            assert(t.drop_last() =~= ls.take(i as int));
            assert(t.last() == secrets@[i as int]@);
            if i == 0 {
                assert(out@ =~= joined(t));
            } else {
                assert(out@ =~= before + seq!['\n'] + t.last());
            }
        }
        i = i + 1;
    }
    proof {
        assert(ls.take(secrets.len() as int) =~= ls);
    }
    string_of(&out)
}

/// What to do with `file` when restoring it, given whether a file already
/// exists at its place under the destination.
pub fn restore_step(file: &ConfigFile, exists: bool) -> (r: RestoreAction)
    ensures
        is_absolute(file.path@) ==> r is SkipAbsolute,
        !is_absolute(file.path@) && exists ==> r is SkipExists,
        !is_absolute(file.path@) && !exists ==> (r matches RestoreAction::Write(c) && c@ == joined(
            string_views(file.secrets@),
        )),
{
    let p = chars_of(file.path.as_str());
    if p.len() > 0 && p[0] == '/' {
        RestoreAction::SkipAbsolute
    } else if exists {
        RestoreAction::SkipExists
    } else {
        RestoreAction::Write(file_contents(&file.secrets))
    }
}

} // verus!
