use vstd::prelude::*;
use crate::command::{owned, invocation, Invocation, InvocationView};
use crate::naming::{note_name, note_title};
use crate::number::{decimal, decimal_digits, parse_u64, parse_u64_spec};
use crate::text::{
    char_views, chars_of, find, first_occurrence, lemma_first_occurrence, lemma_split_on_len, lines_of, occurs_at, slice_of, split_chars,
    split_lines, split_on, string_of, string_views, strings_of,
};

verus! {

/// What went wrong while talking to the vault or reading what it printed.
#[derive(Clone, Copy, Debug, PartialEq, Eq, Structural)]
pub enum LPassErrorKind {
    /// The vault command could not be run.
    Exec,
    /// The vault command printed something that is not UTF-8.
    InvalidUtf8,
    /// The data could not be handed to the vault command.
    WriteInput,
    /// A listing line lacks the ` [id: ` separator.
    MissingSeparator,
    /// A listing line has nothing, or only `]`, after the separator.
    MissingId,
    /// A listing line's id is not an unsigned 64-bit integer closed by `]`.
    InvalidId,
}

/// An error from the vault layer, with a message for people.
#[derive(Debug)]
pub struct LPassError {
    pub kind: LPassErrorKind,
    pub msg: String,
}

impl LPassError {
    pub fn new(kind: LPassErrorKind, msg: &str) -> (r: LPassError)
        ensures
            r.kind == kind,
            r.msg@ == msg@,
    {
        LPassError { kind, msg: msg.to_owned() }
    }

    /// The message as it is shown to people.
    pub fn message(&self) -> (r: String)
        ensures
            r@ == "(LPass) "@ + self.msg@,
    {
        let mut r = String::from_str("(LPass) ");
        r.append(self.msg.as_str());
        r
    }
}

/// One entry of the vault's listing.
#[derive(Debug)]
pub struct LSEntry {
    pub id: u64,
    pub name: String,
    pub folders: Vec<String>,
}

impl LSEntry {
    /// The vault command that shows this entry's body.
    pub fn load(&self) -> (r: Invocation)
        ensures
            r@ == (InvocationView {
                program: "lpass"@,
                args: seq!["show"@, decimal(self.id as nat)],
                input: None,
            }),
    {
        let id = string_of(&decimal_digits(self.id));
        let args = vec![owned("show"), id];
        let r = invocation("lpass", args);
        proof {
            assert(r@.args =~= seq!["show"@, decimal(self.id as nat)]);
        }
        r
    }
}

pub struct EntryView {
    pub id: u64,
    pub name: Seq<char>,
    pub folders: Seq<Seq<char>>,
}

impl View for LSEntry {
    type V = EntryView;

    open spec fn view(&self) -> EntryView {
        EntryView { id: self.id, name: self.name@, folders: string_views(self.folders@) }
    }
}

pub open spec fn entry_views(v: Seq<LSEntry>) -> Seq<EntryView> {
    v.map_values(|e: LSEntry| e@)
}

pub open spec fn id_separator() -> Seq<char> {
    " [id: "@
}

/// A non-empty listing line `<a>/<b>/<name> [id: <digits>]`, read.
#[verifier::opaque]
pub open spec fn entry_of_line(line: Seq<char>) -> Result<EntryView, LPassErrorKind> {
    match first_occurrence(line, id_separator()) {
        None => Err(LPassErrorKind::MissingSeparator),
        Some(i) => {
            let left = line.take(i);
            let right = line.skip(i + id_separator().len());
            if right.len() == 0 || right == seq![']'] {
                Err(LPassErrorKind::MissingId)
            } else if right.last() != ']' {
                Err(LPassErrorKind::InvalidId)
            } else {
                match parse_u64_spec(right.drop_last()) {
                    None => Err(LPassErrorKind::InvalidId),
                    Some(id) => Ok(
                        EntryView {
                            id,
                            name: split_on(left, '/').last(),
                            folders: split_on(left, '/').drop_last(),
                        },
                    ),
                }
            }
        },
    }
}

/// The entries of the listing lines `ls`, empty lines passed over; the first
/// bad line decides the error.
pub open spec fn entries_of_lines(ls: Seq<Seq<char>>) -> Result<Seq<EntryView>, LPassErrorKind>
    decreases ls.len(),
{
    if ls.len() == 0 {
        Ok(Seq::<EntryView>::empty())
    } else {
        match entries_of_lines(ls.drop_last()) {
            Err(k) => Err(k),
            Ok(v) => if ls.last().len() == 0 {
                Ok(v)
            } else {
                match entry_of_line(ls.last()) {
                    Ok(e) => Ok(v.push(e)),
                    Err(k) => Err(k),
                }
            },
        }
    }
}

/// The entries of the vault's listing output.
pub open spec fn listing(text: Seq<char>) -> Result<Seq<EntryView>, LPassErrorKind> {
    entries_of_lines(lines_of(text))
}

proof fn lemma_entries_err(ls: Seq<Seq<char>>, n: int, k: LPassErrorKind)
    requires
        0 <= n <= ls.len(),
        entries_of_lines(ls.take(n)) == Err::<Seq<EntryView>, LPassErrorKind>(k),
    ensures
        entries_of_lines(ls) == Err::<Seq<EntryView>, LPassErrorKind>(k),
    decreases ls.len(),
{
    if n < ls.len() {
        assert(ls.drop_last().take(n) =~= ls.take(n));
        lemma_entries_err(ls.drop_last(), n, k);
    } else {
        assert(ls.take(n) =~= ls);
    }
}

/// Reads one non-empty listing line.
pub fn parse_line(line: &Vec<char>) -> (r: Result<LSEntry, LPassErrorKind>)
    ensures
        match r {
            Ok(e) => entry_of_line(line@) == Ok::<EntryView, LPassErrorKind>(e@),
            Err(k) => entry_of_line(line@) == Err::<EntryView, LPassErrorKind>(k),
        },
{
    reveal(entry_of_line);
    let sep = chars_of(" [id: ");
    let i = match find(line, &sep) {
        None => {
            proof {
                reveal(first_occurrence);
            }
            return Err(LPassErrorKind::MissingSeparator);
        },
        Some(i) => i,
    };
    proof {
        assert(occurs_at(line@, sep@, i as int));
        assert(i + sep@.len() <= line@.len());
        lemma_first_occurrence(line@, sep@, i as int);
    }
    let left = slice_of(line, 0, i);
    let n = line.len();
    let right = slice_of(line, i + sep.len(), n);
    proof {
        assert(left@ =~= line@.take(i as int));
        assert(right@ =~= line@.skip(i + sep@.len()));
    }
    if right.len() == 0 || (right.len() == 1 && right[0] == ']') {
        proof {
            if right.len() == 1 {
                assert(right@ =~= seq![']']);
            }
        }
        return Err(LPassErrorKind::MissingId);
    }
    if right[right.len() - 1] != ']' {
        return Err(LPassErrorKind::InvalidId);
    }
    let digits = slice_of(&right, 0, right.len() - 1);
    proof {
        assert(digits@ =~= right@.drop_last());
    }
    let id = match parse_u64(&digits) {
        None => {
            return Err(LPassErrorKind::InvalidId);
        },
        Some(id) => id,
    };
    let mut parts = split_chars(&left, '/');
    proof {
        lemma_split_on_len(left@, '/');
    }
    let ghost all = parts@;
    let name = parts.pop().unwrap();
    proof {
        assert(char_views(parts@) =~= char_views(all).drop_last());
    }
    Ok(LSEntry { id, name: string_of(&name), folders: strings_of(&parts) })
}

fn line_error(kind: LPassErrorKind, line: &Vec<char>) -> (r: LPassError)
    ensures
        r.kind == kind,
{
    let mut text = match kind {
        LPassErrorKind::MissingSeparator => chars_of("No id in line: "),
        LPassErrorKind::MissingId => chars_of("No id in line: "),
        _ => chars_of("Invalid id in line: "),
    };
    let mut rest = slice_of(line, 0, line.len());
    text.append(&mut rest);
    LPassError { kind, msg: string_of(&text) }
}

/// Reads the vault's listing output into its entries, all or nothing.
pub fn ls(stdout: &str) -> (r: Result<Vec<LSEntry>, LPassError>)
    ensures
        match r {
            Ok(v) => listing(stdout@) == Ok::<Seq<EntryView>, LPassErrorKind>(entry_views(v@)),
            Err(e) => listing(stdout@) == Err::<Seq<EntryView>, LPassErrorKind>(e.kind),
        },
{
    let text = chars_of(stdout);
    let lines = split_lines(&text);
    let ghost ls = char_views(lines@);
    let mut result: Vec<LSEntry> = Vec::new();
    let mut i: usize = 0;
    proof {
        assert(ls.take(0) =~= Seq::<Seq<char>>::empty());
        assert(entry_views(result@) =~= Seq::<EntryView>::empty());
    }
    while i < lines.len()
        invariant
            i <= lines.len(),
            ls == char_views(lines@),
            ls == lines_of(stdout@),
            entries_of_lines(ls.take(i as int)) == Ok::<Seq<EntryView>, LPassErrorKind>(
                entry_views(result@),
            ),
        decreases lines.len() - i,
    {
        let line = &lines[i];
        proof {
            assert(ls.take(i + 1).drop_last() =~= ls.take(i as int));
            assert(ls.take(i + 1).last() == line@);
        }
        if line.len() > 0 {
            match parse_line(line) {
                Ok(e) => {
                    let ghost old_result = result@;
                    result.push(e);
                    proof {
                        assert(entry_views(result@) =~= entry_views(old_result).push(e@));
                    }
                },
                Err(k) => {
                    proof {
                        lemma_entries_err(ls, i + 1, k);
                    }
                    return Err(line_error(k, line));
                },
            }
        }
        i = i + 1;
    }
    proof {
        assert(ls.take(lines.len() as int) =~= ls);
    }
    Ok(result)
}

/// The first of `v` whose name is `name`.
pub open spec fn first_named(v: Seq<EntryView>, name: Seq<char>) -> Option<EntryView>
    decreases v.len(),
{
    if v.len() == 0 {
        None
    } else {
        match first_named(v.drop_last(), name) {
            Some(e) => Some(e),
            None => if v.last().name == name {
                Some(v.last())
            } else {
                None
            },
        }
    }
}

proof fn lemma_first_named_found(v: Seq<EntryView>, name: Seq<char>, n: int, e: EntryView)
    requires
        0 <= n <= v.len(),
        first_named(v.take(n), name) == Some(e),
    ensures
        first_named(v, name) == Some(e),
    decreases v.len(),
{
    if n < v.len() {
        assert(v.drop_last().take(n) =~= v.take(n));
        lemma_first_named_found(v.drop_last(), name, n, e);
    } else {
        assert(v.take(n) =~= v);
    }
}

/// The first entry, in listing order, whose name is `name`.
pub fn find_entry(entries: Vec<LSEntry>, name: &str) -> (r: Option<LSEntry>)
    ensures
        match r {
            Some(e) => first_named(entry_views(entries@), name@) == Some(e@),
            None => first_named(entry_views(entries@), name@) is None,
        },
{
    let ghost v = entry_views(entries@);
    let mut list = entries;
    let target = name.to_owned();
    let mut i: usize = 0;
    proof {
        assert(v.take(0) =~= Seq::<EntryView>::empty());
    }
    while i < list.len()
        invariant
            i <= list.len(),
            v == entry_views(list@),
            v == entry_views(entries@),
            target@ == name@,
            first_named(v.take(i as int), name@) is None,
        decreases list.len() - i,
    {
        proof {
            assert(v.take(i + 1).drop_last() =~= v.take(i as int));
            assert(v.take(i + 1).last() == list@[i as int]@);
        }
        if list[i].name == target {
            proof {
                lemma_first_named_found(v, name@, i + 1, list@[i as int]@);
            }
            let ghost before = list@;
            let found = list.remove(i);
            assert(found == before[i as int]);
            return Some(found);
        }
        i = i + 1;
    }
    proof {
        assert(v.take(list.len() as int) =~= v);
    }
    None
}

/// The entry that holds the note of the repository with remote URL `repo`,
/// looked up in the vault's listing output.
pub fn find_note(repo: &str, listing_text: &str) -> (r: Result<Option<LSEntry>, LPassError>)
    ensures
        match r {
            Ok(o) => match listing(listing_text@) {
                Ok(v) => match o {
                    Some(e) => first_named(v, note_title(repo@)) == Some(e@),
                    None => first_named(v, note_title(repo@)) is None,
                },
                Err(_) => false,
            },
            Err(e) => listing(listing_text@) == Err::<Seq<EntryView>, LPassErrorKind>(e.kind),
        },
{
    let target = note_name(repo);
    let list = match ls(listing_text) {
        Ok(list) => list,
        Err(e) => {
            return Err(e);
        },
    };
    Ok(find_entry(list, target.as_str()))
}

} // verus!
