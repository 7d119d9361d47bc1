use vstd::prelude::*;
use crate::text::{
    chars_of, find, first_occurrence, lemma_first_occurrence, lines_of, slice_of,
    split_lines, string_of, string_views, strings_of,
};

verus! {

/// A config file: its path as the user gave it, and its lines.
#[derive(Debug)]
pub struct ConfigFile {
    pub path: String,
    pub secrets: Vec<String>,
}

pub struct ConfigFileView {
    pub path: Seq<char>,
    pub secrets: Seq<Seq<char>>,
}

impl View for ConfigFile {
    type V = ConfigFileView;

    open spec fn view(&self) -> ConfigFileView {
        ConfigFileView { path: self.path@, secrets: string_views(self.secrets@) }
    }
}

impl PartialEq for ConfigFile {
    fn eq(&self, other: &ConfigFile) -> (r: bool) {
        if self.path != other.path {
            return false;
        }
        if self.secrets.len() != other.secrets.len() {
            proof {
                assert(string_views(self.secrets@).len() != string_views(other.secrets@).len());
            }
            return false;
        }
        let mut i: usize = 0;
        while i < self.secrets.len()
            invariant
                i <= self.secrets.len() == other.secrets.len(),
                forall|j: int| 0 <= j < i ==> self.secrets@[j]@ == other.secrets@[j]@,
            decreases self.secrets.len() - i,
        {
            if self.secrets[i] != other.secrets[i] {
                proof {
                    assert(string_views(self.secrets@)[i as int] != string_views(
                        other.secrets@,
                    )[i as int]);
                }
                return false;
            }
            i = i + 1;
        }
        proof {
            assert(string_views(self.secrets@) =~= string_views(other.secrets@));
        }
        true
    }
}

impl vstd::std_specs::cmp::PartialEqSpecImpl for ConfigFile {
    open spec fn obeys_eq_spec() -> bool {
        true
    }

    open spec fn eq_spec(&self, other: &ConfigFile) -> bool {
        self@ == other@
    }
}

/// The secrets of one repository: config files and environment variables.
#[derive(Debug)]
pub struct Note {
    pub config_files: Vec<ConfigFile>,
    pub env_variables: Vec<(String, String)>,
}

pub struct NoteView {
    pub config_files: Seq<ConfigFileView>,
    pub env_variables: Map<Seq<char>, Seq<char>>,
}

pub open spec fn file_views(v: Seq<ConfigFile>) -> Seq<ConfigFileView> {
    v.map_values(|f: ConfigFile| f@)
}

pub open spec fn pair_views(v: Seq<(String, String)>) -> Seq<(Seq<char>, Seq<char>)> {
    v.map_values(|p: (String, String)| (p.0@, p.1@))
}

/// The mapping that the name/value pairs `v` give, a later pair winning.
pub open spec fn pairs_map(v: Seq<(Seq<char>, Seq<char>)>) -> Map<Seq<char>, Seq<char>>
    decreases v.len(),
{
    if v.len() == 0 {
        Map::empty()
    } else {
        pairs_map(v.drop_last()).insert(v.last().0, v.last().1)
    }
}

/// No name occurs twice in `v`.
pub open spec fn unique_names(v: Seq<(Seq<char>, Seq<char>)>) -> bool {
    forall|i: int, j: int| 0 <= i < j < v.len() ==> v[i].0 != v[j].0
}

impl View for Note {
    type V = NoteView;

    open spec fn view(&self) -> NoteView {
        NoteView {
            config_files: file_views(self.config_files@),
            env_variables: pairs_map(pair_views(self.env_variables@)),
        }
    }
}

impl Note {
    /// Each variable name is held once.
    pub open spec fn wf(&self) -> bool {
        unique_names(pair_views(self.env_variables@))
    }

    pub fn new(config_files: Vec<ConfigFile>, env_variables: Vec<(String, String)>) -> (r: Note)
        requires
            unique_names(pair_views(env_variables@)),
        ensures
            r.wf(),
            r.config_files == config_files,
            r.env_variables == env_variables,
    {
        Note { config_files, env_variables }
    }

    /// The note of the config files `files` and the assignments `vars`.
    pub fn from(files: Vec<ConfigFile>, vars: Vec<String>) -> (r: Result<Note, NoteError>)
        ensures
            match r {
                Ok(n) => n.wf() && n.config_files == files && env_of(string_views(vars@))
                    == Some(n@.env_variables),
                Err(e) => env_of(string_views(vars@)) is None && e is MalformedAssignment,
            },
    {
        match parse_env_vars(vars) {
            Ok(env) => Ok(Note::new(files, env)),
            Err(e) => Err(e),
        }
    }
}

/// Why a note could not be built.
#[derive(Debug)]
pub enum NoteError {
    /// A config file could not be read.
    Read { path: String, reason: String },
    /// An environment assignment has no `=`.
    MalformedAssignment { assignment: String },
}

/// `NAME=VALUE` split at its first `=`.
pub open spec fn assignment(a: Seq<char>) -> Option<(Seq<char>, Seq<char>)> {
    match first_occurrence(a, seq!['=']) {
        Some(i) => Some((a.take(i), a.skip(i + 1))),
        None => None,
    }
}

/// The variables that the assignments `vars` set, a later one winning; none
/// when one of them has no `=`.
pub open spec fn env_of(vars: Seq<Seq<char>>) -> Option<Map<Seq<char>, Seq<char>>>
    decreases vars.len(),
{
    if vars.len() == 0 {
        Some(Map::empty())
    } else {
        match (env_of(vars.drop_last()), assignment(vars.last())) {
            (Some(m), Some(p)) => Some(m.insert(p.0, p.1)),
            _ => None,
        }
    }
}

proof fn lemma_env_none(vars: Seq<Seq<char>>, n: int)
    requires
        0 <= n <= vars.len(),
        env_of(vars.take(n)) is None,
    ensures
        env_of(vars) is None,
    decreases vars.len(),
{
    if n < vars.len() {
        assert(vars.drop_last().take(n) =~= vars.take(n));
        lemma_env_none(vars.drop_last(), n);
    } else {
        assert(vars.take(n) =~= vars);
    }
}

proof fn lemma_pairs_map_update(
    v: Seq<(Seq<char>, Seq<char>)>,
    j: int,
    value: Seq<char>,
)
    requires
        0 <= j < v.len(),
        unique_names(v),
    ensures
        pairs_map(v.update(j, (v[j].0, value))) == pairs_map(v).insert(v[j].0, value),
    decreases v.len(),
{
    let w = v.update(j, (v[j].0, value));
    if j == v.len() - 1 {
        assert(w.drop_last() =~= v.drop_last());
        assert(pairs_map(w) =~= pairs_map(v).insert(v[j].0, value));
    } else {
        assert(w.drop_last() =~= v.drop_last().update(j, (v[j].0, value)));
        lemma_pairs_map_update(v.drop_last(), j, value);
        assert(v.last().0 != v[j].0);
        assert(pairs_map(w) =~= pairs_map(v).insert(v[j].0, value));
    }
}

/// Splits `NAME=VALUE` at its first `=`.
fn split_assignment(a: &String) -> (r: Option<(String, String)>)
    ensures
        match r {
            Some(p) => assignment(a@) == Some((p.0@, p.1@)),
            None => assignment(a@) is None,
        },
{
    let c = chars_of(a.as_str());
    let eq = vec!['='];
    proof {
        assert(eq@ =~= seq!['=']);
    }
    let n = c.len();
    match find(&c, &eq) {
        Some(i) => {
            proof {
                lemma_first_occurrence(c@, eq@, i as int);
            }
            let name = slice_of(&c, 0, i);
            let value = slice_of(&c, i + 1, n);
            proof {
                assert(name@ =~= c@.take(i as int));
                assert(value@ =~= c@.skip(i + 1));
            }
            Some((string_of(&name), string_of(&value)))
        },
        None => {
            proof {
                reveal(first_occurrence);
            }
            None
        },
    }
}

/// The variables that the assignments `vars` set, each name once, a later
/// assignment winning.
pub fn parse_env_vars(vars: Vec<String>) -> (r: Result<Vec<(String, String)>, NoteError>)
    ensures
        match r {
            Ok(v) => unique_names(pair_views(v@)) && env_of(string_views(vars@)) == Some(
                pairs_map(pair_views(v@)),
            ),
            Err(e) => env_of(string_views(vars@)) is None && e is MalformedAssignment,
        },
{
    let ghost vs = string_views(vars@);
    let mut env: Vec<(String, String)> = Vec::new();
    let mut i: usize = 0;
    proof {
        assert(vs.take(0) =~= Seq::<Seq<char>>::empty());
        assert(pairs_map(pair_views(env@)) =~= Map::empty());
    }
    while i < vars.len()
        invariant
            i <= vars.len(),
            vs == string_views(vars@),
            unique_names(pair_views(env@)),
            env_of(vs.take(i as int)) == Some(pairs_map(pair_views(env@))),
        decreases vars.len() - i,
    {
        proof {
            assert(vs.take(i + 1).drop_last() =~= vs.take(i as int));
            assert(vs.take(i + 1).last() == vars@[i as int]@);
        }
        let (name, value) = match split_assignment(&vars[i]) {
            Some(p) => p,
            None => {
                proof {
                    lemma_env_none(vs, i + 1);
                }
                return Err(NoteError::MalformedAssignment { assignment: vars[i].clone() });
            },
        };
        let mut j: usize = 0;
        while j < env.len()
            invariant
                j <= env.len(),
                forall|k: int| 0 <= k < j ==> env@[k].0@ != name@,
            ensures
                j <= env.len(),
                forall|k: int| 0 <= k < j ==> env@[k].0@ != name@,
                j < env.len() ==> env@[j as int].0@ == name@,
            decreases env.len() - j,
        {
            if env[j].0 == name {
                break;
            }
            j = j + 1;
        }
        let ghost old_env = pair_views(env@);
        if j < env.len() {
            proof {
                assert(old_env[j as int].0 == name@);
                lemma_pairs_map_update(old_env, j as int, value@);
            }
            env.set(j, (name, value));
            proof {
                assert(pair_views(env@) =~= old_env.update(j as int, (old_env[j as int].0, value@)));
                assert(unique_names(pair_views(env@))) by {
                    assert forall|a: int, b: int|
                        0 <= a < b < pair_views(env@).len() implies pair_views(env@)[a].0
                        != pair_views(env@)[b].0 by {
                        assert(pair_views(env@)[a].0 == old_env[a].0);
                        assert(pair_views(env@)[b].0 == old_env[b].0);
                    }
                }
            }
        } else {
            let ghost v = value@;
            let ghost nm = name@;
            env.push((name, value));
            proof {
                assert(pair_views(env@) =~= old_env.push((nm, v)));
                assert(pair_views(env@).drop_last() =~= old_env);
                assert forall|k: int| 0 <= k < old_env.len() implies old_env[k].0 != nm by {
                    assert(old_env[k].0 == env@[k].0@);
                }
            }
        }
        i = i + 1;
    }
    proof {
        assert(vs.take(vars.len() as int) =~= vs);
    }
    Ok(env)
}

impl ConfigFile {
    /// The config file at `path` whose text is `text`: the path as given,
    /// and the lines of the text.
    pub fn from_text(path: &str, text: &str) -> (r: ConfigFile)
        ensures
            r@ == (ConfigFileView { path: path@, secrets: lines_of(text@) }),
    {
        let lines = split_lines(&chars_of(text));
        ConfigFile { path: path.to_owned(), secrets: strings_of(&lines) }
    }
}

} // verus!
