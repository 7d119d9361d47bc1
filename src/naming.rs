use vstd::prelude::*;
use crate::text::{chars_of, has_prefix, has_suffix, matches_at, slice_of, string_of};

verus! {

/// `s` without the leading `p`, if it starts with `p`.
pub open spec fn strip_prefix(s: Seq<char>, p: Seq<char>) -> Seq<char> {
    if has_prefix(s, p) {
        s.skip(p.len() as int)
    } else {
        s
    }
}

/// `s` without the trailing `p`, if it ends with `p`.
pub open spec fn strip_suffix(s: Seq<char>, p: Seq<char>) -> Seq<char> {
    if has_suffix(s, p) {
        s.take(s.len() - p.len())
    } else {
        s
    }
}

/// Every `/` and `:` turned into a space.
pub open spec fn spaced(s: Seq<char>) -> Seq<char> {
    s.map_values(|c: char| if c == '/' || c == ':' { ' ' } else { c })
}

/// What follows the last `c` in `s`; all of `s` when `c` does not occur.
pub open spec fn after_last(s: Seq<char>, c: char) -> Seq<char>
    decreases s.len(),
{
    if s.len() == 0 {
        s
    } else if s.last() == c {
        Seq::<char>::empty()
    } else {
        after_last(s.drop_last(), c).push(s.last())
    }
}

/// The repository part of a remote URL: scheme gone, separators turned to
/// spaces, user part and `.git` suffix dropped.
pub open spec fn repo_key(url: Seq<char>) -> Seq<char> {
    let s = strip_prefix(strip_prefix(url, "git+ssh://"@), "https://"@);
    strip_suffix(after_last(spaced(s), '@'), ".git"@)
}

/// The title of the vault entry that holds a repository's note.
pub open spec fn note_title(url: Seq<char>) -> Seq<char> {
    "Hamr - "@ + repo_key(url)
}

fn drop_prefix(s: Vec<char>, p: &str) -> (r: Vec<char>)
    ensures
        r@ == strip_prefix(s@, p@),
{
    let pv = chars_of(p);
    if matches_at(&s, &pv, 0) {
        slice_of(&s, pv.len(), s.len())
    } else {
        s
    }
}

pub(crate) fn drop_suffix(s: Vec<char>, p: &str) -> (r: Vec<char>)
    ensures
        r@ == strip_suffix(s@, p@),
{
    let pv = chars_of(p);
    if pv.len() <= s.len() && matches_at(&s, &pv, s.len() - pv.len()) {
        let mut s = s;
        s.truncate(s.len() - pv.len());
        s
    } else {
        s
    }
}

fn space_separators(s: &Vec<char>) -> (r: Vec<char>)
    ensures
        r@ == spaced(s@),
{
    let mut r: Vec<char> = Vec::new();
    let mut i: usize = 0;
    while i < s.len()
        invariant
            i <= s.len(),
            r@ == spaced(s@.take(i as int)),
        decreases s.len() - i,
    {
        let c = s[i];
        if c == '/' || c == ':' {
            r.push(' ');
        } else {
            r.push(c);
        }
        proof {
            assert(spaced(s@.take(i + 1)) =~= spaced(s@.take(i as int)).push(
                if c == '/' || c == ':' { ' ' } else { c },
            ));
        }
        i = i + 1;
    }
    proof {
        assert(s@.take(s.len() as int) =~= s@);
    }
    r
}

pub(crate) fn after_last_char(s: &Vec<char>, c: char) -> (r: Vec<char>)
    ensures
        r@ == after_last(s@, c),
{
    let mut r: Vec<char> = Vec::new();
    let mut i: usize = 0;
    proof {
        assert(s@.take(0) =~= Seq::<char>::empty());
    }
    while i < s.len()
        invariant
            i <= s.len(),
            r@ == after_last(s@.take(i as int), c),
        decreases s.len() - i,
    {
        proof {
            assert(s@.take(i + 1).drop_last() =~= s@.take(i as int));
        }
        if s[i] == c {
            r = Vec::new();
        } else {
            r.push(s[i]);
        }
        i = i + 1;
    }
    proof {
        assert(s@.take(s.len() as int) =~= s@);
    }
    r
}

/// The vault entry title for a repository remote URL.
pub fn note_name(repo: &str) -> (r: String)
    ensures
        r@ == note_title(repo@),
{
    let s = drop_prefix(chars_of(repo), "git+ssh://");
    let s = drop_prefix(s, "https://");
    let s = after_last_char(&space_separators(&s), '@');
    let mut s = drop_suffix(s, ".git");
    let mut r = chars_of("Hamr - ");
    r.append(&mut s);
    string_of(&r)
}

/// No `/`, `:` or `@` in `s`: a host, owner or repository name.
pub open spec fn plain_part(s: Seq<char>) -> bool {
    !s.contains('/') && !s.contains(':') && !s.contains('@')
}

proof fn lemma_spaced_plain(a: Seq<char>)
    requires
        plain_part(a),
    ensures
        spaced(a) == a,
{
    assert forall|i: int| 0 <= i < a.len() implies spaced(a)[i] == a[i] by {
        assert(a[i] != '/' && a[i] != ':');
    }
    assert(spaced(a) =~= a);
}

proof fn lemma_after_last_tail(a: Seq<char>, b: Seq<char>, c: char)
    requires
        !b.contains(c),
    ensures
        after_last(a + b, c) == after_last(a, c) + b,
    decreases b.len(),
{
    if b.len() == 0 {
        assert(a + b =~= a);
        assert(after_last(a, c) + b =~= after_last(a, c));
    } else {
        assert((a + b).drop_last() =~= a + b.drop_last());
        assert(b.last() != c);
        lemma_after_last_tail(a, b.drop_last(), c);
        assert(after_last(a, c) + b =~= (after_last(a, c) + b.drop_last()).push(b.last()));
    }
}

/// The title of a repository `<host> <owner> <repo>`.
pub open spec fn title_of(host: Seq<char>, owner: Seq<char>, repo: Seq<char>) -> Seq<char> {
    "Hamr - "@ + host + seq![' '] + owner + seq![' '] + repo
}

pub open spec fn key_of(host: Seq<char>, owner: Seq<char>, repo: Seq<char>) -> Seq<char> {
    host + seq![' '] + owner + seq![' '] + repo
}

pub open spec fn path_of(host: Seq<char>, owner: Seq<char>, repo: Seq<char>) -> Seq<char> {
    host + seq!['/'] + owner + seq!['/'] + repo
}

proof fn lemma_key_tail(host: Seq<char>, owner: Seq<char>, repo: Seq<char>, sep: char)
    requires
        plain_part(host),
        plain_part(owner),
        plain_part(repo),
        !has_suffix(repo, ".git"@),
        sep == '/' || sep == ':',
    ensures
        spaced(host + seq![sep] + owner + seq!['/'] + repo) == key_of(host, owner, repo),
        spaced(host + seq![sep] + owner + seq!['/'] + repo + ".git"@) == key_of(host, owner, repo)
            + ".git"@,
        after_last(key_of(host, owner, repo), '@') == key_of(host, owner, repo),
        after_last(key_of(host, owner, repo) + ".git"@, '@') == key_of(host, owner, repo) + ".git"@,
        strip_suffix(key_of(host, owner, repo), ".git"@) == key_of(host, owner, repo),
        strip_suffix(key_of(host, owner, repo) + ".git"@, ".git"@) == key_of(host, owner, repo),
{
    reveal_strlit(".git");
    let k = key_of(host, owner, repo);
    lemma_spaced_plain(host);
    lemma_spaced_plain(owner);
    lemma_spaced_plain(repo);
    assert(spaced(host + seq![sep] + owner + seq!['/'] + repo) =~= k);
    assert(spaced(host + seq![sep] + owner + seq!['/'] + repo + ".git"@) =~= k + ".git"@);
    assert(!k.contains('@'));
    assert(!(k + ".git"@).contains('@'));
    lemma_after_last_tail(Seq::<char>::empty(), k, '@');
    assert(Seq::<char>::empty() + k =~= k);
    lemma_after_last_tail(Seq::<char>::empty(), k + ".git"@, '@');
    assert(Seq::<char>::empty() + (k + ".git"@) =~= k + ".git"@);
    assert((k + ".git"@).subrange(k.len() as int, k.len() as int + 4) =~= ".git"@);
    assert((k + ".git"@).take(k.len() as int) =~= k);
    assert(!has_suffix(k, ".git"@)) by {
        if has_suffix(k, ".git"@) {
            if repo.len() >= 4 {
                assert(repo.subrange(repo.len() - 4, repo.len() as int) =~= k.subrange(
                    k.len() - 4,
                    k.len() as int,
                ));
            } else {
                let i = k.len() - repo.len() - 1;
                assert(k[i] == ' ');
                assert(k.subrange(k.len() - 4, k.len() as int)[i - (k.len() - 4)] == ' ');
            }
        }
    }
}

proof fn lemma_https(host: Seq<char>, owner: Seq<char>, repo: Seq<char>, suffix: Seq<char>)
    requires
        plain_part(host),
        plain_part(owner),
        plain_part(repo),
    ensures
        strip_prefix(strip_prefix("https://"@ + path_of(host, owner, repo) + suffix, "git+ssh://"@), "https://"@)
            == path_of(host, owner, repo) + suffix,
{
    reveal_strlit("https://");
    reveal_strlit("git+ssh://");
    let u = "https://"@ + path_of(host, owner, repo) + suffix;
    assert(u.subrange(0, 8) =~= "https://"@);
    assert(u.skip(8) =~= path_of(host, owner, repo) + suffix);
    assert(!has_prefix(u, "git+ssh://"@)) by {
        if has_prefix(u, "git+ssh://"@) {
            assert(u.subrange(0, 10)[0] == 'g');
        }
    }
}

proof fn lemma_ssh(host: Seq<char>, owner: Seq<char>, repo: Seq<char>)
    requires
        plain_part(host),
        plain_part(owner),
        plain_part(repo),
    ensures
        strip_prefix(strip_prefix("git+ssh://"@ + path_of(host, owner, repo) + ".git"@, "git+ssh://"@), "https://"@)
            == path_of(host, owner, repo) + ".git"@,
{
    reveal_strlit("https://");
    reveal_strlit("git+ssh://");
    reveal_strlit(".git");
    let r = path_of(host, owner, repo) + ".git"@;
    let u = "git+ssh://"@ + path_of(host, owner, repo) + ".git"@;
    assert(u.subrange(0, 10) =~= "git+ssh://"@);
    assert(u.skip(10) =~= r);
    assert(!has_prefix(r, "https://"@)) by {
        if has_prefix(r, "https://"@) {
            assert(r.subrange(0, 8)[5] == ':');
            assert(r[5] == ':');
            if 5 < host.len() {
                assert(host[5] == ':');
            } else if 5 > host.len() && 5 < host.len() + 1 + owner.len() {
                assert(owner[5 - host.len() - 1] == ':');
            } else if 5 > host.len() + 1 + owner.len() && 5 < host.len() + 2 + owner.len()
                + repo.len() {
                assert(repo[5 - host.len() - 2 - owner.len()] == ':');
            }
        }
    }
}

proof fn lemma_shorthand(host: Seq<char>, owner: Seq<char>, repo: Seq<char>)
    requires
        plain_part(host),
        plain_part(owner),
        plain_part(repo),
        !has_suffix(repo, ".git"@),
    ensures
        repo_key("git@"@ + host + seq![':'] + owner + seq!['/'] + repo + ".git"@) == key_of(
            host,
            owner,
            repo,
        ),
{
    reveal_strlit("https://");
    reveal_strlit("git+ssh://");
    reveal_strlit("git@");
    reveal_strlit(".git");
    let u = "git@"@ + host + seq![':'] + owner + seq!['/'] + repo + ".git"@;
    assert(!has_prefix(u, "git+ssh://"@)) by {
        if has_prefix(u, "git+ssh://"@) {
            assert(u.subrange(0, 10)[3] == '+');
        }
    }
    assert(!has_prefix(u, "https://"@)) by {
        if has_prefix(u, "https://"@) {
            assert(u.subrange(0, 8)[0] == 'h');
        }
    }
    lemma_key_tail(host, owner, repo, ':');
    let k = key_of(host, owner, repo);
    assert(spaced(u) =~= seq!['g', 'i', 't', '@'] + (k + ".git"@)) by {
        assert(u =~= seq!['g', 'i', 't', '@'] + (host + seq![':'] + owner + seq!['/'] + repo
            + ".git"@));
        assert(spaced(seq!['g', 'i', 't', '@']) =~= seq!['g', 'i', 't', '@']);
    }
    assert(!(k + ".git"@).contains('@')) by {
        assert(!k.contains('@'));
    }
    lemma_after_last_tail(seq!['g', 'i', 't', '@'], k + ".git"@, '@');
    assert(seq!['g', 'i', 't', '@'] =~= seq!['g', 'i', 't'].push('@'));
}

proof fn lemma_bare(host: Seq<char>, owner: Seq<char>, repo: Seq<char>)
    requires
        plain_part(host),
        plain_part(owner),
        plain_part(repo),
    ensures
        strip_prefix(strip_prefix(host + seq![':'] + owner + seq!['/'] + repo, "git+ssh://"@), "https://"@)
            == host + seq![':'] + owner + seq!['/'] + repo,
{
    reveal_strlit("https://");
    reveal_strlit("git+ssh://");
    let u = host + seq![':'] + owner + seq!['/'] + repo;
    assert(!has_prefix(u, "git+ssh://"@)) by {
        if has_prefix(u, "git+ssh://"@) {
            let w = u.subrange(0, 10);
            assert(w[8] == '/' && w[9] == '/');
            assert(u[8] == '/' && u[9] == '/');
        }
    }
    assert(!has_prefix(u, "https://"@)) by {
        if has_prefix(u, "https://"@) {
            let w = u.subrange(0, 8);
            assert(w[6] == '/' && w[7] == '/');
            assert(u[6] == '/' && u[7] == '/');
        }
    }
}

/// The common spellings of one repository's remote URL (https, with and
/// without `.git`; `git+ssh`; ssh shorthand; bare `host:owner/repo`) all
/// name the same vault entry.
pub proof fn lemma_spellings_agree(host: Seq<char>, owner: Seq<char>, repo: Seq<char>)
    requires
        plain_part(host),
        plain_part(owner),
        plain_part(repo),
        !has_suffix(repo, ".git"@),
    ensures
        note_title("https://"@ + path_of(host, owner, repo)) == title_of(host, owner, repo),
        note_title("https://"@ + path_of(host, owner, repo) + ".git"@) == title_of(host, owner, repo),
        note_title("git+ssh://"@ + path_of(host, owner, repo) + ".git"@) == title_of(host, owner, repo),
        note_title("git@"@ + host + seq![':'] + owner + seq!['/'] + repo + ".git"@) == title_of(
            host,
            owner,
            repo,
        ),
        note_title(host + seq![':'] + owner + seq!['/'] + repo) == title_of(host, owner, repo),
{
    let k = key_of(host, owner, repo);
    assert(title_of(host, owner, repo) =~= "Hamr - "@ + k);
    lemma_key_tail(host, owner, repo, '/');
    lemma_https(host, owner, repo, Seq::<char>::empty());
    assert(path_of(host, owner, repo) + Seq::<char>::empty() =~= path_of(host, owner, repo));
    assert("https://"@ + path_of(host, owner, repo) + Seq::<char>::empty() =~= "https://"@
        + path_of(host, owner, repo));
    assert(repo_key("https://"@ + path_of(host, owner, repo)) == k);
    lemma_https(host, owner, repo, ".git"@);
    assert(repo_key("https://"@ + path_of(host, owner, repo) + ".git"@) == k);
    lemma_ssh(host, owner, repo);
    assert(repo_key("git+ssh://"@ + path_of(host, owner, repo) + ".git"@) == k);
    lemma_shorthand(host, owner, repo);
    lemma_bare(host, owner, repo);
    lemma_key_tail(host, owner, repo, ':');
    assert(repo_key(host + seq![':'] + owner + seq!['/'] + repo) == k);
}

} // verus!
