use vstd::prelude::*;
use crate::command::{invocation, owned, Invocation, InvocationView};
use crate::naming::strip_prefix;
use crate::text::{
    chars_of, find, first_occurrence, lemma_first_occurrence, matches_at, occurs_at, slice_of,
    string_of,
};

verus! {

/// The marker that tags a vault entry body as holding this tool's data.
pub open spec fn marker() -> Seq<char> {
    "HamrData: "@
}

/// The body that carries `payload`.
pub open spec fn encoded(payload: Seq<char>) -> Seq<char> {
    marker() + payload
}

/// What follows the first line of `raw`; nothing when `raw` is one line.
pub open spec fn after_header(raw: Seq<char>) -> Seq<char> {
    match first_occurrence(raw, seq!['\n']) {
        Some(i) => raw.skip(i + 1),
        None => Seq::<char>::empty(),
    }
}

/// `s` without one trailing `\n`, then without one trailing `\r`.
pub open spec fn trim_terminator(s: Seq<char>) -> Seq<char> {
    let t = if s.len() > 0 && s.last() == '\n' {
        s.drop_last()
    } else {
        s
    };
    if t.len() > 0 && t.last() == '\r' {
        t.drop_last()
    } else {
        t
    }
}

/// The payload of a vault entry body as the vault shows it.
pub open spec fn decoded(raw: Seq<char>) -> Seq<char> {
    trim_terminator(strip_prefix(after_header(raw), marker()))
}

/// The vault entry body that carries `data`.
pub fn encode_body(data: &str) -> (r: String)
    ensures
        r@ == encoded(data@),
{
    let mut r = owned("HamrData: ");
    r.append(data);
    r
}

/// The vault command that stores `data` in the entry `name`.
pub fn save_data(name: &str, data: &str) -> (r: Invocation)
    ensures
        r@ == (InvocationView {
            program: "lpass"@,
            args: seq!["edit"@, name@, "--non-interactive"@, "--sync=now"@],
            input: Some(encoded(data@)),
        }),
{
    let args = vec![owned("edit"), owned(name), owned("--non-interactive"), owned("--sync=now")];
    let mut r = invocation("lpass", args);
    r.input = Some(encode_body(data));
    proof {
        assert(r@.args =~= seq!["edit"@, name@, "--non-interactive"@, "--sync=now"@]);
    }
    r
}

/// The payload of the vault entry body `output`, as the vault's show
/// command printed it.
pub fn load_data(output: &str) -> (r: String)
    ensures
        r@ == decoded(output@),
{
    let raw = chars_of(output);
    let nl = vec!['\n'];
    proof {
        assert(nl@ =~= seq!['\n']);
    }
    let n = raw.len();
    let mut rest = match find(&raw, &nl) {
        Some(i) => {
            proof {
                lemma_first_occurrence(raw@, nl@, i as int);
            }
            slice_of(&raw, i + 1, n)
        },
        None => {
            proof {
                reveal(first_occurrence);
            }
            Vec::new()
        },
    };
    proof {
        assert(rest@ =~= after_header(output@));
    }
    let mark = chars_of("HamrData: ");
    if matches_at(&rest, &mark, 0) {
        rest = slice_of(&rest, mark.len(), rest.len());
    }
    let ghost stripped = rest@;
    if rest.len() > 0 && rest[rest.len() - 1] == '\n' {
        rest.pop();
    }
    if rest.len() > 0 && rest[rest.len() - 1] == '\r' {
        rest.pop();
    }
    proof {
        assert(stripped == strip_prefix(after_header(output@), marker()));
    }
    string_of(&rest)
}

/// A payload survives the trip through the vault: the body that the vault
/// shows is a header line, a line break and the stored body, and reading it
/// gives back the payload, whenever the payload does not end in a line
/// terminator.
pub proof fn lemma_envelope_round_trip(header: Seq<char>, payload: Seq<char>)
    requires
        !header.contains('\n'),
        payload.len() > 0 ==> payload.last() != '\n' && payload.last() != '\r',
    ensures
        decoded(header + seq!['\n'] + encoded(payload)) == payload,
{
    let raw = header + seq!['\n'] + encoded(payload);
    let nl = seq!['\n'];
    assert(raw.subrange(header.len() as int, header.len() as int + 1) =~= nl);
    assert forall|j: int| 0 <= j < header.len() implies !occurs_at(raw, nl, j) by {
        assert(raw.subrange(j, j + 1)[0] == header[j]);
    }
    lemma_first_occurrence(raw, nl, header.len() as int);
    assert(raw.skip(header.len() as int + 1) =~= marker() + payload);
    assert((marker() + payload).subrange(0, marker().len() as int) =~= marker());
    assert((marker() + payload).skip(marker().len() as int) =~= payload);
}

} // verus!
