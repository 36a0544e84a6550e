use vstd::prelude::*;

verus! {

/// The text written before an input's content: nothing when the run has a
/// single input, else `==> name <==` on its own line, after a blank line for
/// every input but the first.
pub open spec fn header_text(name: Seq<char>, index: nat, count: nat) -> Seq<char> {
    if count <= 1 {
        seq![]
    } else {
        (if index > 0 { seq!['\n'] } else { seq![] }) + seq!['=', '=', '>', ' '] + name + seq![
            ' ',
            '<',
            '=',
            '=',
            '\n',
        ]
    }
}

/// The line written to the error stream for an input that cannot be opened.
pub open spec fn open_error_text(name: Seq<char>, cause: Seq<char>) -> Seq<char> {
    name + seq![':', ' '] + cause + seq!['\n']
}

/// The header of the input at `index` (from 0) in a run of `count` inputs.
pub fn header(name: &str, index: usize, count: usize) -> (r: String)
    ensures
        r@ == header_text(name@, index as nat, count as nat),
{
    let mut s = String::new();
    if count > 1 {
        proof {
            reveal_strlit("\n");
            reveal_strlit("==> ");
            reveal_strlit(" <==\n");
        }
        if index > 0 {
            s.append("\n");
        }
        s.append("==> ");
        s.append(name);
        s.append(" <==\n");
        assert(s@ =~= header_text(name@, index as nat, count as nat));
    } else {
        assert(s@ =~= header_text(name@, index as nat, count as nat));
    }
    s
}

/// The diagnostic for an input named `name` that could not be opened for
/// the reason `cause`.
pub fn open_error_line(name: &str, cause: &str) -> (r: String)
    ensures
        r@ == open_error_text(name@, cause@),
{
    proof {
        reveal_strlit(": ");
        reveal_strlit("\n");
    }
    let mut s = String::from_str(name);
    s.append(": ");
    s.append(cause);
    s.append("\n");
    assert(s@ =~= open_error_text(name@, cause@));
    s
}

} // verus!
