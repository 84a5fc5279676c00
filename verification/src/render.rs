//! Rendering the retrieval digest: the recent commands, oldest of the batch
//! first, one command per line, with a trailing blank line.

use vstd::prelude::*;

use crate::command::{Command, CommandV, views_of};

verus! {

/// The lines of the digest for a newest-first batch `s`: the batch in
/// reverse (oldest first), each entry's command followed by a newline.
pub open spec fn rev_lines(s: Seq<CommandV>) -> Seq<char>
    decreases s.len(),
{
    if s.len() == 0 {
        Seq::<char>::empty()
    } else {
        rev_lines(s.drop_first()) + s.first().command + seq!['\n']
    }
}

/// The whole digest body: the lines, then one more newline. An empty batch
/// yields a single newline.
pub open spec fn digest_of(s: Seq<CommandV>) -> Seq<char> {
    rev_lines(s) + seq!['\n']
}

/// Render a newest-first batch of commands as the plain-text digest:
/// oldest first, one command per line, newline-terminated, with a trailing
/// blank line.
pub fn render_digest(cmds: &Vec<Command>) -> (r: String)
    ensures
        r@ == digest_of(views_of(cmds@)),
{
    let ghost all = views_of(cmds@);
    let mut out = String::new();
    let mut i: usize = cmds.len();
    proof {
        assert(all.skip(i as int) =~= Seq::<CommandV>::empty());
    }
    while i > 0
        invariant
            i <= cmds.len(),
            all == views_of(cmds@),
            out@ == rev_lines(all.skip(i as int)),
        decreases i,
    {
        i = i - 1;
        out.append(cmds[i].command.as_str());
        out.append("\n");
        proof {
            reveal_strlit("\n");
            assert("\n"@ =~= seq!['\n']);
            let t = all.skip(i as int);
            assert(t.len() > 0);
            assert(t.drop_first() =~= all.skip(i + 1));
            assert(t.first() == all[i as int]);
            assert(all[i as int] == cmds@[i as int]@);
            assert(out@ =~= rev_lines(t));
        }
    }
    out.append("\n");
    proof {
        reveal_strlit("\n");
        assert("\n"@ =~= seq!['\n']);
        assert(all.skip(0) =~= all);
    }
    out
}

} // verus!
