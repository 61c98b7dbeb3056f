//! Authoritative simulation and session core of a real-time multiplayer
//! arena game: vehicles leave permanent trails, collisions are fatal, and
//! the last surviving vehicle wins. Arena state changes only through an
//! append-only update log, which doubles as the replication protocol.

pub mod arena;
pub mod assoc;
pub mod entities;
pub mod geometry;
pub mod input;
pub mod messages;
pub mod primitives;
pub mod rng;
pub mod server;
pub mod updates;
pub mod util;

use vstd::prelude::*;

verus! {

/// The error type of the anyhow crate, carried through opaquely.
#[verifier::external_type_specification]
#[verifier::external_body]
pub struct ExAnyhowError(anyhow::Error);

/// Relies on anyhow::Error::chain: the display text of an error and of
/// each of its sources, outermost first. The chain starts with the error
/// itself, so the result is never empty.
#[verifier::external_body]
fn error_chain_strings(error: &anyhow::Error) -> (r: Vec<String>)
    ensures
        r@.len() >= 1,
{
    error.chain().map(|e| format!("{}", e)).collect()
}

/// One string for a whole error chain: the parts joined by `": "`.
pub open spec fn joined_chain(parts: Seq<Seq<char>>) -> Seq<char>
    decreases parts.len(),
{
    if parts.len() == 0 {
        Seq::empty()
    } else if parts.len() == 1 {
        parts[0]
    } else {
        parts[0] + ": "@ + joined_chain(parts.drop_first())
    }
}

/// Returns a string representing the source hierarchy of an error:
/// `"$error: $source: $source_2: etc"`.
pub fn get_error_chain(error: anyhow::Error) -> (r: String)
    ensures
        exists|parts: Seq<Seq<char>>| parts.len() >= 1 && r@ == #[trigger] joined_chain(parts),
{
    let parts = error_chain_strings(&error);
    let r = join_parts(&parts);
    proof {
        let views = parts@.map_values(|s: String| s@);
        assert(views.len() >= 1 && r@ == joined_chain(views));
    }
    r
}

/// Joins the given parts with `": "`, as `joined_chain` says.
pub fn join_parts(parts: &Vec<String>) -> (r: String)
    ensures
        r@ == joined_chain(parts@.map_values(|s: String| s@)),
{
    let ghost views = parts@.map_values(|s: String| s@);
    let mut out = String::new();
    if parts.len() == 0 {
        assert(out@ =~= joined_chain(views));
        return out;
    }
    let mut i: usize = parts.len() - 1;
    out = parts[i].clone();
    proof {
        assert(views.skip(i as int) =~= seq![views[i as int]]);
    }
    while i > 0
        invariant
            0 <= i < parts@.len(),
            views == parts@.map_values(|s: String| s@),
            out@ == joined_chain(views.skip(i as int)),
        decreases i,
    {
        i = i - 1;
        let mut piece = parts[i].clone();
        piece.append(": ");
        piece.append(out.as_str());
        proof {
            reveal_strlit(": ");
            assert(views.skip(i as int).drop_first() =~= views.skip(i as int + 1));
            assert(views.skip(i as int)[0] == views[i as int]);
            assert(views.skip(i as int).len() >= 2);
        }
        out = piece;
    }
    proof {
        assert(views.skip(0) =~= views);
    }
    out
}

} // verus!
