//! Laws of the registry and the router, stated over the same spec
//! functions the exec contracts use.

use vstd::prelude::*;
use crate::message::Delivery;
use crate::rooms::spec_leave;
use crate::session::{SessionState, consistent_with, in_room, recipients_exactly};

verus! {

/// Registry consistency across sessions: a routing or teardown step by
/// one session never breaks another session's exact agreement with the
/// room registry. The step's frame condition — membership of every
/// other client is untouched — is exactly what `handle_frame` and
/// `teardown` ensure.
pub proof fn lemma_step_preserves_others(
    before: Map<Seq<char>, Set<Seq<char>>>,
    after: Map<Seq<char>, Set<Seq<char>>>,
    actor: Seq<char>,
    other: SessionState,
)
    requires
        other.id != actor,
        consistent_with(other, before),
        forall|r: Seq<char>, c: Seq<char>|
            #![trigger in_room(after, r, c)]
            #![trigger in_room(before, r, c)]
            c != actor ==> in_room(after, r, c) == in_room(before, r, c),
    ensures
        consistent_with(other, after),
{
    match other.room {
        Some(r) => {
            assert(in_room(after, r, other.id));
            assert forall|r2: Seq<char>| r2 != r implies !(#[trigger] in_room(
                after,
                r2,
                other.id,
            )) by {
                assert(!in_room(before, r2, other.id));
            }
        },
        None => {
            assert forall|r2: Seq<char>| !(#[trigger] in_room(after, r2, other.id)) by {
                assert(!in_room(before, r2, other.id));
            }
        },
    }
}

/// Empty-room cleanup: when the last member of a room leaves it, the
/// room's entry disappears from the registry.
pub proof fn lemma_empty_room_cleanup(
    m: Map<Seq<char>, Set<Seq<char>>>,
    r: Seq<char>,
    c: Seq<char>,
)
    requires
        m.contains_key(r),
        m[r].contains(c),
        forall|x: Seq<char>| #[trigger] m[r].contains(x) ==> x == c,
    ensures
        !spec_leave(m, r, c).contains_key(r),
{
    assert(m[r].remove(c) =~= Set::<Seq<char>>::empty());
}

/// Self-exclusion: a fan-out produced by the router — a room-wide relay
/// or an announce — never carries a delivery back to the excluded
/// sender.
pub proof fn lemma_self_exclusion<H>(
    ds: Seq<Delivery>,
    targets: Set<Seq<char>>,
    sender: Seq<char>,
    clients: Map<Seq<char>, H>,
)
    requires
        recipients_exactly(ds, targets, sender, clients),
    ensures
        forall|k: int| 0 <= k < ds.len() ==> (#[trigger] ds[k]).recipient@ != sender,
{
}

} // verus!
