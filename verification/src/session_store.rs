//! The choice among the session stores of several workspaces.

use vstd::prelude::*;

verus! {

/// How many workspaces are looked at.
pub const MAX_WORKSPACES: usize = 50;

/// The places looked at: the first few.
pub open spec fn looked_at(n: nat) -> int {
    if n < MAX_WORKSPACES {
        n as int
    } else {
        MAX_WORKSPACES as int
    }
}

/// `i` is the place of the store that changed last; of several that did, the last.
pub open spec fn is_latest(changed: Seq<Option<u128>>, i: int) -> bool {
    &&& 0 <= i < looked_at(changed.len())
    &&& changed[i] is Some
    &&& forall|k: int|
        0 <= k < looked_at(changed.len()) && (#[trigger] changed[k]) is Some ==> changed[k]->0
            <= changed[i]->0
    &&& forall|k: int|
        i < k < looked_at(changed.len()) && (#[trigger] changed[k]) is Some ==> changed[k]->0
            < changed[i]->0
}

/// The place of the session store that changed last, given for each workspace when its store
/// changed, if it has one. Only the first few workspaces are looked at.
pub fn find_session_store(changed: &Vec<Option<u128>>) -> (r: Option<usize>)
    ensures
        r matches Some(i) ==> is_latest(changed@, i as int),
        r is None ==> forall|k: int|
            0 <= k < looked_at(changed@.len()) ==> (#[trigger] changed@[k]) is None,
{
    let mut best: Option<(usize, u128)> = None;
    let mut i: usize = 0;
    while i < changed.len() && i < MAX_WORKSPACES
        invariant
            i <= looked_at(changed@.len()),
            match best {
                Some((b, t)) => {
                    &&& b < i
                    &&& changed@[b as int] == Some(t)
                    &&& forall|k: int|
                        0 <= k < i && (#[trigger] changed@[k]) is Some ==> changed@[k]->0 <= t
                    &&& forall|k: int|
                        b < k < i && (#[trigger] changed@[k]) is Some ==> changed@[k]->0 < t
                },
                None => forall|k: int| 0 <= k < i ==> (#[trigger] changed@[k]) is None,
            },
        decreases changed@.len() - i,
    {
        match changed[i] {
            Some(t) => {
                let newer = match best {
                    Some((_, u)) => t >= u,
                    None => true,
                };
                if newer {
                    best = Some((i, t));
                }
            },
            None => {},
        }
        i = i + 1;
    }
    match best {
        Some((b, _)) => Some(b),
        None => None,
    }
}

/// There is at most one such place.
pub proof fn law_latest_is_one(changed: Seq<Option<u128>>, i: int, j: int)
    requires
        is_latest(changed, i),
        is_latest(changed, j),
    ensures
        i == j,
{
    assert(changed[i] is Some && changed[j] is Some);
}

/// The store chosen lies among the first fifty and changed no earlier than any other of them.
pub proof fn law_latest_of_the_first_fifty(changed: Seq<Option<u128>>, i: int, k: int)
    requires
        is_latest(changed, i),
        0 <= k < 50,
        k < changed.len(),
        changed[k] is Some,
    ensures
        0 <= i < 50,
        i < changed.len(),
        changed[i] is Some,
        changed[k]->0 <= changed[i]->0,
        k > i ==> changed[k]->0 < changed[i]->0,
{
}

} // verus!
