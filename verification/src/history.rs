//! The effect log as a mathematical object: the scenes that it stands for
//! and what makes it sound.

use crate::scene::{apply_all, fit_all, lookup, Effect, SceneView};
use vstd::prelude::*;

verus! {

/// The scene that the first `n` groups of `groups` give, applied in
/// order to the scene of a new session.
pub open spec fn replay(groups: Seq<Seq<Effect>>, n: int) -> SceneView
    decreases n,
{
    if n <= 0 {
        SceneView::initial()
    } else {
        apply_all(replay(groups, n - 1), groups[n - 1])
    }
}

/// Whether every tag of the scene at version `n` holds the place in the
/// log of a group before `n`, after which the tag stands with that same
/// value.
pub open spec fn tags_anchored(groups: Seq<Seq<Effect>>, n: int) -> bool {
    forall|name: Seq<char>| #[trigger]
        replay(groups, n).tags.contains_key(name) ==> {
            let v = replay(groups, n).tags[name];
            &&& 0 <= v < n
            &&& lookup(replay(groups, v + 1).tags, name) == Some(v)
        }
}

/// Whether `groups` is a sound log: no group is empty, each effect records
/// what it really replaces, and every version is a valid scene with
/// anchored tags.
#[verifier::opaque]
pub open spec fn sound(groups: Seq<Seq<Effect>>) -> bool {
    &&& forall|i: int|
        0 <= i < groups.len() ==> (#[trigger] groups[i]).len() > 0 && fit_all(
            replay(groups, i),
            groups[i],
        )
    &&& forall|i: int|
        0 <= i <= groups.len() ==> (#[trigger] replay(groups, i)).valid() && tags_anchored(
            groups,
            i,
        )
}

/// Logs that agree on their first `n` groups give the same scene at `n`.
pub proof fn lemma_replay_prefix(a: Seq<Seq<Effect>>, b: Seq<Seq<Effect>>, n: int)
    requires
        n <= a.len(),
        n <= b.len(),
        forall|i: int| 0 <= i < n ==> a[i] == b[i],
    ensures
        replay(a, n) == replay(b, n),
    decreases n,
{
    if n > 0 {
        lemma_replay_prefix(a, b, n - 1);
    }
}

/// Whether the tags of `after` are those of `before`, but for tags set
/// to `place` and tags removed.
pub open spec fn tags_step(before: SceneView, after: SceneView, place: int) -> bool {
    forall|name: Seq<char>| #[trigger]
        after.tags.contains_key(name) ==> after.tags[name] == place || lookup(
            before.tags,
            name,
        ) == Some(after.tags[name])
}

/// Cutting a sound log after `n` groups and appending a group that fits
/// gives a sound log.
pub proof fn lemma_sound_extend(groups: Seq<Seq<Effect>>, n: int, group: Seq<Effect>)
    requires
        sound(groups),
        0 <= n <= groups.len(),
        group.len() > 0,
        fit_all(replay(groups, n), group),
        apply_all(replay(groups, n), group).valid(),
        tags_step(replay(groups, n), apply_all(replay(groups, n), group), n),
    ensures
        sound(groups.take(n).push(group)),
        replay(groups.take(n).push(group), n + 1) == apply_all(replay(groups, n), group),
        forall|i: int|
            0 <= i <= n ==> replay(groups.take(n).push(group), i) == #[trigger] replay(groups, i),
{
    reveal(sound);
    let next = groups.take(n).push(group);
    assert forall|i: int| 0 <= i <= n implies replay(next, i) == #[trigger] replay(groups, i) by {
        lemma_replay_prefix(next, groups, i);
    }
    assert(replay(next, n + 1) == apply_all(replay(next, n), next[n]));
    assert forall|i: int| 0 <= i < next.len() implies (#[trigger] next[i]).len() > 0 && fit_all(
        replay(next, i),
        next[i],
    ) by {
        if i < n {
            assert(next[i] == groups[i]);
        }
    }
    assert forall|i: int| 0 <= i <= next.len() implies (#[trigger] replay(next, i)).valid()
        && tags_anchored(next, i) by {
        if i <= n {
            assert(replay(groups, i).valid() && tags_anchored(groups, i));
            assert forall|name: Seq<char>| #[trigger]
                replay(next, i).tags.contains_key(name) implies {
                let v = replay(next, i).tags[name];
                &&& 0 <= v < i
                &&& lookup(replay(next, v + 1).tags, name) == Some(v)
            } by {
                let v = replay(groups, i).tags[name];
                assert(replay(next, v + 1) == replay(groups, v + 1));
            }
        } else {
            assert(tags_anchored(groups, n));
            assert forall|name: Seq<char>| #[trigger]
                replay(next, i).tags.contains_key(name) implies {
                let v = replay(next, i).tags[name];
                &&& 0 <= v < i
                &&& lookup(replay(next, v + 1).tags, name) == Some(v)
            } by {
                let v = replay(next, i).tags[name];
                if v != n {
                    assert(replay(groups, n).tags.contains_key(name));
                    assert(replay(next, v + 1) == replay(groups, v + 1));
                }
            }
        }
    }
}

/// The log without history is sound.
pub proof fn lemma_sound_empty()
    ensures
        sound(Seq::<Seq<Effect>>::empty()),
        SceneView::initial().valid(),
{
    reveal(sound);
    let s = SceneView::initial();
    assert(s.valid());
    assert(replay(Seq::<Seq<Effect>>::empty(), 0) == s);
}

} // verus!
