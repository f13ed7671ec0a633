//! The engine as a mathematical object: its state, the moves of the log
//! pointer, and the laws of undo, redo and checkout.

use crate::command::PlayCommand;
use crate::history::{lemma_replay_prefix, lemma_sound_extend, replay, sound, tags_step};
use crate::marker::MarkerView;
use crate::model::{Color, PixelPosition};
use crate::scene::{
    apply_all, fit_all, inverses, lemma_apply_all_concat, lemma_inverses_restore, lookup, Effect,
    SceneView,
};
use vstd::prelude::*;

verus! {

/// What a [`crate::model::Model`] is, as plain values.
pub struct ModelView {
    /// The live scene.
    pub scene: SceneView,
    /// The log: the groups of effects that were committed, oldest first.
    pub groups: Seq<Seq<Effect>>,
    /// The log pointer: the groups before it are carried out, those from it
    /// on are taken back and can be carried out again.
    pub pointer: int,
    /// The marking session in progress.
    pub marker: Option<MarkerView>,
    /// What was cut or copied last.
    pub clipboard: Seq<(PixelPosition, Color)>,
    /// The playback in progress.
    pub playback: Option<PlayCommand>,
    /// Whether the session was ended.
    pub quit: bool,
    /// The effects carried out since the record was last taken.
    pub pending: Seq<Effect>,
    /// The effects carried out before that, from the start of the session.
    pub recorded: Seq<Effect>,
}

impl ModelView {
    /// The state of a new session.
    pub open spec fn initial() -> ModelView {
        ModelView {
            scene: SceneView::initial(),
            groups: Seq::empty(),
            pointer: 0,
            marker: None,
            clipboard: Seq::empty(),
            playback: None,
            quit: false,
            pending: Seq::empty(),
            recorded: Seq::empty(),
        }
    }

    /// What holds of every state that the engine reaches: the log is sound,
    /// the scene is the one that the log gives at the pointer, the record
    /// replays to the scene, and a marking session has an anchor.
    pub open spec fn inv(self) -> bool {
        &&& 0 <= self.pointer <= self.groups.len()
        &&& sound(self.groups)
        &&& self.scene == replay(self.groups, self.pointer)
        &&& self.scene == apply_all(SceneView::initial(), self.recorded + self.pending)
        &&& match self.marker {
            Some(m) => m.wf(),
            None => true,
        }
    }

    /// Whether `group` may be committed: it is not empty, its effects
    /// record what they replace, and it leaves a valid scene in which new
    /// tags hold the place that the group takes in the log.
    pub open spec fn admits(self, group: Seq<Effect>) -> bool {
        &&& group.len() > 0
        &&& fit_all(self.scene, group)
        &&& apply_all(self.scene, group).valid()
        &&& tags_step(self.scene, apply_all(self.scene, group), self.pointer)
    }

    /// The state after `group` was carried out and logged. What could be
    /// carried out again before is discarded. An empty group changes
    /// nothing.
    pub open spec fn committed(self, group: Seq<Effect>) -> ModelView {
        if group.len() == 0 {
            self
        } else {
            ModelView {
                scene: apply_all(self.scene, group),
                groups: self.groups.take(self.pointer).push(group),
                pointer: self.pointer + 1,
                pending: self.pending + group,
                ..self
            }
        }
    }

    /// The state after the latest group was taken back. Nothing changes
    /// where no group is carried out.
    pub open spec fn undone(self) -> ModelView {
        if self.pointer <= 0 {
            self
        } else {
            let back = inverses(self.groups[self.pointer - 1]);
            ModelView {
                scene: apply_all(self.scene, back),
                pointer: self.pointer - 1,
                pending: self.pending + back,
                ..self
            }
        }
    }

    /// The state after the group at the pointer was carried out again.
    /// Nothing changes where there is none.
    pub open spec fn redone(self) -> ModelView {
        if self.pointer >= self.groups.len() {
            self
        } else {
            let again = self.groups[self.pointer];
            ModelView {
                scene: apply_all(self.scene, again),
                pointer: self.pointer + 1,
                pending: self.pending + again,
                ..self
            }
        }
    }

    /// The state after groups were taken back until the pointer stands at
    /// `version`. The log keeps the groups that were taken back.
    pub open spec fn rewound(self, version: int) -> ModelView
        decreases self.pointer - version,
    {
        if self.pointer <= version || self.pointer <= 0 {
            self
        } else {
            self.undone().rewound(version)
        }
    }

    /// The state after a checkout of the tag `name`, which must exist: the
    /// group that set the tag is the last one carried out.
    pub open spec fn checked_out(self, name: Seq<char>) -> ModelView {
        self.rewound(self.scene.tags[name] + 1)
    }

    /// Whether `other` differs from `self` in the record alone.
    pub open spec fn same_but_record(self, other: ModelView) -> bool {
        other == (ModelView { pending: other.pending, recorded: other.recorded, ..self })
    }
}

/// A new session satisfies the invariant.
pub proof fn lemma_initial_inv()
    ensures
        ModelView::initial().inv(),
{
    crate::history::lemma_sound_empty();
    let m = ModelView::initial();
    assert(m.recorded + m.pending =~= Seq::<Effect>::empty());
}

/// The live scene is valid.
pub proof fn lemma_scene_valid(m: ModelView)
    requires
        m.inv(),
    ensures
        m.scene.valid(),
{
    reveal(sound);
    assert(replay(m.groups, m.pointer).valid());
}

/// Committing a group that the state admits keeps the invariant. The new
/// group is the last of the log: what stood behind the pointer is gone.
pub proof fn lemma_commit(m: ModelView, group: Seq<Effect>)
    requires
        m.inv(),
        m.admits(group),
    ensures
        m.committed(group).inv(),
        m.committed(group).groups.len() == m.pointer + 1,
        m.committed(group).pointer == m.committed(group).groups.len(),
{
    let n = m.committed(group);
    lemma_sound_extend(m.groups, m.pointer, group);
    lemma_apply_all_concat(SceneView::initial(), m.recorded + m.pending, group);
    assert(n.recorded + n.pending =~= (m.recorded + m.pending) + group);
}

/// Taking a group back keeps the invariant and leaves the scene that the
/// log gives one version earlier.
pub proof fn lemma_undone(m: ModelView)
    requires
        m.inv(),
    ensures
        m.undone().inv(),
        m.pointer > 0 ==> m.undone().scene == replay(m.groups, m.pointer - 1),
{
    reveal(sound);
    if m.pointer > 0 {
        let n = m.undone();
        let group = m.groups[m.pointer - 1];
        let before = replay(m.groups, m.pointer - 1);
        assert(fit_all(before, group));
        lemma_inverses_restore(before, group);
        lemma_apply_all_concat(SceneView::initial(), m.recorded + m.pending, inverses(group));
        assert(n.recorded + n.pending =~= (m.recorded + m.pending) + inverses(group));
    }
}

/// Carrying a group out again keeps the invariant.
pub proof fn lemma_redone(m: ModelView)
    requires
        m.inv(),
    ensures
        m.redone().inv(),
{
    if m.pointer < m.groups.len() {
        let n = m.redone();
        let group = m.groups[m.pointer];
        lemma_apply_all_concat(SceneView::initial(), m.recorded + m.pending, group);
        assert(n.recorded + n.pending =~= (m.recorded + m.pending) + group);
    }
}

/// Undo after redo, and redo after undo, give the state back: wherever
/// there is a group to carry out again, taking it back afterwards restores
/// the scene, the log and the pointer exactly, and wherever there is a
/// group to take back, carrying it out again does. Only the record of
/// applied effects grows.
pub proof fn lemma_undo_redo_cancel(m: ModelView)
    requires
        m.inv(),
    ensures
        m.pointer < m.groups.len() ==> m.same_but_record(m.redone().undone()),
        m.pointer > 0 ==> m.same_but_record(m.undone().redone()),
        m.pointer > 0 ==> m.undone().scene == replay(m.groups, m.pointer - 1),
{
    reveal(sound);
    if m.pointer < m.groups.len() {
        let group = m.groups[m.pointer];
        assert(fit_all(m.scene, group));
        lemma_inverses_restore(m.scene, group);
    }
    if m.pointer > 0 {
        let group = m.groups[m.pointer - 1];
        let before = replay(m.groups, m.pointer - 1);
        assert(fit_all(before, group));
        lemma_inverses_restore(before, group);
    }
}

/// Undo exactly reverts the latest group: after a group was committed,
/// taking it back gives the scene and the pointer from before it, and
/// carrying it out again gives the scene that it had given.
pub proof fn lemma_undo_reverts_commit(m: ModelView, group: Seq<Effect>)
    requires
        m.inv(),
        group.len() > 0,
        m.committed(group).inv(),
    ensures
        m.committed(group).undone().scene == m.scene,
        m.committed(group).undone().pointer == m.pointer,
        m.committed(group).undone().redone().scene == m.committed(group).scene,
        m.committed(group).same_but_record(m.committed(group).undone().redone()),
{
    let n = m.committed(group);
    lemma_replay_prefix(n.groups, m.groups, m.pointer);
    lemma_undo_redo_cancel(n);
}

/// Rewinding to a version at or before the pointer keeps the invariant,
/// leaves the log, the marking, the clipboard and the playback alone, and
/// gives the scene that the log stands for at that version.
pub proof fn lemma_rewound(m: ModelView, version: int)
    requires
        m.inv(),
        0 <= version <= m.pointer,
    ensures
        m.rewound(version).inv(),
        m.rewound(version).pointer == version,
        m.rewound(version).scene == replay(m.groups, version),
        m.rewound(version) == (ModelView {
            scene: m.rewound(version).scene,
            pointer: version,
            pending: m.rewound(version).pending,
            ..m
        }),
    decreases m.pointer - version,
{
    if m.pointer > version {
        lemma_undone(m);
        lemma_rewound(m.undone(), version);
    }
}

/// A tag of the live scene holds the place of a group before the pointer,
/// and stands with the same value once that group is carried out.
pub proof fn lemma_tag_version(m: ModelView, name: Seq<char>)
    requires
        m.inv(),
        m.scene.tags.contains_key(name),
    ensures
        0 <= m.scene.tags[name] < m.pointer,
        lookup(replay(m.groups, m.scene.tags[name] + 1).tags, name) == Some(m.scene.tags[name]),
{
    reveal(sound);
    assert(replay(m.groups, m.pointer).valid() && crate::history::tags_anchored(
        m.groups,
        m.pointer,
    ));
}

/// Checkout is idempotent and depends on the log and the tag alone. After
/// a checkout of a tag the tag still stands and holds the same place in
/// the log, a second checkout of it changes nothing, and any state with the same log in which the tag has
/// the same value, whatever was undone or redone in between, checks out
/// to the same scene and pointer.
pub proof fn lemma_checkout_idempotent(m: ModelView, other: ModelView, name: Seq<char>)
    requires
        m.inv(),
        m.scene.tags.contains_key(name),
        other.inv(),
        other.groups == m.groups,
        lookup(other.scene.tags, name) == Some(m.scene.tags[name]),
    ensures
        m.checked_out(name).inv(),
        lookup(m.checked_out(name).scene.tags, name) == Some(m.scene.tags[name]),
        m.checked_out(name).checked_out(name) == m.checked_out(name),
        other.checked_out(name).scene == m.checked_out(name).scene,
        other.checked_out(name).pointer == m.checked_out(name).pointer,
        m.checked_out(name).scene == replay(m.groups, m.scene.tags[name] + 1),
{
    let v = m.scene.tags[name] + 1;
    lemma_tag_version(m, name);
    lemma_tag_version(other, name);
    lemma_rewound(m, v);
    lemma_rewound(other, v);
}

} // verus!
