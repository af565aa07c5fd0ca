//! What the panels ask for while drawing, applied once per frame where the
//! world may change: spawns, despawns, scene saves and loads, and script
//! reloads. Doing the work belongs to the program; which request is taken,
//! and what becomes of the selection, is decided here.

use vstd::prelude::*;

use crate::entity::Entity;

verus! {

pub const DEFAULT_SCENE_PATH: &'static str = "scene.orrin";

#[derive(Clone, Copy, PartialEq, Eq, Structural, Debug)]
pub enum SceneRequest {
    Save,
    Load,
}

#[derive(Clone, Copy, PartialEq, Eq, Structural, Debug)]
pub enum SpawnKind {
    Cube,
    Sphere,
    Plane,
    PointLight,
    DirectionalLight,
}

/// The requests taken for one frame's apply.
#[derive(Clone, Copy, PartialEq, Eq, Structural, Debug)]
pub struct Requests {
    pub spawn: Option<SpawnKind>,
    pub despawn: Option<Entity>,
    pub scene: Option<SceneRequest>,
}

/// What applying the requests did to the world.
#[derive(Clone, Copy, PartialEq, Eq, Structural, Debug)]
pub struct Applied {
    /// The entity the spawn request made, if it made one.
    pub spawned: Option<Entity>,
    /// The entity despawned on request, if there was one.
    pub despawned: Option<Entity>,
    /// Whether a scene was loaded over the world.
    pub loaded: bool,
}

pub struct EditorState {
    pub selected: Option<Entity>,
    pub scene_path: String,
    spawn_request: Option<SpawnKind>,
    despawn_request: Option<Entity>,
    scene_request: Option<SceneRequest>,
    script_reload_request: bool,
}

/// The selection after a frame's requests were applied: a spawned entity is
/// selected, a despawned selection is cleared, and loading a scene clears it.
pub open spec fn selection_after(selected: Option<Entity>, applied: Applied) -> Option<Entity> {
    let s1 = if applied.spawned is Some {
        applied.spawned
    } else {
        selected
    };
    let s2 = if applied.despawned is Some && s1 == applied.despawned {
        None
    } else {
        s1
    };
    if applied.loaded {
        None
    } else {
        s2
    }
}

impl EditorState {
    /// The requests waiting for the next apply.
    pub closed spec fn pending(&self) -> Requests {
        Requests { spawn: self.spawn_request, despawn: self.despawn_request, scene: self.scene_request }
    }

    pub closed spec fn reload_requested(&self) -> bool {
        self.script_reload_request
    }

    pub closed spec fn selection(&self) -> Option<Entity> {
        self.selected
    }

    pub closed spec fn scene(&self) -> Seq<char> {
        self.scene_path@
    }

    pub fn request_spawn(&mut self, kind: SpawnKind)
        ensures
            final(self).pending() == (Requests { spawn: Some(kind), ..old(self).pending() }),
            final(self).selection() == old(self).selection(),
            final(self).scene() == old(self).scene(),
            final(self).reload_requested() == old(self).reload_requested(),
    {
        self.spawn_request = Some(kind);
    }

    pub fn request_scene(&mut self, request: SceneRequest)
        ensures
            final(self).pending() == (Requests { scene: Some(request), ..old(self).pending() }),
            final(self).selection() == old(self).selection(),
            final(self).scene() == old(self).scene(),
            final(self).reload_requested() == old(self).reload_requested(),
    {
        self.scene_request = Some(request);
    }

    pub fn request_despawn(&mut self, entity: Entity)
        ensures
            final(self).pending() == (Requests { despawn: Some(entity), ..old(self).pending() }),
            final(self).selection() == old(self).selection(),
            final(self).scene() == old(self).scene(),
            final(self).reload_requested() == old(self).reload_requested(),
    {
        self.despawn_request = Some(entity);
    }

    pub fn request_script_reload(&mut self)
        ensures
            final(self).reload_requested(),
            final(self).pending() == old(self).pending(),
            final(self).selection() == old(self).selection(),
            final(self).scene() == old(self).scene(),
    {
        self.script_reload_request = true;
    }

    /// Whether a script reload was requested since the last take; clears it.
    pub fn take_script_reload_request(&mut self) -> (r: bool)
        ensures
            r == old(self).reload_requested(),
            !final(self).reload_requested(),
            final(self).pending() == old(self).pending(),
            final(self).selection() == old(self).selection(),
            final(self).scene() == old(self).scene(),
    {
        let r = self.script_reload_request;
        self.script_reload_request = false;
        r
    }

    /// Takes the waiting requests for this frame's apply, leaving none.
    pub fn take_requests(&mut self) -> (r: Requests)
        ensures
            r == old(self).pending(),
            final(self).pending() == (Requests { spawn: None, despawn: None, scene: None }),
            final(self).selection() == old(self).selection(),
            final(self).scene() == old(self).scene(),
            final(self).reload_requested() == old(self).reload_requested(),
    {
        let r = Requests { spawn: self.spawn_request, despawn: self.despawn_request, scene: self.scene_request };
        self.spawn_request = None;
        self.despawn_request = None;
        self.scene_request = None;
        r
    }

    /// Brings the selection up to date with what applying the requests did.
    pub fn applied(&mut self, applied: Applied)
        ensures
            final(self).selection() == selection_after(old(self).selection(), applied),
            final(self).pending() == old(self).pending(),
            final(self).scene() == old(self).scene(),
            final(self).reload_requested() == old(self).reload_requested(),
    {
        if let Some(entity) = applied.spawned {
            self.selected = Some(entity);
        }
        if let Some(entity) = applied.despawned {
            if self.selected == Some(entity) {
                self.selected = None;
            }
        }
        if applied.loaded {
            self.selected = None;
        }
    }
}

impl Default for EditorState {
    fn default() -> (r: Self)
        ensures
            r.selection() is None,
            r.scene() == DEFAULT_SCENE_PATH@,
            r.pending() == (Requests { spawn: None, despawn: None, scene: None }),
            !r.reload_requested(),
    {
        EditorState {
            selected: None,
            scene_path: String::from_str(DEFAULT_SCENE_PATH),
            spawn_request: None,
            despawn_request: None,
            scene_request: None,
            script_reload_request: false,
        }
    }
}

} // verus!
