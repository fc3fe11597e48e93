//! Game objects: their kinds and what an object's update reports.

use vstd::prelude::*;

verus! {

/// The kind of a game object.
#[derive(Debug, Clone, Copy, PartialEq, Eq)]
pub enum GameObjectType {
    NoType,
    Player,
}

impl Default for GameObjectType {
    /// An object of no particular kind.
    fn default() -> (t: GameObjectType)
        ensures
            t == GameObjectType::NoType,
    {
        GameObjectType::NoType
    }
}

/// What the update of a game object reports: whether it succeeded, and the objects it
/// spawned, if any.
pub struct GameObjectUpdateResult<O> {
    pub success: bool,
    pub new_objects: Option<Vec<O>>,
}

impl<O> GameObjectUpdateResult<O> {
    /// A successful update that spawned nothing.
    pub fn success() -> (r: GameObjectUpdateResult<O>)
        ensures
            r.success,
            r.new_objects is None,
    {
        GameObjectUpdateResult { success: true, new_objects: None }
    }

    /// A failed update that spawned nothing.
    pub fn failure() -> (r: GameObjectUpdateResult<O>)
        ensures
            !r.success,
            r.new_objects is None,
    {
        GameObjectUpdateResult { success: false, new_objects: None }
    }

    /// The same report, with `new_objects` as the spawned objects.
    pub fn with_new_objects(self, new_objects: Vec<O>) -> (r: GameObjectUpdateResult<O>)
        ensures
            r.success == self.success,
            r.new_objects == Some(new_objects),
    {
        let mut s = self;
        s.new_objects = Some(new_objects);
        s
    }
}

} // verus!
