//! The gameplay systems of a client and the fixed order in which one tick
//! runs them.
use vstd::prelude::*;

verus! {

/// The gameplay systems that run once per tick.
#[derive(Clone, Copy, Debug, PartialEq, Eq, Structural)]
pub enum GameplaySystem {
    CameraMovement,
    Kepler,
    Resources,
    MouseInteraction,
    Building,
    Combat,
}

/// Whether system `a` must run after system `b` in a tick: building and combat
/// act on what the mouse interaction found.
pub open spec fn depends_on(a: GameplaySystem, b: GameplaySystem) -> bool {
    (a == GameplaySystem::Building || a == GameplaySystem::Combat) && b
        == GameplaySystem::MouseInteraction
}

/// Whether a schedule runs every system once, each after the ones it depends
/// on.
pub open spec fn is_valid_schedule(s: Seq<GameplaySystem>) -> bool {
    &&& s.no_duplicates()
    &&& forall|x: GameplaySystem| #[trigger] s.contains(x)
    &&& forall|i: int, j: int|
        0 <= i < s.len() && 0 <= j < s.len() && depends_on(s[i], s[j]) ==> j < i
}

/// Prepares the main gameplay systems: the order in which a tick runs them.
pub struct GameplayBundle;

impl GameplayBundle {
    /// The systems in the order that a tick runs them.
    pub fn build(self) -> (r: Vec<GameplaySystem>)
        ensures
            r@ == seq![
                GameplaySystem::CameraMovement,
                GameplaySystem::Kepler,
                GameplaySystem::Resources,
                GameplaySystem::MouseInteraction,
                GameplaySystem::Building,
                GameplaySystem::Combat,
            ],
            is_valid_schedule(r@),
    {
        let r = vec![
            GameplaySystem::CameraMovement,
            GameplaySystem::Kepler,
            GameplaySystem::Resources,
            GameplaySystem::MouseInteraction,
            GameplaySystem::Building,
            GameplaySystem::Combat,
        ];
        assert forall|x: GameplaySystem| #[trigger] r@.contains(x) by {
            match x {
                GameplaySystem::CameraMovement => assert(r@[0] == x),
                GameplaySystem::Kepler => assert(r@[1] == x),
                GameplaySystem::Resources => assert(r@[2] == x),
                GameplaySystem::MouseInteraction => assert(r@[3] == x),
                GameplaySystem::Building => assert(r@[4] == x),
                GameplaySystem::Combat => assert(r@[5] == x),
            }
        }
        r
    }
}

} // verus!
