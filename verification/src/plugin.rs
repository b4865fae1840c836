//! The plan of the game: which system runs when.

use vstd::prelude::*;

verus! {

/// When a system runs.
#[derive(Clone, Copy, Debug, PartialEq, Eq, Structural)]
pub enum Schedule {
    /// Once, before the first step.
    Startup,
    /// At every fixed step.
    FixedUpdate,
    /// At every spawn event.
    OnSpawnEnemy,
}

/// The systems of the game.
#[derive(Clone, Copy, Debug, PartialEq, Eq, Structural)]
pub enum System {
    /// Creates the camera.
    SpawnCamera,
    /// Creates the player.
    SpawnPlayer,
    /// Raises the first spawn event.
    Setup,
    /// Turns keys into motion, attacks and spawn events.
    PlayerController,
    /// Runs the countdowns.
    DecaySystem,
    /// Resolves hits.
    HitboxSystem,
    /// Creates an enemy.
    SpawnEnemy,
}

/// One entry of the plan.
#[derive(Clone, Copy, Debug, PartialEq, Eq, Structural)]
pub struct Registration {
    pub schedule: Schedule,
    pub system: System,
}

/// The game as a plugin of the host engine.
#[derive(Clone, Copy, Debug, PartialEq, Eq, Structural, Default)]
pub struct AppPlugin;

/// The systems that run once at startup, in the order of their registration.
pub open spec fn startup_plan() -> Seq<Registration> {
    seq![
        Registration { schedule: Schedule::Startup, system: System::SpawnCamera },
        Registration { schedule: Schedule::Startup, system: System::SpawnPlayer },
        Registration { schedule: Schedule::Startup, system: System::Setup },
    ]
}

/// The whole plan, in the order of registration: the startup systems, the
/// three systems of the fixed step, and the system that answers spawn events.
pub open spec fn plan() -> Seq<Registration> {
    startup_plan() + seq![
        Registration { schedule: Schedule::FixedUpdate, system: System::PlayerController },
        Registration { schedule: Schedule::FixedUpdate, system: System::DecaySystem },
        Registration { schedule: Schedule::FixedUpdate, system: System::HitboxSystem },
        Registration { schedule: Schedule::OnSpawnEnemy, system: System::SpawnEnemy },
    ]
}

/// The systems to register for startup: camera, player, then the first spawn
/// event.
pub fn startup() -> (entries: Vec<Registration>)
    ensures
        entries@ == startup_plan(),
{
    let mut entries: Vec<Registration> = Vec::new();
    entries.push(Registration { schedule: Schedule::Startup, system: System::SpawnCamera });
    entries.push(Registration { schedule: Schedule::Startup, system: System::SpawnPlayer });
    entries.push(Registration { schedule: Schedule::Startup, system: System::Setup });
    proof {
        assert(entries@ =~= startup_plan());
    }
    entries
}

impl AppPlugin {
    /// Everything that the game registers with the host engine, in order.
    pub fn build(&self) -> (entries: Vec<Registration>)
        ensures
            entries@ == plan(),
    {
        let mut entries = startup();
        entries.push(
            Registration { schedule: Schedule::FixedUpdate, system: System::PlayerController },
        );
        entries.push(Registration { schedule: Schedule::FixedUpdate, system: System::DecaySystem });
        entries.push(Registration { schedule: Schedule::FixedUpdate, system: System::HitboxSystem });
        entries.push(Registration { schedule: Schedule::OnSpawnEnemy, system: System::SpawnEnemy });
        proof {
            assert(entries@ =~= plan());
        }
        entries
    }
}

} // verus!
