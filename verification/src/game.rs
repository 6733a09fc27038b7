//! The simulation context and the fixed simulation step: one structure
//! owns the clock, the body arena and the ship registry, and one function
//! runs the stage sequence of a tick in order — clock advance, orbital
//! propagation, world composition, lifecycle events, ship integration.
//! Later stages observe only fully updated state from earlier ones.

use vstd::prelude::*;

verus! {

use crate::bodies::{body_after_local, wf, world_pos_of, world_vel_of, BodiesMapping, Body};
use crate::clock::{advanced_spec, sim_days_spec, SimulationClock};
use crate::ships::{events_chain, ship_stepped, ships_wf, Ship, ShipEvent, ShipsMapping};

/// How a running instance takes part in the game: alone, against a
/// server, as the server, or just browsing the system.
#[derive(Clone, Copy, Debug, PartialEq, Eq, Structural)]
pub enum ClientMode {
    /// No game loaded.
    Inactive,
    /// A local authoritative instance.
    Singleplayer,
    /// A replica of a remote server.
    Multiplayer,
    /// A local instance that only watches the bodies.
    Explorer,
    /// The authoritative server itself.
    Server,
}

/// The two stages of a loaded game: ships are laid out while time stands
/// still, then the action runs.
#[derive(Clone, Copy, Debug, PartialEq, Eq, Structural)]
pub enum GameStage {
    /// Time is paused for setup.
    Preparation,
    /// Time advances.
    Action,
}

/// Whether bodies and ships are loaded: every mode but `Inactive` loads them.
pub fn loaded(mode: ClientMode) -> (r: bool)
    ensures
        r == loaded_spec(mode),
{
    !matches!(mode, ClientMode::Inactive)
}

/// Whether the instance is playing the main game rather than browsing.
pub fn in_game(mode: ClientMode) -> (r: bool)
    ensures
        r == (loaded_spec(mode) && (mode == ClientMode::Singleplayer || mode
            == ClientMode::Multiplayer)),
{
    matches!(mode, ClientMode::Singleplayer | ClientMode::Multiplayer)
}

/// Whether the instance's state is the source of truth: the server and a
/// singleplayer instance are their own authority.
pub fn authoritative(mode: ClientMode) -> (r: bool)
    ensures
        r == (mode == ClientMode::Singleplayer || mode == ClientMode::Server),
{
    matches!(mode, ClientMode::Singleplayer | ClientMode::Server)
}

/// Whether a mode loads bodies and ships.
pub open spec fn loaded_spec(mode: ClientMode) -> bool {
    mode != ClientMode::Inactive
}

/// The authoritative simulation state: no ambient globals, every stage
/// reads and writes this one context.
pub struct Simulation {
    /// The simulation clock.
    pub clock: SimulationClock,
    /// The celestial-body arena.
    pub bodies: BodiesMapping,
    /// The ship registry.
    pub ships: ShipsMapping,
}

/// Well-formedness of the whole context: a well-formed arena, a registry
/// consistent with it, and a usable positive step size.
pub open spec fn sim_wf(s: Simulation) -> bool {
    &&& wf(s.bodies)
    &&& ships_wf(s.ships, s.bodies.bodies@.len() as int)
    &&& 1 <= s.clock.step <= i64::MAX
}

/// The simulated day the propagator sees after the clock advanced,
/// saturated at the 64-bit ceiling.
pub open spec fn step_day_spec(c: SimulationClock) -> int {
    let t = sim_days_spec(advanced_spec(c));
    if t > u64::MAX {
        u64::MAX as int
    } else {
        t
    }
}

/// The body arena after the parallel per-body analytic stage at day `t`.
pub open spec fn bodies_after_local_spec(b: Seq<Body>, t: int) -> Seq<Body> {
    Seq::new(b.len(), |i: int| body_after_local(b[i], t))
}

impl Simulation {
    /// A fresh simulation over a loaded arena, at tick zero.
    pub fn new(bodies: BodiesMapping, step: u64, running: bool) -> (s: Simulation)
        requires
            wf(bodies),
            1 <= step <= i64::MAX,
        ensures
            sim_wf(s),
            s.bodies == bodies,
            s.clock.simtick == 0,
            s.clock.step == step,
            s.clock.running == running,
            s.ships.ships@.len() == 0,
    {
        Simulation { clock: SimulationClock::new(step, running), bodies, ships: ShipsMapping::new() }
    }

    /// Apply a stage transition: entering the action stage starts time,
    /// returning to preparation pauses it.
    pub fn apply_stage(&mut self, stage: GameStage)
        ensures
            final(self).clock.running == (stage == GameStage::Action),
            final(self).clock.simtick == old(self).clock.simtick,
            final(self).clock.step == old(self).clock.step,
            final(self).bodies == old(self).bodies,
            final(self).ships == old(self).ships,
    {
        self.clock.set_running(matches!(stage, GameStage::Action));
    }

    /// One fixed simulation step.  The clock advances; while it runs, the
    /// bodies are repositioned analytically from the new simulated time
    /// and composed top-down, the tick's queued lifecycle events are
    /// drained in order against the fresh body positions, and every ship
    /// takes one leapfrog step — its influence record recomputed before
    /// its acceleration, never stale.  While paused, only the events are
    /// drained: simulated state stands still.
    pub fn step(&mut self, events: &Vec<ShipEvent>) -> (trace: Ghost<Seq<Seq<Ship>>>)
        requires
            sim_wf(*old(self)),
        ensures
            sim_wf(*final(self)),
            final(self).clock == advanced_spec(old(self).clock),
            final(self).clock.simtick >= old(self).clock.simtick,
            !old(self).clock.running ==> final(self).bodies == old(self).bodies,
            old(self).clock.running ==> final(self).bodies.bodies@.len()
                == old(self).bodies.bodies@.len(),
            old(self).clock.running ==> forall|i: int|
                0 <= i < old(self).bodies.bodies@.len() ==> #[trigger] final(
                    self
                ).bodies.bodies@[i] == (Body {
                    position: world_pos_of(
                        bodies_after_local_spec(
                            old(self).bodies.bodies@,
                            step_day_spec(old(self).clock),
                        ),
                        i,
                    ),
                    velocity: world_vel_of(
                        bodies_after_local_spec(
                            old(self).bodies.bodies@,
                            step_day_spec(old(self).clock),
                        ),
                        i,
                    ),
                    ..body_after_local(
                        old(self).bodies.bodies@[i],
                        step_day_spec(old(self).clock),
                    )
                }),
            events_chain(final(self).bodies.bodies@, trace@, events@),
            trace@[0] == old(self).ships.ships@,
            !old(self).clock.running ==> final(self).ships.ships@ == trace@[events@.len() as int],
            old(self).clock.running ==> final(self).ships.ships@.len() == trace@[
                events@.len() as int].len(),
            old(self).clock.running ==> forall|i: int|
                0 <= i < trace@[events@.len() as int].len() ==> ship_stepped(
                    final(self).bodies.bodies@,
                    #[trigger] trace@[events@.len() as int][i],
                    final(self).ships.ships@[i],
                    old(self).clock.step as int,
                ),
    {
        self.clock.advance();
        if self.clock.running {
            let t = self.clock.sim_days();
            self.bodies.update_local(t);
            let ghost mid = self.bodies.bodies@;
            self.bodies.update_global();
            proof {
                assert(mid =~= bodies_after_local_spec(
                    old(self).bodies.bodies@,
                    step_day_spec(old(self).clock),
                ));
                assert(self.bodies.bodies@.len() == old(self).bodies.bodies@.len());
                assert forall|i: int| 0 <= i < old(self).bodies.bodies@.len() implies
                    #[trigger] self.bodies.bodies@[i] == (Body {
                    position: world_pos_of(
                        bodies_after_local_spec(
                            old(self).bodies.bodies@,
                            step_day_spec(old(self).clock),
                        ),
                        i,
                    ),
                    velocity: world_vel_of(
                        bodies_after_local_spec(
                            old(self).bodies.bodies@,
                            step_day_spec(old(self).clock),
                        ),
                        i,
                    ),
                    ..body_after_local(
                        old(self).bodies.bodies@[i],
                        step_day_spec(old(self).clock),
                    )
                }) by {
                    assert(bodies_after_local_spec(
                        old(self).bodies.bodies@,
                        step_day_spec(old(self).clock),
                    ) =~= Seq::new(
                        old(self).bodies.bodies@.len(),
                        |k: int| body_after_local(
                            old(self).bodies.bodies@[k],
                            step_day_spec(old(self).clock),
                        ),
                    ));
                }
            }
            let trace = self.ships.handle_ship_events(&self.bodies, events);
            let dt = self.clock.step;
            self.ships.update_ships(&self.bodies, dt as i64);
            trace
        } else {
            let trace = self.ships.handle_ship_events(&self.bodies, events);
            trace
        }
    }
}

} // verus!
