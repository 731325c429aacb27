use vstd::prelude::*;
use rltk::RandomNumberGenerator;
use crate::spatial::EntityId;
use crate::dice::roll_dice;

verus! {

/// How a merchant's screen is being used.
#[derive(PartialEq, Eq, Structural, Clone, Copy, Debug)]
pub enum VendorMode {
    Buy,
    Sell,
}

/// What the game is doing between frames.
#[derive(PartialEq, Eq, Structural, Clone, Copy, Debug)]
pub enum RunState {
    AwaitingInput,
    PreRun,
    Ticking,
    ShowInventory,
    ShowDropItem,
    ShowTargeting { range: i32, item: EntityId },
    MainMenu,
    SaveGame,
    NextLevel,
    PreviousLevel,
    TownPortal,
    ShowRemoveEquipment,
    GameOver,
    MagicMapReveal { row: i32 },
    MapGeneration,
    ShowCheatMenu,
    ShowVendor { vendor: EntityId, mode: VendorMode },
    TeleportingToOtherLevel { x: i32, y: i32, depth: i32 },
}

/// What the scheduler needs to know of an entity that takes turns.
#[derive(PartialEq, Eq, Structural, Clone, Copy, Debug)]
pub struct TurnActor {
    pub entity: EntityId,
    /// Ticks left until the next turn.
    pub initiative: i32,
    pub x: i32,
    pub y: i32,
    /// Quickness bonus, where the entity has attributes.
    pub quickness_bonus: Option<i32>,
    /// Initiative penalty of what it carries, rounded down, where it has pools.
    pub initiative_penalty: Option<i32>,
    pub is_player: bool,
}

/// What one tick of the scheduler did with an entity.
#[derive(PartialEq, Eq, Structural, Clone, Copy, Debug)]
pub enum TurnOutcome {
    /// The countdown has not run out.
    Waiting,
    /// The countdown ran out for the player: the game waits for input.
    PlayerTurn,
    /// The countdown ran out and the entity acts this tick.
    Granted,
    /// The countdown ran out, but the entity is too far from the player to act.
    Suppressed,
}

/// Squared distance beyond which an entity other than the player does not act (20 tiles).
pub const RELEVANCE_RADIUS_SQ: i64 = 400;

/// The countdown an entity gets when its turn comes, with a roll of `roll` on a six-sided die.
pub open spec fn rerolled(a: TurnActor, roll: int) -> int {
    6 + roll - (match a.quickness_bonus {
        Some(q) => q as int,
        None => 0,
    }) + (match a.initiative_penalty {
        Some(p) => p as int,
        None => 0,
    })
}

/// The re-rolled countdown fits an `i32` for every roll of a six-sided die.
pub open spec fn reroll_fits(a: TurnActor) -> bool {
    i32::MIN <= rerolled(a, 1) && rerolled(a, 6) <= i32::MAX
}

/// Squared straight-line distance from the entity to the player.
pub open spec fn player_dist_sq(a: TurnActor, px: i32, py: i32) -> int {
    (a.x - px) * (a.x - px) + (a.y - py) * (a.y - py)
}

/// What the scheduler decides for an entity whose countdown has run out.
pub open spec fn expired_outcome(a: TurnActor, px: i32, py: i32) -> TurnOutcome {
    if a.is_player {
        TurnOutcome::PlayerTurn
    } else if player_dist_sq(a, px, py) > RELEVANCE_RADIUS_SQ {
        TurnOutcome::Suppressed
    } else {
        TurnOutcome::Granted
    }
}

/// One tick for one entity: the countdown falls by one; where it drops below 1 it is
/// re-rolled to `6 + roll`, less the quickness bonus, plus the carried penalty, and the
/// entity gets its turn (the player's turn halts the simulation for input) unless it is
/// more than 20 tiles from the player.
pub fn initiative_step(actor: &mut TurnActor, roll: i32, player_x: i32, player_y: i32) -> (r: TurnOutcome)
    requires
        old(actor).initiative > i32::MIN,
        1 <= roll <= 6,
        reroll_fits(*old(actor)),
    ensures
        final(actor).entity == old(actor).entity,
        final(actor).x == old(actor).x,
        final(actor).y == old(actor).y,
        final(actor).quickness_bonus == old(actor).quickness_bonus,
        final(actor).initiative_penalty == old(actor).initiative_penalty,
        final(actor).is_player == old(actor).is_player,
        old(actor).initiative - 1 >= 1 ==> r == TurnOutcome::Waiting && final(actor).initiative
            == old(actor).initiative - 1,
        old(actor).initiative - 1 < 1 ==> r == expired_outcome(*old(actor), player_x, player_y)
            && final(actor).initiative == rerolled(*old(actor), roll as int),
{
    actor.initiative = actor.initiative - 1;
    if actor.initiative >= 1 {
        return TurnOutcome::Waiting;
    }
    let mut next: i64 = 6 + roll as i64;
    match actor.quickness_bonus {
        Some(q) => {
            next = next - q as i64;
        },
        None => {},
    }
    match actor.initiative_penalty {
        Some(p) => {
            next = next + p as i64;
        },
        None => {},
    }
    actor.initiative = next as i32;
    if actor.is_player {
        TurnOutcome::PlayerTurn
    } else {
        let dx = actor.x as i64 - player_x as i64;
        let dy = actor.y as i64 - player_y as i64;
        proof {
            assert(0 <= dx * dx <= 0x1_0000_0000_0000_0000int) by (nonlinear_arith)
                requires
                    -0x1_0000_0000 <= dx <= 0x1_0000_0000,
            ;
            assert(0 <= dy * dy <= 0x1_0000_0000_0000_0000int) by (nonlinear_arith)
                requires
                    -0x1_0000_0000 <= dy <= 0x1_0000_0000,
            ;
        }
        let d = (dx as i128) * (dx as i128) + (dy as i128) * (dy as i128);
        if d > RELEVANCE_RADIUS_SQ as i128 {
            TurnOutcome::Suppressed
        } else {
            TurnOutcome::Granted
        }
    }
}

/// An entity whose countdown runs out is never passed over in silence: it is the player,
/// whose turn comes, or it is granted a turn, or it is held back because it is more than
/// 20 tiles from the player, and held back for that reason alone.
pub proof fn lemma_expired_countdown_acts(a: TurnActor, px: i32, py: i32)
    ensures
        expired_outcome(a, px, py) != TurnOutcome::Waiting,
        expired_outcome(a, px, py) == TurnOutcome::Suppressed <==> (!a.is_player
            && player_dist_sq(a, px, py) > RELEVANCE_RADIUS_SQ),
        a.is_player ==> expired_outcome(a, px, py) == TurnOutcome::PlayerTurn,
{
}

/// One tick of the scheduler over every entity that takes turns, while the game is
/// simulating (`Ticking`); otherwise nothing changes. Returns what happened to each entity,
/// in order. A run-out countdown is re-rolled with a fresh six-sided die; where the player's
/// runs out, the run state becomes `AwaitingInput`.
pub fn run_initiative(
    actors: &mut Vec<TurnActor>,
    rng: &mut RandomNumberGenerator,
    run_state: &mut RunState,
    player_x: i32,
    player_y: i32,
) -> (r: Vec<TurnOutcome>)
    requires
        forall|k: int|
            0 <= k < old(actors).len() ==> (#[trigger] old(actors)[k]).initiative > i32::MIN
                && reroll_fits(old(actors)[k]),
    ensures
        *old(run_state) != RunState::Ticking ==> r.len() == 0 && final(actors)@ == old(actors)@
            && *final(run_state) == *old(run_state) && *final(rng) == *old(rng),
        *old(run_state) == RunState::Ticking ==> {
            &&& r.len() == old(actors).len()
            &&& final(actors).len() == old(actors).len()
            &&& forall|k: int|
                0 <= k < r.len() ==> {
                    let a = #[trigger] old(actors)[k];
                    &&& a.initiative - 1 >= 1 ==> r[k] == TurnOutcome::Waiting && final(actors)[k]
                        == TurnActor { initiative: (a.initiative - 1) as i32, ..a }
                    &&& a.initiative - 1 < 1 ==> r[k] == expired_outcome(a, player_x, player_y)
                        && exists|roll: int|
                        1 <= roll <= 6 && final(actors)[k] == TurnActor {
                            initiative: rerolled(a, roll) as i32,
                            ..a
                        }
                }
            &&& *final(run_state) == (if exists|k: int|
                0 <= k < r.len() && #[trigger] r[k] == TurnOutcome::PlayerTurn {
                RunState::AwaitingInput
            } else {
                RunState::Ticking
            })
        },
{
    let mut outcomes: Vec<TurnOutcome> = Vec::new();
    if *run_state != RunState::Ticking {
        return outcomes;
    }
    let ghost before = actors@;
    let mut player_turn = false;
    let mut k: usize = 0;
    while k < actors.len()
        invariant
            actors.len() == before.len(),
            k <= actors.len(),
            outcomes.len() == k,
            *run_state == RunState::Ticking,
            forall|j: int|
                k <= j < actors.len() ==> #[trigger] actors[j] == before[j],
            forall|j: int|
                0 <= j < before.len() ==> (#[trigger] before[j]).initiative > i32::MIN
                    && reroll_fits(before[j]),
            player_turn == exists|j: int| 0 <= j < k && #[trigger] outcomes@[j] == TurnOutcome::PlayerTurn,
            forall|j: int|
                0 <= j < k ==> {
                    let a = #[trigger] before[j];
                    &&& a.initiative - 1 >= 1 ==> outcomes[j] == TurnOutcome::Waiting && actors[j]
                        == TurnActor { initiative: (a.initiative - 1) as i32, ..a }
                    &&& a.initiative - 1 < 1 ==> outcomes[j] == expired_outcome(a, player_x, player_y)
                        && exists|roll: int|
                        1 <= roll <= 6 && actors[j] == TurnActor {
                            initiative: rerolled(a, roll) as i32,
                            ..a
                        }
                },
        decreases before.len() - k,
    {
        let mut a = actors[k];
        let roll: i32 = if a.initiative - 1 < 1 {
            roll_dice(rng, 1, 6)
        } else {
            1
        };
        let o = initiative_step(&mut a, roll, player_x, player_y);
        let ghost prev = outcomes@;
        actors.set(k, a);
        outcomes.push(o);
        if o == TurnOutcome::PlayerTurn {
            player_turn = true;
        }
        proof {
            assert forall|j: int| 0 <= j < k implies #[trigger] outcomes[j] == prev[j] by {}
            assert(outcomes[k as int] == o);
            if exists|j: int| 0 <= j < k + 1 && #[trigger] outcomes[j] == TurnOutcome::PlayerTurn {
                let j = choose|j: int| 0 <= j < k + 1 && #[trigger] outcomes[j] == TurnOutcome::PlayerTurn;
                if j < k {
                    assert(prev[j] == TurnOutcome::PlayerTurn);
                }
            }
            if exists|j: int| 0 <= j < k && #[trigger] prev[j] == TurnOutcome::PlayerTurn {
                let j = choose|j: int| 0 <= j < k && #[trigger] prev[j] == TurnOutcome::PlayerTurn;
                assert(outcomes[j] == TurnOutcome::PlayerTurn);
            }
            if before[k as int].initiative - 1 < 1 {
                assert(1 <= roll <= 6 && actors[k as int] == TurnActor {
                    initiative: rerolled(before[k as int], roll as int) as i32,
                    ..before[k as int]
                });
            }
        }
        k = k + 1;
    }
    if player_turn {
        *run_state = RunState::AwaitingInput;
    }
    outcomes
}

} // verus!
