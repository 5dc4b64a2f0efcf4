use vstd::prelude::*;

verus! {

/// Where the game is in its turn cycle.
#[derive(PartialEq, Eq, Structural, Clone, Copy, Debug)]
pub enum RunState {
    AwaitingInput,
    PreRun,
    PlayerTurn,
    MonsterTurn,
}

/// What one frame does with the turn cycle: run the game systems and move on to `next`,
/// or read the player's input, which decides the next state.
#[derive(PartialEq, Eq, Structural, Clone, Copy, Debug)]
pub enum TickStep {
    RunSystems { next: RunState },
    ReadInput,
}

/// The step a frame takes in each state.
pub open spec fn tick_step_spec(state: RunState) -> TickStep {
    match state {
        RunState::PreRun => TickStep::RunSystems { next: RunState::AwaitingInput },
        RunState::AwaitingInput => TickStep::ReadInput,
        RunState::PlayerTurn => TickStep::RunSystems { next: RunState::MonsterTurn },
        RunState::MonsterTurn => TickStep::RunSystems { next: RunState::AwaitingInput },
    }
}

/// Decides what this frame does: before the first turn and after the monsters' turn
/// the systems run and the game waits for input; while waiting it reads input; after
/// the player's turn the systems run and the monsters move next.
pub fn tick_step(state: RunState) -> (step: TickStep)
    ensures
        step == tick_step_spec(state),
{
    match state {
        RunState::PreRun => TickStep::RunSystems { next: RunState::AwaitingInput },
        RunState::AwaitingInput => TickStep::ReadInput,
        RunState::PlayerTurn => TickStep::RunSystems { next: RunState::MonsterTurn },
        RunState::MonsterTurn => TickStep::RunSystems { next: RunState::AwaitingInput },
    }
}

/// Law: a player's turn is always followed by exactly one monsters' turn, after which
/// the game waits for input again; nothing but input leads to the player's turn.
pub proof fn lemma_turn_order(state: RunState)
    ensures
        state == RunState::PlayerTurn ==> tick_step_spec(state) == (TickStep::RunSystems { next: RunState::MonsterTurn }),
        state == RunState::MonsterTurn ==> tick_step_spec(state) == (TickStep::RunSystems { next: RunState::AwaitingInput }),
        forall|next: RunState| tick_step_spec(state) == (TickStep::RunSystems { next }) ==> next != RunState::PlayerTurn,
{
}

} // verus!
