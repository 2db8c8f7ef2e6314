//! What holds of every run of events: variations leave the line they branch
//! from as it was, and a new game owes nothing to the one before it.

use crate::visitor::{Event, StructuralError, TreeState};
use vstd::prelude::*;

verus! {

/// By how much an event changes the number of open variations.
pub open spec fn depth_change(event: Event) -> int {
    match event {
        Event::BeginVariation => 1,
        Event::EndVariation => -1,
        _ => 0,
    }
}

/// The number of variations that a run of events leaves open, counted from
/// where it starts.
pub open spec fn depth(events: Seq<Event>) -> int
    decreases events.len(),
{
    if events.len() == 0 {
        0
    } else {
        depth(events.drop_last()) + depth_change(events.last())
    }
}

/// A run of events within one game that never closes a variation it has not
/// opened.
pub open spec fn nested(events: Seq<Event>) -> bool
    decreases events.len(),
{
    events.len() == 0 || (nested(events.drop_last()) && !(events.last() is BeginGame) && depth(
        events,
    ) >= 0)
}

/// A nested run that closes every variation it opens.
pub open spec fn balanced(events: Seq<Event>) -> bool {
    nested(events) && depth(events) == 0
}

/// Running two runs of events one after the other is running them joined.
pub proof fn lemma_run_joined(state: TreeState, first: Seq<Event>, second: Seq<Event>)
    ensures
        state.run(first + second) == state.run(first).run(second),
    decreases second.len(),
{
    if second.len() == 0 {
        assert(first + second =~= first);
    } else {
        lemma_run_joined(state, first, second.drop_last());
        assert((first + second).drop_last() =~= first + second.drop_last());
        assert((first + second).last() == second.last());
    }
}

/// A run of one event is a step.
pub proof fn lemma_run_one(state: TreeState, event: Event)
    ensures
        state.run(seq![event]) == state.step(event),
{
    let events = seq![event];
    assert(events.drop_last() =~= Seq::<Event>::empty());
    assert(state.run(events.drop_last()) == state);
    assert(events.last() == event);
}

/// Once a fault has ended a game, only the beginning of the next one
/// changes anything.
pub proof fn lemma_failed_game_stands_still(state: TreeState, events: Seq<Event>)
    requires
        state.failure is Some,
        forall|i: int| 0 <= i < events.len() ==> !(#[trigger] events[i] is BeginGame),
    ensures
        state.run(events) == state,
    decreases events.len(),
{
    if events.len() > 0 {
        lemma_failed_game_stands_still(state, events.drop_last());
    }
}

/// A nested run holds no beginning of a game.
pub proof fn lemma_nested_within_game(events: Seq<Event>)
    requires
        nested(events),
    ensures
        forall|i: int| 0 <= i < events.len() ==> !(#[trigger] events[i] is BeginGame),
    decreases events.len(),
{
    if events.len() > 0 {
        lemma_nested_within_game(events.drop_last());
        assert forall|i: int| 0 <= i < events.len() implies !(#[trigger] events[i] is BeginGame) by {
            if i < events.len() - 1 {
                assert(events[i] == events.drop_last()[i]);
            }
        }
    }
}

/// A nested run leaves no fewer variations open than it found.
pub proof fn lemma_nested_depth(events: Seq<Event>)
    requires
        nested(events),
    ensures
        depth(events) >= 0,
{
}

/// A nested run never reaches below the variations that were open when it
/// started: they are still there, in their order, under those it has opened
/// itself. Inside a variation it adds nothing to the main line.
pub proof fn lemma_nested_run(state: TreeState, events: Seq<Event>)
    requires
        nested(events),
        state.failure is None,
        state.moved,
    ensures
        ({
            let after = state.run(events);
            &&& after.failure is None
            &&& after.moved
            &&& after.mode == state.mode
            &&& after.start == state.start
            &&& after.stack.len() == state.stack.len() + depth(events)
            &&& after.stack.take(state.stack.len() as int) == state.stack
            &&& state.stack.len() > 0 ==> after.line == state.line
        }),
    decreases events.len(),
{
    if events.len() == 0 {
        assert(state.stack.take(state.stack.len() as int) =~= state.stack);
    } else {
        let earlier = events.drop_last();
        lemma_nested_run(state, earlier);
        lemma_nested_depth(earlier);
        let before = state.run(earlier);
        let after = before.step(events.last());
        let base = state.stack.len() as int;
        assert(depth(events) == depth(earlier) + depth_change(events.last()));
        assert(base <= before.stack.len());
        match events.last() {
            Event::BeginVariation => {
                assert(after == before.branched());
            },
            Event::EndVariation => {
                assert(base < before.stack.len());
                assert(after == before.rejoined());
            },
            Event::Move(token) => {
                assert(after == before.moved_by(token@));
            },
            Event::Comment(bytes) => {
                assert(after == before.commented(bytes@));
            },
            _ => {
                assert(after == before);
            },
        }
        assert(after.stack.take(base) =~= before.stack.take(base));
    }
}

/// A variation that opens, runs through a balanced
/// run of events and closes leaves both positions, the open variations and
/// the main line as they were before it opened.
pub proof fn lemma_variation_restores(state: TreeState, inner: Seq<Event>)
    requires
        balanced(inner),
    ensures
        ({
            let after = state.run(seq![Event::BeginVariation] + inner + seq![Event::EndVariation]);
            &&& after.current == state.current
            &&& after.previous == state.previous
            &&& after.stack == state.stack
            &&& after.line == state.line
            &&& after.moved == state.moved
            &&& after.failure == if state.failure is None && !state.moved {
                Some(StructuralError::VariationBeforeFirstMove)
            } else {
                state.failure
            }
        }),
{
    let open = seq![Event::BeginVariation];
    let close = seq![Event::EndVariation];
    let opened = state.step(Event::BeginVariation);
    let inside = opened.run(inner);
    lemma_run_joined(state, open + inner, close);
    lemma_run_joined(state, open, inner);
    lemma_run_one(state, Event::BeginVariation);
    lemma_run_one(inside, Event::EndVariation);
    lemma_nested_within_game(inner);
    if opened.failure is Some {
        lemma_failed_game_stands_still(opened, inner);
    } else {
        lemma_nested_run(opened, inner);
        assert(inside.stack =~= inside.stack.take(opened.stack.len() as int));
        assert(opened.stack.drop_last() =~= state.stack);
    }
}

/// An unmatched end of a variation is answered with a fault and touches
/// neither the positions nor what has been gathered; and the game that
/// begins next runs as it would have run after any other game.
pub proof fn lemma_unmatched_end_is_contained(state: TreeState, next_game: Seq<Event>)
    requires
        state.failure is None,
        state.stack.len() == 0,
    ensures
        state.answer(Event::EndVariation) == Err::<Seq<crate::parser::Diagnostic>, StructuralError>(
            StructuralError::UnmatchedEndVariation,
        ),
        state.step(Event::EndVariation) == (TreeState {
            failure: Some(StructuralError::UnmatchedEndVariation),
            ..state
        }),
        state.step(Event::EndVariation).run(seq![Event::BeginGame] + next_game)
            == TreeState::opened(state.start, state.mode).run(next_game),
{
    let failed = state.step(Event::EndVariation);
    lemma_run_joined(failed, seq![Event::BeginGame], next_game);
    lemma_run_one(failed, Event::BeginGame);
}

/// A game that begins starts afresh: how it runs depends on the starting
/// position and the mode alone, not on what the visitor has been through.
pub proof fn lemma_games_are_independent(first: TreeState, second: TreeState, game: Seq<Event>)
    requires
        first.start == second.start,
        first.mode == second.mode,
    ensures
        first.run(seq![Event::BeginGame] + game) == second.run(seq![Event::BeginGame] + game),
{
    lemma_run_joined(first, seq![Event::BeginGame], game);
    lemma_run_joined(second, seq![Event::BeginGame], game);
    lemma_run_one(first, Event::BeginGame);
    lemma_run_one(second, Event::BeginGame);
}

} // verus!
