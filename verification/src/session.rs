//! What holds of every session of a renderer, however its caller goes
//! about asking for actions and reporting outcomes.

use vstd::prelude::*;
use crate::block::BlockView;
use crate::events::markdown_tokens;
use crate::docker::success_marker;
use crate::renderer::{
    error_result, image_name, lemma_next_directed, next_directed, ActionView, OutcomeView,
    PhaseView, RendererView, ResultView,
};
use crate::splicer::extract_blocks;
use crate::text::occurs_in;

verus! {

/// One call on a renderer during a session.
pub enum Call {
    /// A call of `next_action`.
    Poll,
    /// A call of `execute` with an outcome.
    Report(OutcomeView),
}

/// The state after one call.
pub open spec fn step(state: RendererView, call: Call) -> RendererView {
    match call {
        Call::Poll => state.poll().0,
        Call::Report(outcome) => state.report(outcome).0,
    }
}

/// The action that one call asks for; a report asks for none.
pub open spec fn action_of(state: RendererView, call: Call) -> ActionView {
    match call {
        Call::Poll => state.poll().1,
        Call::Report(_) => ActionView::Idle,
    }
}

/// The result that one call hands out; asking for an action hands out
/// none.
pub open spec fn result_of(state: RendererView, call: Call) -> Option<ResultView> {
    match call {
        Call::Poll => None,
        Call::Report(outcome) => state.report(outcome).1,
    }
}

/// The state after a sequence of calls.
pub open spec fn after(state: RendererView, calls: Seq<Call>) -> RendererView
    decreases calls.len(),
{
    if calls.len() == 0 {
        state
    } else {
        step(after(state, calls.drop_last()), calls.last())
    }
}

/// The identifiers of the results handed out during a sequence of calls,
/// in the order in which they were handed out.
pub open spec fn delivered(state: RendererView, calls: Seq<Call>) -> Seq<Seq<char>>
    decreases calls.len(),
{
    if calls.len() == 0 {
        Seq::empty()
    } else {
        let before = delivered(state, calls.drop_last());
        match result_of(after(state, calls.drop_last()), calls.last()) {
            Some(result) => before.push(result.block_id),
            None => before,
        }
    }
}

/// The identifiers of the blocks at the positions from `from` up to, not
/// counting, `to` that ask for a command, in document order.
pub open spec fn directed_ids(blocks: Seq<BlockView>, from: nat, to: nat) -> Seq<Seq<char>>
    decreases to,
{
    if to <= from {
        Seq::empty()
    } else if blocks[to - 1].is_directed() {
        directed_ids(blocks, from, (to - 1) as nat).push(blocks[to - 1].id())
    } else {
        directed_ids(blocks, from, (to - 1) as nat)
    }
}

/// No block of the note asks for a command.
pub open spec fn no_commands(blocks: Seq<BlockView>) -> bool {
    forall|k: int| 0 <= k < blocks.len() ==> !(#[trigger] blocks[k]).is_directed()
}

proof fn lemma_no_commands_no_pending(blocks: Seq<BlockView>, from: nat)
    requires
        no_commands(blocks),
    ensures
        next_directed(blocks, from) >= blocks.len(),
    decreases blocks.len() - from,
{
    if from < blocks.len() {
        assert(!blocks[from as int].is_directed());
        lemma_no_commands_no_pending(blocks, from + 1);
    }
}

proof fn lemma_directed_ids_skip(blocks: Seq<BlockView>, from: nat, to: nat)
    requires
        from <= to <= blocks.len(),
        forall|k: int| from <= k < to ==> !(#[trigger] blocks[k]).is_directed(),
    ensures
        directed_ids(blocks, from, to) == Seq::<Seq<char>>::empty(),
    decreases to,
{
    if to > from {
        lemma_directed_ids_skip(blocks, from, (to - 1) as nat);
    }
}

proof fn lemma_directed_ids_join(blocks: Seq<BlockView>, from: nat, mid: nat, to: nat)
    requires
        from <= mid <= to <= blocks.len(),
    ensures
        directed_ids(blocks, from, to) == directed_ids(blocks, from, mid) + directed_ids(
            blocks,
            mid,
            to,
        ),
    decreases to,
{
    if to > mid {
        lemma_directed_ids_join(blocks, from, mid, (to - 1) as nat);
        let left = directed_ids(blocks, from, mid);
        let right = directed_ids(blocks, mid, (to - 1) as nat);
        if blocks[to - 1].is_directed() {
            assert((left + right).push(blocks[to - 1].id()) =~= left + right.push(
                blocks[to - 1].id(),
            ));
        }
    } else {
        assert(directed_ids(blocks, from, mid) + Seq::<Seq<char>>::empty() =~= directed_ids(
            blocks,
            from,
            mid,
        ));
    }
}

/// One call keeps the note and the directory, keeps the state well
/// formed, and never moves the cursor back.
pub proof fn lemma_step_keeps(state: RendererView, call: Call)
    requires
        state.well_formed(),
    ensures
        step(state, call).well_formed(),
        step(state, call).blocks == state.blocks,
        step(state, call).notebook_dir == state.notebook_dir,
        state.next <= step(state, call).next,
{
    lemma_next_directed(state.blocks, state.next);
}

/// A sequence of calls keeps the note and the directory, keeps the state
/// well formed, and never moves the cursor back.
pub proof fn lemma_session_keeps(state: RendererView, calls: Seq<Call>)
    requires
        state.well_formed(),
    ensures
        after(state, calls).well_formed(),
        after(state, calls).blocks == state.blocks,
        after(state, calls).notebook_dir == state.notebook_dir,
        state.next <= after(state, calls).next,
    decreases calls.len(),
{
    if calls.len() > 0 {
        lemma_session_keeps(state, calls.drop_last());
        lemma_step_keeps(after(state, calls.drop_last()), calls.last());
    }
}

/// Where no block of the note asks for a command, a session that starts
/// with nothing built never builds an image, never starts a container and
/// never runs anything: every action is `Idle`, no result is handed out,
/// and the state never leaves `Uninitialized`.
pub proof fn lemma_no_commands_no_environment(state: RendererView, calls: Seq<Call>)
    requires
        state.phase is Uninitialized,
        no_commands(state.blocks),
    ensures
        after(state, calls) == state,
        delivered(state, calls) == Seq::<Seq<char>>::empty(),
        forall|i: int|
            0 <= i < calls.len() ==> action_of(after(state, calls.take(i)), #[trigger] calls[i])
                is Idle,
        forall|i: int|
            0 <= i < calls.len() ==> result_of(after(state, calls.take(i)), #[trigger] calls[i])
                is None,
    decreases calls.len(),
{
    lemma_no_commands_no_pending(state.blocks, state.next);
    if calls.len() > 0 {
        let head = calls.drop_last();
        lemma_no_commands_no_environment(state, head);
        assert forall|i: int| 0 <= i < calls.len() implies action_of(
            after(state, calls.take(i)),
            #[trigger] calls[i],
        ) is Idle && result_of(after(state, calls.take(i)), calls[i]) is None by {
            if i < head.len() {
                assert(calls.take(i) =~= head.take(i));
                assert(calls[i] == head[i]);
            } else {
                assert(calls.take(i) =~= head);
            }
        }
    }
}

/// A session that has failed stays failed: no action is asked for and no
/// result is handed out any more.
pub proof fn lemma_failed_is_final(state: RendererView, calls: Seq<Call>)
    requires
        state.phase is Failed,
    ensures
        after(state, calls) == state,
        delivered(state, calls) == Seq::<Seq<char>>::empty(),
        forall|i: int|
            0 <= i < calls.len() ==> action_of(after(state, calls.take(i)), #[trigger] calls[i])
                is Idle,
        forall|i: int|
            0 <= i < calls.len() ==> result_of(after(state, calls.take(i)), #[trigger] calls[i])
                is None,
    decreases calls.len(),
{
    if calls.len() > 0 {
        let head = calls.drop_last();
        lemma_failed_is_final(state, head);
        assert forall|i: int| 0 <= i < calls.len() implies action_of(
            after(state, calls.take(i)),
            #[trigger] calls[i],
        ) is Idle && result_of(after(state, calls.take(i)), calls[i]) is None by {
            if i < head.len() {
                assert(calls.take(i) =~= head.take(i));
                assert(calls[i] == head[i]);
            } else {
                assert(calls.take(i) =~= head);
            }
        }
    }
}

/// Whether the outcome of a build shows that the image was built.
pub open spec fn build_succeeded(outcome: OutcomeView) -> bool {
    outcome is Output && occurs_in(success_marker(image_name()), outcome->stdout)
}

/// Where the build of the image fails, the session hands out the one
/// error result and is over: whatever is called afterwards, the start of a
/// container is never asked for, nor anything else, and no further result
/// is handed out.
pub proof fn lemma_failed_build_ends_session(
    state: RendererView,
    outcome: OutcomeView,
    calls: Seq<Call>,
)
    requires
        state.phase is ImageBuilding,
        !build_succeeded(outcome),
    ensures
        state.report(outcome).1 == Some(error_result()),
        state.report(outcome).0.phase is Failed,
        delivered(state, seq![Call::Report(outcome)] + calls) == seq![error_result().block_id],
        forall|i: int|
            0 <= i < calls.len() ==> action_of(
                after(state.report(outcome).0, calls.take(i)),
                #[trigger] calls[i],
            ) is Idle,
{
    let failed = state.report(outcome).0;
    lemma_failed_is_final(failed, calls);
    lemma_delivered_after_first(state, Call::Report(outcome), calls);
}

proof fn lemma_after_first(state: RendererView, first: Call, rest: Seq<Call>)
    ensures
        after(state, seq![first] + rest) == after(step(state, first), rest),
    decreases rest.len(),
{
    let all = seq![first] + rest;
    if rest.len() == 0 {
        assert(all.drop_last() =~= Seq::<Call>::empty());
        assert(all.last() == first);
        assert(after(state, Seq::<Call>::empty()) == state);
        assert(after(state, all) == step(state, first));
    } else {
        lemma_after_first(state, first, rest.drop_last());
        assert(all.drop_last() =~= seq![first] + rest.drop_last());
        assert(all.last() == rest.last());
    }
}

proof fn lemma_delivered_after_first(state: RendererView, first: Call, rest: Seq<Call>)
    ensures
        delivered(state, seq![first] + rest) == (match result_of(state, first) {
            Some(result) => seq![result.block_id],
            None => Seq::empty(),
        }) + delivered(step(state, first), rest),
    decreases rest.len(),
{
    let all = seq![first] + rest;
    let head = match result_of(state, first) {
        Some(result) => seq![result.block_id],
        None => Seq::empty(),
    };
    if rest.len() == 0 {
        assert(all.drop_last() =~= Seq::<Call>::empty());
        assert(all.last() == first);
        assert(after(state, Seq::<Call>::empty()) == state);
        assert(delivered(state, Seq::<Call>::empty()) =~= Seq::<Seq<char>>::empty());
        assert(delivered(state, all) =~= head);
        assert(delivered(state, all) =~= head + delivered(step(state, first), rest));
    } else {
        lemma_delivered_after_first(state, first, rest.drop_last());
        lemma_after_first(state, first, rest.drop_last());
        assert(all.drop_last() =~= seq![first] + rest.drop_last());
        assert(all.last() == rest.last());
        assert(delivered(state, all) =~= head + delivered(step(state, first), rest));
    }
}

/// Results come in document order, one for each command: as long as the
/// session has not failed, the results handed out so far are exactly
/// those of the blocks with a command that the cursor has passed.
pub proof fn lemma_results_in_document_order(state: RendererView, calls: Seq<Call>)
    requires
        state.well_formed(),
        !(after(state, calls).phase is Failed),
    ensures
        state.next <= after(state, calls).next <= state.blocks.len(),
        delivered(state, calls) == directed_ids(state.blocks, state.next, after(state, calls).next),
    decreases calls.len(),
{
    if calls.len() > 0 {
        let head = calls.drop_last();
        let before = after(state, head);
        lemma_session_keeps(state, head);
        lemma_session_keeps(state, calls);
        if before.phase is Failed {
            lemma_failed_is_final(before, seq![calls.last()]);
            assert(seq![calls.last()].drop_last() =~= Seq::<Call>::empty());
            assert(false);
        }
        lemma_results_in_document_order(state, head);
        lemma_next_directed(before.blocks, before.next);
        let now = after(state, calls);
        lemma_directed_ids_join(state.blocks, state.next, before.next, now.next);
        match calls.last() {
            Call::Poll => {
                lemma_directed_ids_skip(state.blocks, before.next, now.next);
                assert(directed_ids(state.blocks, state.next, before.next) + Seq::<
                    Seq<char>,
                >::empty() =~= directed_ids(state.blocks, state.next, before.next));
            },
            Call::Report(outcome) => {
                if before.phase is Executing {
                    assert(directed_ids(state.blocks, before.next, before.next)
                        =~= Seq::<Seq<char>>::empty());
                    assert(directed_ids(state.blocks, before.next, now.next) =~= seq![
                        state.blocks[before.next as int].id(),
                    ]);
                    assert(directed_ids(state.blocks, state.next, before.next) + seq![
                        state.blocks[before.next as int].id(),
                    ] =~= directed_ids(state.blocks, state.next, before.next).push(
                        state.blocks[before.next as int].id(),
                    ));
                } else {
                    assert(directed_ids(state.blocks, state.next, before.next) + Seq::<
                        Seq<char>,
                    >::empty() =~= directed_ids(state.blocks, state.next, before.next));
                }
            },
        }
    }
}

/// A session that has run to its end without failing has handed out one
/// result for every block with a command from the cursor on, in document
/// order.
pub proof fn lemma_finished_session_is_complete(state: RendererView, calls: Seq<Call>)
    requires
        state.well_formed(),
        after(state, calls).finished(),
        !(after(state, calls).phase is Failed),
        !(after(state, calls).phase is Stopped),
    ensures
        delivered(state, calls) == directed_ids(state.blocks, state.next, state.blocks.len()),
{
    let end = after(state, calls);
    lemma_results_in_document_order(state, calls);
    lemma_session_keeps(state, calls);
    lemma_next_directed(end.blocks, end.next);
    lemma_directed_ids_skip(state.blocks, end.next, state.blocks.len());
    lemma_directed_ids_join(state.blocks, state.next, end.next, state.blocks.len());
    assert(directed_ids(state.blocks, state.next, end.next) + Seq::<Seq<char>>::empty()
        =~= directed_ids(state.blocks, state.next, end.next));
}

/// How far the container of a session has come. The number never goes
/// down.
pub open spec fn progress(phase: PhaseView) -> nat {
    match phase {
        PhaseView::Uninitialized => 0,
        PhaseView::ImageBuilding => 1,
        PhaseView::ImageReady(_) => 2,
        PhaseView::Starting(_) => 3,
        PhaseView::Running(_) => 4,
        PhaseView::Executing(_) => 4,
        PhaseView::Stopped => 5,
        PhaseView::Failed => 5,
    }
}

/// How often a build of the image is asked for during a sequence of
/// calls.
pub open spec fn builds(state: RendererView, calls: Seq<Call>) -> nat
    decreases calls.len(),
{
    if calls.len() == 0 {
        0
    } else if action_of(after(state, calls.drop_last()), calls.last()) is Build {
        builds(state, calls.drop_last()) + 1
    } else {
        builds(state, calls.drop_last())
    }
}

/// How often the start of a container is asked for during a sequence of
/// calls.
pub open spec fn starts(state: RendererView, calls: Seq<Call>) -> nat
    decreases calls.len(),
{
    if calls.len() == 0 {
        0
    } else if action_of(after(state, calls.drop_last()), calls.last()) is Start {
        starts(state, calls.drop_last()) + 1
    } else {
        starts(state, calls.drop_last())
    }
}

/// A session has one container at most: the image is built at most once
/// and a container is started at most once, whatever is called and
/// whatever is reported. A build is asked for only before anything else
/// has been, a start only once the image is there.
pub proof fn lemma_one_environment(state: RendererView, calls: Seq<Call>)
    ensures
        progress(state.phase) <= progress(after(state, calls).phase),
        builds(state, calls) <= 1,
        starts(state, calls) <= 1,
        builds(state, calls) == 1 ==> progress(state.phase) == 0 && progress(
            after(state, calls).phase,
        ) >= 1,
        starts(state, calls) == 1 ==> progress(state.phase) <= 2 && progress(
            after(state, calls).phase,
        ) >= 3,
    decreases calls.len(),
{
    if calls.len() > 0 {
        lemma_one_environment(state, calls.drop_last());
    }
}

/// Rendering a note again changes nothing: the blocks and their order are
/// those of the text alone, whatever the renderer held before, and a
/// second rendering of the same text leaves the state of the first.
pub proof fn lemma_render_repeatable(first: RendererView, second: RendererView, markdown: Seq<char>)
    ensures
        first.loaded(extract_blocks(markdown_tokens(markdown))).blocks == second.loaded(
            extract_blocks(markdown_tokens(markdown)),
        ).blocks,
        first.loaded(extract_blocks(markdown_tokens(markdown))).loaded(
            extract_blocks(markdown_tokens(markdown)),
        ) == first.loaded(extract_blocks(markdown_tokens(markdown))),
        first.loaded(extract_blocks(markdown_tokens(markdown))).well_formed(),
{
}

} // verus!
