//! What holds of the worker's loop, however long it runs.
use crate::pentair::message::PentairMessage;
use crate::pool_worker::error::PentairError;
use crate::pool_worker::link::{link_wf, sent_step, OutgoingModel, UartState};
use crate::pool_worker::worker::{scanning, turn_step, writes, TurnModel, WorkerModel};
use vstd::prelude::*;

verus! {

/// What a turn meets with: the messages that other threads have queued since the turn before, what
/// was read and when, and, for a first attempt to send, whether it was written and when.
pub struct TurnInput {
    pub pushed: Seq<PentairMessage>,
    pub read: Result<Option<u8>, PentairError>,
    pub now: u128,
    pub written: bool,
    pub sent_at: u128,
}

/// The worker after a turn, when the attempt to send was noted.
pub open spec fn settled(turn: TurnModel, input: TurnInput) -> WorkerModel {
    match turn.outgoing {
        OutgoingModel::Send { message, .. } => WorkerModel {
            link: sent_step(turn.worker.link, message, input.written, input.sent_at),
            ..turn.worker
        },
        _ => turn.worker,
    }
}

/// The turns of a run of the loop. Messages may be queued before each of them.
pub open spec fn turns(
    worker: WorkerModel,
    queue: Seq<PentairMessage>,
    inputs: Seq<TurnInput>,
) -> Seq<TurnModel>
    decreases inputs.len(),
{
    if inputs.len() == 0 {
        Seq::empty()
    } else {
        let turn = turn_step(worker, queue + inputs[0].pushed, inputs[0].read, inputs[0].now);
        seq![turn] + turns(settled(turn, inputs[0]), turn.queue, inputs.skip(1))
    }
}

/// How many rounds have come to an end: each ends with the first action that is not to read on.
pub open spec fn rounds(turns: Seq<TurnModel>) -> nat
    decreases turns.len(),
{
    if turns.len() == 0 {
        0
    } else {
        rounds(turns.drop_last()) + if turns.last().action is ReadMore {
            0nat
        } else {
            1nat
        }
    }
}

/// How many frames were handed out to be written.
pub open spec fn frames(turns: Seq<TurnModel>) -> nat
    decreases turns.len(),
{
    if turns.len() == 0 {
        0
    } else {
        frames(turns.drop_last()) + if writes(turns.last().outgoing) {
            1nat
        } else {
            0nat
        }
    }
}

proof fn lemma_turns(
    worker: WorkerModel,
    queue: Seq<PentairMessage>,
    inputs: Seq<TurnInput>,
)
    requires
        link_wf(worker.link),
    ensures
        turns(worker, queue, inputs).len() == inputs.len(),
        forall|i: int|
            0 <= i < inputs.len() ==> {
                let turn = #[trigger] turns(worker, queue, inputs)[i];
                &&& writes(turn.outgoing) ==> turn.action is BusIdle
                &&& link_wf(turn.worker.link)
            },
    decreases inputs.len(),
{
    if inputs.len() > 0 {
        let turn = turn_step(worker, queue + inputs[0].pushed, inputs[0].read, inputs[0].now);
        let rest = turns(settled(turn, inputs[0]), turn.queue, inputs.skip(1));
        lemma_turns(settled(turn, inputs[0]), turn.queue, inputs.skip(1));
        assert forall|i: int| 0 <= i < inputs.len() implies {
            let turn = #[trigger] turns(worker, queue, inputs)[i];
            &&& writes(turn.outgoing) ==> turn.action is BusIdle
            &&& link_wf(turn.worker.link)
        } by {
            if i > 0 {
                assert(turns(worker, queue, inputs)[i] == rest[i - 1]);
            }
        }
    }
}

proof fn lemma_frames_and_rounds(turns: Seq<TurnModel>)
    requires
        forall|i: int|
            0 <= i < turns.len() ==> (writes((#[trigger] turns[i]).outgoing)
                ==> turns[i].action is BusIdle),
    ensures
        frames(turns) <= rounds(turns),
    decreases turns.len(),
{
    if turns.len() > 0 {
        let before = turns.drop_last();
        assert(forall|i: int| 0 <= i < before.len() ==> before[i] == turns[i]);
        lemma_frames_and_rounds(before);
        assert(turns[turns.len() - 1] == turns.last());
    }
}

/// However long the worker runs, from its start with no order under way, whatever comes in and
/// whatever is queued before which turn: it writes only in turns that find the bus free, no stretch
/// of turns hands out more frames than rounds end in it, so at most one in each round, and no order
/// is repeated beyond the limit.
pub proof fn law_run_of_the_worker(
    queue: Seq<PentairMessage>,
    inputs: Seq<TurnInput>,
    from: int,
    to: int,
)
    requires
        0 <= from <= to <= inputs.len(),
    ensures
        ({
            let run = turns(scanning(UartState::Idle), queue, inputs);
            &&& run.len() == inputs.len()
            &&& forall|i: int|
                0 <= i < run.len() ==> {
                    let turn = #[trigger] run[i];
                    &&& writes(turn.outgoing) ==> turn.action is BusIdle
                    &&& link_wf(turn.worker.link)
                }
            &&& frames(run.subrange(from, to)) <= rounds(run.subrange(from, to))
        }),
{
    let run = turns(scanning(UartState::Idle), queue, inputs);
    lemma_turns(scanning(UartState::Idle), queue, inputs);
    let stretch = run.subrange(from, to);
    assert(forall|i: int| 0 <= i < stretch.len() ==> stretch[i] == run[i + from]);
    lemma_frames_and_rounds(stretch);
}

} // verus!
