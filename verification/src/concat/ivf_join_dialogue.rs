//! What a join asks for, put beside what it was told and what the output holds.

use crate::concat::files::ChunkFile;
use crate::concat::ivf::{first_fault, joinable, joined, joined_frames};
use crate::concat::ivf_join::{IvfJoin, JoinAction, JoinError, JoinEvent, JoinStage};
use crate::concat::ivf_join_laws::{
    agrees, contents_of, every_step_agrees, fresh_join_agrees, lemma_first_fault_index,
    output_after, overwritten,
};
use crate::concat::ivf_message::fault_message;
use vstd::prelude::*;

verus! {

/// Whether `event` is an answer to `action`.
pub open spec fn answers_join(action: JoinAction, event: JoinEvent) -> bool {
    match action {
        JoinAction::Read { .. } => event is Read,
        JoinAction::Create { .. } => event is Written,
        JoinAction::Append { .. } => event is Written,
        JoinAction::Overwrite { .. } => event is Written,
        JoinAction::Discard => event is Discarded,
        JoinAction::Stop { .. } => false,
    }
}

/// What a join waits for is what answers the action that it asks for.
pub proof fn join_waits_for_answers(join: IvfJoin, action: JoinAction, event: JoinEvent)
    requires
        join.wf(),
        join.asks(action),
    ensures
        join.stage.awaits(event) <==> answers_join(action, event),
{
}

/// What the output holds once `action` is done, where it held `out` before.
pub open spec fn done(action: JoinAction, out: Seq<u8>) -> Seq<u8> {
    match action {
        JoinAction::Create { bytes } => bytes@,
        JoinAction::Append { bytes } => out + bytes@,
        JoinAction::Overwrite { at, bytes } => Seq::new(
            out.len(),
            |i: int|
                if at <= i < at + bytes@.len() {
                    bytes@[i - at]
                } else {
                    out[i]
                },
        ),
        _ => out,
    }
}

/// Whether something went wrong outside.
pub open spec fn is_failure(event: JoinEvent) -> bool {
    ||| event matches JoinEvent::Read(Err(_))
    ||| event matches JoinEvent::Written(Err(_))
}

/// Whether a join of `joins[0].files` asks for `actions` one by one, `events` answer all of them but
/// the last, and what is read is what the files hold, where `listing` is what those of the directory
/// hold.
pub open spec fn is_join_dialogue<'a>(
    joins: Seq<IvfJoin>,
    actions: Seq<JoinAction<'a>>,
    events: Seq<JoinEvent>,
    listing: Seq<Seq<u8>>,
) -> bool {
    &&& joins.len() == events.len() + 1
    &&& actions.len() == events.len() + 1
    &&& if joins[0].files@.len() == 0 {
        joins[0].is_without_files()
    } else {
        joins[0].stage is ReadingFirst
    }
    &&& forall|i: int| 0 <= i < joins.len() ==> (#[trigger] joins[i]).wf() && joins[i].asks(actions[i])
    &&& forall|i: int|
        0 <= i < events.len() ==> {
            &&& answers_join(actions[i], #[trigger] events[i])
            &&& joins[i].leads_to(events[i], joins[i + 1])
            &&& events[i] matches JoinEvent::Read(Ok(bytes)) ==> bytes@
                == listing[actions[i]->position as int]
        }
}

/// What the output holds behind the first `count` events.
pub open spec fn out_behind<'a>(
    actions: Seq<JoinAction<'a>>,
    events: Seq<JoinEvent>,
    count: int,
) -> Seq<u8>
    decreases count,
{
    if count <= 0 {
        Seq::empty()
    } else {
        let before = out_behind(actions, events, count - 1);
        if events[count - 1] matches JoinEvent::Written(Ok(_)) {
            done(actions[count - 1], before)
        } else {
            before
        }
    }
}

proof fn lemma_done(join: IvfJoin, action: JoinAction, listing: Seq<Seq<u8>>, out: Seq<u8>)
    requires
        join.wf(),
        join.asks(action),
        agrees(join, listing, out),
    ensures
        done(action, out) == output_after(join.stage, out),
{
    if let JoinStage::Counting { field } = join.stage {
        crate::little_endian::le_bytes_len(
            joined_frames(contents_of(join.files@, listing)).len(),
            4,
        );
        assert(done(action, out) =~= overwritten(out, 24, field@));
    }
}

proof fn lemma_dialogue<'a>(
    joins: Seq<IvfJoin>,
    actions: Seq<JoinAction<'a>>,
    events: Seq<JoinEvent>,
    listing: Seq<Seq<u8>>,
    count: int,
)
    requires
        is_join_dialogue(joins, actions, events, listing),
        0 <= count <= events.len(),
    ensures
        joins[count].files == joins[0].files,
        joins[count].input == joins[0].input,
        agrees(joins[count], listing, out_behind(actions, events, count)),
        (forall|i: int| 0 <= i < count ==> !is_failure(#[trigger] events[i])) ==> {
            &&& !(joins[count].stage matches JoinStage::Discarding { error: JoinError::Failed { .. } })
            &&& !(joins[count].stage matches JoinStage::Finished {
                outcome: Err(JoinError::Failed { .. }),
            })
        },
    decreases count,
{
    if count == 0 {
        fresh_join_agrees(joins[0], listing, Seq::empty());
    } else {
        let at = count - 1;
        lemma_dialogue(joins, actions, events, listing, at);
        let join = joins[at];
        let event = events[at];
        let before = out_behind(actions, events, at);
        assert(join.wf() && join.asks(actions[at]));
        assert(answers_join(actions[at], event));
        assert(join.leads_to(event, joins[at + 1]));
        join_waits_for_answers(join, actions[at], event);
        lemma_done(join, actions[at], listing, before);
        every_step_agrees(join, listing, before, event, joins[at + 1]);
        if forall|i: int| 0 <= i < count ==> !is_failure(#[trigger] events[i]) {
            assert(!is_failure(event));
        }
    }
}

/// A join that ends well leaves the joined files behind, and the files can be joined. One in which
/// nothing went wrong outside and that ends in an error says which is the first file that cannot be
/// joined, and why, or that there is no file, or that there are too many frames.
pub proof fn join_leaves_the_joined_files<'a>(
    joins: Seq<IvfJoin>,
    actions: Seq<JoinAction<'a>>,
    events: Seq<JoinEvent>,
    listing: Seq<Seq<u8>>,
)
    requires
        is_join_dialogue(joins, actions, events, listing),
    ensures
        ({
            let files = joins[0].files@;
            let contents = Seq::new(files.len(), |i: int| listing[files[i].position as int]);
            &&& actions.last() matches JoinAction::Stop { error: None } ==> joinable(contents)
                && out_behind(actions, events, events.len() as int) == joined(contents)
            &&& (actions.last() is Stop && forall|i: int|
                0 <= i < events.len() ==> !is_failure(#[trigger] events[i])) ==> (
            actions.last() matches JoinAction::Stop { error: None } <==> joinable(contents))
            &&& (forall|i: int| 0 <= i < events.len() ==> !is_failure(#[trigger] events[i])) ==> (
            actions.last() matches JoinAction::Stop { error: Some(text) } ==> if files.len() == 0 {
                text@ == "No IVF chunks found in "@ + joins[0].input@
            } else {
                match first_fault(contents, 0) {
                    Some((index, fault)) => text@ == fault_message(fault, files[index].path@),
                    None => joined_frames(contents).len() > 0xFFFF_FFFF && text@
                        == "IVF frame count exceeds u32"@,
                }
            })
        }),
{
    lemma_dialogue(joins, actions, events, listing, events.len() as int);
    let files = joins[0].files@;
    let contents = contents_of(files, listing);
    assert(contents =~= Seq::new(files.len(), |i: int| listing[files[i].position as int]));
    let last = joins[events.len() as int];
    assert(last.wf() && last.asks(actions.last()));
    lemma_first_fault_index(contents, 0);
}

/// What goes wrong outside is said as it is, and is the end: the output is removed, and the join stops.
pub proof fn failure_ends_the_join<'a>(
    joins: Seq<IvfJoin>,
    actions: Seq<JoinAction<'a>>,
    events: Seq<JoinEvent>,
    listing: Seq<Seq<u8>>,
    at: int,
)
    requires
        is_join_dialogue(joins, actions, events, listing),
        0 <= at < events.len(),
        is_failure(events[at]),
    ensures
        ({
            let message = match events[at] {
                JoinEvent::Read(Err(message)) => message@,
                JoinEvent::Written(Err(message)) => message@,
                _ => Seq::empty(),
            };
            &&& actions[at + 1] is Discard
            &&& actions.len() <= at + 3
            &&& actions.len() == at + 3 ==> (actions[at + 2] matches JoinAction::Stop {
                error: Some(text),
            } && text@ == message)
        }),
{
    assert(joins[at].leads_to(events[at], joins[at + 1]));
    assert(joins[at + 1].wf() && joins[at + 1].asks(actions[at + 1]));
    if at + 1 < events.len() {
        assert(answers_join(actions[at + 1], events[at + 1]));
        assert(joins[at + 1].leads_to(events[at + 1], joins[at + 2]));
        assert(joins[at + 2].wf() && joins[at + 2].asks(actions[at + 2]));
        if at + 2 < events.len() {
            assert(answers_join(actions[at + 2], events[at + 2]));
        }
    }
}

/// Before a join that has asked for anything stops with an error, it asks for the output to be removed;
/// before it stops without one, it asks for the frame count to be corrected.
pub proof fn output_is_corrected_or_removed<'a>(
    joins: Seq<IvfJoin>,
    actions: Seq<JoinAction<'a>>,
    events: Seq<JoinEvent>,
    listing: Seq<Seq<u8>>,
)
    requires
        is_join_dialogue(joins, actions, events, listing),
        events.len() > 0,
        actions.last() is Stop,
    ensures
        actions.last() matches JoinAction::Stop { error: Some(_) } ==> actions[events.len()
            - 1] is Discard,
        actions.last() matches JoinAction::Stop { error: None } ==> actions[events.len()
            - 1] is Overwrite,
{
    let at = events.len() - 1;
    assert(answers_join(actions[at], events[at]));
    assert(joins[at].leads_to(events[at], joins[at + 1]));
    assert(joins[at].wf() && joins[at].asks(actions[at]));
    assert(joins[at + 1].wf() && joins[at + 1].asks(actions[at + 1]));
}

/// A file that is asked for is one of those to join: its position and its path go together.
pub proof fn position_and_path_go_together(join: IvfJoin, action: JoinAction)
    requires
        join.wf(),
        join.asks(action),
        action is Read,
    ensures
        exists|i: int|
            0 <= i < join.files@.len() && action->position == (#[trigger] join.files@[i]).position
                && action->path@ == join.files@[i].path@,
{
    let at = match join.stage {
        JoinStage::Reading { next, .. } => next as int,
        _ => 0,
    };
    let file: ChunkFile = join.files@[at];
    assert(action->position == file.position && action->path@ == file.path@);
}

} // verus!
