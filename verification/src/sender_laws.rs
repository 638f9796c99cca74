//! Properties of the sender that span several of its operations.

use vstd::prelude::*;
use crate::messages::{FrameModel, MessageModel, individual_frames};
use crate::sender::{
    SenderModel, batch_body, emit, end_frame_ok, end_frame_spec, send_ok, send_spec, start_frame_ok,
    start_frame_spec,
};

verus! {

/// An operation of the sender, as a caller issues it.
pub enum SenderOp {
    StartFrame,
    Send(MessageModel),
    EndFrame,
}

/// The effect of one operation: the next state and the frames that leave.
pub open spec fn step(s: SenderModel, op: SenderOp) -> (SenderModel, Seq<FrameModel>) {
    match op {
        SenderOp::StartFrame => start_frame_spec(s),
        SenderOp::Send(m) => send_spec(s, m),
        SenderOp::EndFrame => end_frame_spec(s),
    }
}

/// The effect of a run of operations: the final state and all frames that
/// leave, in order.
pub open spec fn run(s: SenderModel, ops: Seq<SenderOp>) -> (SenderModel, Seq<FrameModel>)
    decreases ops.len(),
{
    if ops.len() == 0 {
        (s, Seq::empty())
    } else {
        let (s1, o1) = step(s, ops[0]);
        let (s2, o2) = run(s1, ops.subrange(1, ops.len() as int));
        (s2, o1 + o2)
    }
}

/// The operation is one that the sender accepts in state `s`: its sequence
/// and frame numbers do not overflow.
pub open spec fn step_ok(s: SenderModel, op: SenderOp) -> bool {
    match op {
        SenderOp::StartFrame => start_frame_ok(s),
        SenderOp::Send(_) => send_ok(s),
        SenderOp::EndFrame => end_frame_ok(s),
    }
}

/// Every operation of the run is one that the sender accepts when it comes.
pub open spec fn run_ok(s: SenderModel, ops: Seq<SenderOp>) -> bool
    decreases ops.len(),
{
    if ops.len() == 0 {
        true
    } else {
        step_ok(s, ops[0]) && run_ok(step(s, ops[0]).0, ops.subrange(1, ops.len() as int))
    }
}

/// A sender holds messages back only inside a frame.
pub open spec fn sender_wf(s: SenderModel) -> bool {
    !s.in_frame ==> s.batch.len() == 0
}

/// The operations of one frame: open it, send the messages, close it.
pub open spec fn frame_ops(ms: Seq<MessageModel>) -> Seq<SenderOp> {
    seq![SenderOp::StartFrame] + ms.map_values(|m: MessageModel| SenderOp::Send(m)) + seq![SenderOp::EndFrame]
}

/// The messages of a sequence of frames.
pub open spec fn messages_of(frames: Seq<FrameModel>) -> Seq<MessageModel> {
    frames.map_values(|f: FrameModel| f.message)
}

/// Frames numbered `start`, `start + 1`, ... in order.
pub open spec fn numbered_from(frames: Seq<FrameModel>, start: int) -> bool {
    forall|i: int| 0 <= i < frames.len() ==> #[trigger] frames[i].sequence == start + i
}

proof fn lemma_emit(s: SenderModel, m: MessageModel)
    requires
        s.enabled ==> s.sequence < u64::MAX,
    ensures
        emit(s, m).1.len() <= 1,
        numbered_from(emit(s, m).1, s.sequence as int),
        emit(s, m).0.sequence == s.sequence + emit(s, m).1.len(),
        emit(s, m).0.enabled == s.enabled,
        !s.enabled ==> emit(s, m).1.len() == 0,
{
}

proof fn lemma_step(s: SenderModel, op: SenderOp)
    requires
        step_ok(s, op),
    ensures
        step(s, op).1.len() <= 2,
        numbered_from(step(s, op).1, s.sequence as int),
        step(s, op).0.sequence == s.sequence + step(s, op).1.len(),
        step(s, op).0.enabled == s.enabled,
        !s.enabled ==> step(s, op).1.len() == 0,
        sender_wf(s) ==> sender_wf(step(s, op).0),
{
    match op {
        SenderOp::StartFrame => {
            let s1 = SenderModel { frame_number: (s.frame_number + 1) as u64, in_frame: true, ..s };
            lemma_emit(s1, MessageModel::FrameBegin { frame_number: s.frame_number });
        },
        SenderOp::Send(m) => {
            if s.enabled && !s.in_frame {
                lemma_emit(s, m);
            }
        },
        SenderOp::EndFrame => {
            if s.in_frame {
                let n: u64 = if s.frame_number > 0 { (s.frame_number - 1) as u64 } else { 0 };
                let s1 = SenderModel { in_frame: false, batch: Seq::empty(), ..s };
                let (s2, o1) = match batch_body(s.batch) {
                    None => (s1, Seq::empty()),
                    Some(m) => emit(s1, m),
                };
                match batch_body(s.batch) {
                    None => {},
                    Some(m) => lemma_emit(s1, m),
                }
                lemma_emit(s2, MessageModel::FrameEnd { frame_number: n });
                let o2 = emit(s2, MessageModel::FrameEnd { frame_number: n }).1;
                assert(step(s, op).1 == o1 + o2);
                assert forall|i: int| 0 <= i < (o1 + o2).len() implies #[trigger] (o1 + o2)[i].sequence
                    == s.sequence + i by {
                    if i >= o1.len() {
                        assert((o1 + o2)[i] == o2[i - o1.len()]);
                    }
                }
            }
        },
    }
}

/// Every operation keeps the sender well formed, and the frames that leave
/// are numbered without gap from the sender's sequence number, which then
/// stands just after them: over any run of operations that the sender
/// accepts, the receiver sees consecutive sequence numbers. A sender without
/// a transport sends nothing.
pub proof fn law_consecutive_sequence_numbers(s: SenderModel, ops: Seq<SenderOp>)
    requires
        run_ok(s, ops),
    ensures
        numbered_from(run(s, ops).1, s.sequence as int),
        run(s, ops).0.sequence == s.sequence + run(s, ops).1.len(),
        run(s, ops).1.len() <= 2 * ops.len(),
        run(s, ops).0.enabled == s.enabled,
        !s.enabled ==> run(s, ops).1.len() == 0,
        sender_wf(s) ==> sender_wf(run(s, ops).0),
    decreases ops.len(),
{
    if ops.len() > 0 {
        let (s1, o1) = step(s, ops[0]);
        lemma_step(s, ops[0]);
        let rest = ops.subrange(1, ops.len() as int);
        law_consecutive_sequence_numbers(s1, rest);
        let (s2, o2) = run(s1, rest);
        assert forall|i: int| 0 <= i < (o1 + o2).len() implies #[trigger] (o1 + o2)[i].sequence
            == s.sequence + i by {
            if i >= o1.len() {
                assert((o1 + o2)[i] == o2[i - o1.len()]);
            }
        }
    }
}

proof fn lemma_sends_in_frame(s: SenderModel, ms: Seq<MessageModel>)
    requires
        s.enabled,
        s.in_frame,
    ensures
        run(s, ms.map_values(|m: MessageModel| SenderOp::Send(m))).1.len() == 0,
        run(s, ms.map_values(|m: MessageModel| SenderOp::Send(m))).0 == (SenderModel {
            batch: s.batch + ms,
            ..s
        }),
    decreases ms.len(),
{
    let ops = ms.map_values(|m: MessageModel| SenderOp::Send(m));
    if ms.len() == 0 {
        assert(s.batch + ms =~= s.batch);
    } else {
        let s1 = SenderModel { batch: s.batch.push(ms[0]), ..s };
        assert(step(s, ops[0]) == (s1, Seq::<FrameModel>::empty()));
        let rest = ms.subrange(1, ms.len() as int);
        assert(ops.subrange(1, ops.len() as int) =~= rest.map_values(|m: MessageModel| SenderOp::Send(m)));
        lemma_sends_in_frame(s1, rest);
        assert(s1.batch + rest =~= s.batch + ms);
        assert(Seq::<FrameModel>::empty() + Seq::<FrameModel>::empty() =~= Seq::<FrameModel>::empty());
    }
}

proof fn lemma_run_one(s: SenderModel, op: SenderOp)
    ensures
        run(s, seq![op]) == step(s, op),
{
    let ops = seq![op];
    let (s1, o1) = step(s, op);
    assert(ops.subrange(1, 1) =~= Seq::<SenderOp>::empty());
    assert(run(s1, ops.subrange(1, 1)) == (s1, Seq::<FrameModel>::empty()));
    assert(o1 + Seq::<FrameModel>::empty() =~= o1);
}

proof fn lemma_unpacked_cons(f: FrameModel, rest: Seq<FrameModel>)
    ensures
        unpacked_messages(seq![f] + rest) == messages_of(individual_frames(f)) + unpacked_messages(rest),
{
    let all = seq![f] + rest;
    assert(all[0] == f);
    assert(all.subrange(1, all.len() as int) =~= rest);
}

proof fn lemma_run_append(s: SenderModel, a: Seq<SenderOp>, b: Seq<SenderOp>)
    ensures
        run(s, a + b) == (run(run(s, a).0, b).0, run(s, a).1 + run(run(s, a).0, b).1),
    decreases a.len(),
{
    if a.len() == 0 {
        assert(a + b =~= b);
        assert(Seq::<FrameModel>::empty() + run(s, b).1 =~= run(s, b).1);
    } else {
        let (s1, o1) = step(s, a[0]);
        let ra = a.subrange(1, a.len() as int);
        assert((a + b).subrange(1, (a + b).len() as int) =~= ra + b);
        assert((a + b)[0] == a[0]);
        lemma_run_append(s1, ra, b);
        let (s2, o2) = run(s1, ra);
        let (s3, o3) = run(s2, b);
        assert(o1 + (o2 + o3) =~= (o1 + o2) + o3);
    }
}

/// The messages sent between `start_frame` and `end_frame` leave as one
/// group between the frame's begin and end markers, both carrying the number
/// the frame was opened with: nothing, the single message, or one batch of all
/// of them in the order they were sent. The frames are numbered on from the
/// sender's sequence number, and afterwards the sender is outside a frame,
/// holds nothing back and counts one frame more.
pub proof fn law_frame_is_sent_as_one_group(s: SenderModel, ms: Seq<MessageModel>)
    requires
        s.enabled,
        !s.in_frame,
        s.batch.len() == 0,
        s.frame_number < u64::MAX,
        s.sequence + (if ms.len() == 0 { 2int } else { 3int }) <= u64::MAX,
    ensures
        messages_of(run(s, frame_ops(ms)).1) == seq![MessageModel::FrameBegin { frame_number: s.frame_number }]
            + (match batch_body(ms) {
            None => Seq::<MessageModel>::empty(),
            Some(b) => seq![b],
        }) + seq![MessageModel::FrameEnd { frame_number: s.frame_number }],
        numbered_from(run(s, frame_ops(ms)).1, s.sequence as int),
        run(s, frame_ops(ms)).0.in_frame == false,
        run(s, frame_ops(ms)).0.batch.len() == 0,
        run(s, frame_ops(ms)).0.frame_number == s.frame_number + 1,
{
    let sends = ms.map_values(|m: MessageModel| SenderOp::Send(m));
    let start = seq![SenderOp::StartFrame];
    let end = seq![SenderOp::EndFrame];
    assert(frame_ops(ms) == start + sends + end);
    lemma_run_append(s, start + sends, end);
    lemma_run_append(s, start, sends);
    // opening the frame
    let (s1, o1) = run(s, start);
    lemma_run_one(s, SenderOp::StartFrame);
    // holding the messages back
    lemma_sends_in_frame(s1, ms);
    let (s2, o2) = run(s1, sends);
    assert(s2.batch =~= ms);
    // closing the frame
    let (s3, o3) = run(s2, end);
    lemma_run_one(s2, SenderOp::EndFrame);
    let out = o1 + o2 + o3;
    assert(run(s, frame_ops(ms)).1 == out);
    let expected = seq![MessageModel::FrameBegin { frame_number: s.frame_number }] + (match batch_body(ms) {
        None => Seq::<MessageModel>::empty(),
        Some(b) => seq![b],
    }) + seq![MessageModel::FrameEnd { frame_number: s.frame_number }];
    assert(messages_of(out) =~= expected);
    assert forall|i: int| 0 <= i < out.len() implies #[trigger] out[i].sequence == s.sequence + i by {
        if i >= o1.len() + o2.len() {
            assert(out[i] == o3[i - o1.len() - o2.len()]);
        }
    }
}

/// What a receiver takes out of a sequence of frames, message by message:
/// each frame taken apart as `to_individual_messages` does.
pub open spec fn unpacked_messages(frames: Seq<FrameModel>) -> Seq<MessageModel>
    decreases frames.len(),
{
    if frames.len() == 0 {
        Seq::empty()
    } else {
        messages_of(individual_frames(frames[0])) + unpacked_messages(frames.subrange(1, frames.len() as int))
    }
}

/// The messages of a frame reach the receiver as they were sent: unpacking
/// the frames that one frame of the sender puts on the wire gives its begin
/// marker, the messages sent in it in their order, and its end marker. (A
/// frame of one message that is itself a batch is unpacked into that batch's
/// messages, so it is left out.)
pub proof fn law_receiver_unpacks_what_the_frame_held(s: SenderModel, ms: Seq<MessageModel>)
    requires
        s.enabled,
        !s.in_frame,
        s.batch.len() == 0,
        s.frame_number < u64::MAX,
        s.sequence + (if ms.len() == 0 { 2int } else { 3int }) <= u64::MAX,
        ms.len() == 1 ==> !(ms[0] is Batch),
    ensures
        unpacked_messages(run(s, frame_ops(ms)).1) == seq![MessageModel::FrameBegin { frame_number: s.frame_number }]
            + ms + seq![MessageModel::FrameEnd { frame_number: s.frame_number }],
{
    law_frame_is_sent_as_one_group(s, ms);
    let out = run(s, frame_ops(ms)).1;
    let fb = MessageModel::FrameBegin { frame_number: s.frame_number };
    let fe = MessageModel::FrameEnd { frame_number: s.frame_number };
    let mo = messages_of(out);
    assert(mo.len() == out.len());
    if ms.len() == 0 {
        assert(mo =~= seq![fb, fe]);
        assert(out =~= seq![out[0]] + (seq![out[1]] + Seq::<FrameModel>::empty()));
        assert(out[0].message == fb && out[1].message == fe);
        lemma_unpacked_cons(out[0], seq![out[1]] + Seq::<FrameModel>::empty());
        lemma_unpacked_cons(out[1], Seq::<FrameModel>::empty());
        assert(messages_of(individual_frames(out[0])) =~= seq![fb]);
        assert(messages_of(individual_frames(out[1])) =~= seq![fe]);
        assert(unpacked_messages(out) =~= seq![fb] + ms + seq![fe]);
    } else {
        let b = batch_body(ms).unwrap();
        assert(mo =~= seq![fb, b, fe]);
        assert(out =~= seq![out[0]] + (seq![out[1]] + (seq![out[2]] + Seq::<FrameModel>::empty())));
        assert(out[0].message == fb && out[1].message == b && out[2].message == fe);
        lemma_unpacked_cons(out[0], seq![out[1]] + (seq![out[2]] + Seq::<FrameModel>::empty()));
        lemma_unpacked_cons(out[1], seq![out[2]] + Seq::<FrameModel>::empty());
        lemma_unpacked_cons(out[2], Seq::<FrameModel>::empty());
        assert(messages_of(individual_frames(out[0])) =~= seq![fb]);
        assert(messages_of(individual_frames(out[2])) =~= seq![fe]);
        assert(messages_of(individual_frames(out[1])) =~= ms);
        assert(unpacked_messages(out) =~= seq![fb] + ms + seq![fe]);
    }
}

} // verus!
