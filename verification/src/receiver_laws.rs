//! Properties of the receiver that span several of its operations.

use vstd::prelude::*;
use crate::messages::{FrameModel, MessageModel, individual_frames};
use crate::receiver::{
    ActionModel, MAX_PENDING_FRAMES, ReadModel, ReportModel, StepModel, TargetModel, all_individual, drain,
    drain_from, frames_read, is_reserved_name, is_resource_name, names_after, plan, process_all, receive_step,
    sequence_gap,
};
use crate::sender::{SenderModel, batch_body, emit};
use crate::sender_laws::{SenderOp, law_consecutive_sequence_numbers, numbered_from, run, run_ok, step};

verus! {

/// For each single message of a frame, whether it opens the frame: the
/// first does.
pub open spec fn opening_flags(f: FrameModel) -> Seq<bool> {
    Seq::new(individual_frames(f).len(), |k: int| k == 0)
}

/// For each single message of the frames, in order, whether it opens its
/// frame.
pub open spec fn all_opening(fs: Seq<FrameModel>) -> Seq<bool>
    decreases fs.len(),
{
    if fs.len() == 0 {
        Seq::empty()
    } else {
        all_opening(fs.subrange(0, fs.len() - 1)) + opening_flags(fs[fs.len() - 1])
    }
}

/// The report on single message `i` of frames that follow each other in
/// sequence: a message that opens its frame shows no break; one of a batch
/// after its first carries the batch's number again, and a frame numbered
/// `n > 0` is expected to be followed by `n + 1`.
pub open spec fn expected_gap(ind: Seq<FrameModel>, opens: Seq<bool>, i: int) -> Option<u64> {
    if opens[i] {
        None
    } else {
        sequence_gap(ind[i].sequence, ind[i].sequence)
    }
}

proof fn lemma_all_individual_one(f: FrameModel)
    ensures
        all_individual(seq![f]) == individual_frames(f),
        all_opening(seq![f]) == opening_flags(f),
{
    let fs = seq![f];
    assert(fs.subrange(0, fs.len() - 1) =~= Seq::<FrameModel>::empty());
    assert(all_individual(Seq::<FrameModel>::empty()) == Seq::<FrameModel>::empty());
    assert(all_opening(Seq::<FrameModel>::empty()) == Seq::<bool>::empty());
    assert(fs[fs.len() - 1] == f);
    assert(Seq::<FrameModel>::empty() + individual_frames(f) =~= individual_frames(f));
    assert(Seq::<bool>::empty() + opening_flags(f) =~= opening_flags(f));
}

/// An entity spawned by a message can take components from the messages
/// after it in the same batch: a batch that spawns an entity under a new
/// name and then sends it a component makes the scene spawn the entity and
/// insert the component into it, and the scene then knows the name.
pub proof fn law_spawn_then_insert_in_one_batch(
    last: u64,
    sequence: u64,
    names: Seq<Seq<char>>,
    name: Seq<char>,
    is_renderable: bool,
    is_on_gui: bool,
    component_type: Seq<char>,
    data: Seq<u8>,
)
    requires
        !is_reserved_name(name),
        !is_resource_name(name),
        !names.contains(name),
    ensures
        ({
            let batch = MessageModel::Batch(
                seq![
                    MessageModel::EntitySpawn { entity_name: name, is_renderable, is_on_gui },
                    MessageModel::ComponentInsert { entity_name: name, component_type, data },
                ],
            );
            let f = FrameModel { sequence, message: batch };
            let (l, reps, n) = process_all(last, all_individual(seq![f]), names);
            &&& reps.len() == 2
            &&& reps[0].gap == sequence_gap(last, sequence)
            &&& reps[1].gap == sequence_gap(sequence, sequence)
            &&& reps[0].actions == seq![ActionModel::Spawn { entity_name: name, is_renderable, is_on_gui }]
            &&& reps[1].actions == seq![
                ActionModel::InsertComponent { target: TargetModel::Named(name), component_type, data },
            ]
            &&& n == names.push(name)
            &&& l == sequence
        }),
{
    let spawn = MessageModel::EntitySpawn { entity_name: name, is_renderable, is_on_gui };
    let insert = MessageModel::ComponentInsert { entity_name: name, component_type, data };
    let batch = MessageModel::Batch(seq![spawn, insert]);
    let f = FrameModel { sequence, message: batch };
    lemma_all_individual_one(f);
    let ind = individual_frames(f);
    assert(ind =~= seq![FrameModel { sequence, message: spawn }, FrameModel { sequence, message: insert }]);
    let names1 = names.push(name);
    assert(names1.contains(name)) by {
        assert(names1[names.len() as int] == name);
    }
    let rest = ind.subrange(1, 2);
    assert(rest =~= seq![FrameModel { sequence, message: insert }]);
    assert(rest.subrange(1, 1) =~= Seq::<FrameModel>::empty());
    assert(plan(spawn, names) == seq![ActionModel::Spawn { entity_name: name, is_renderable, is_on_gui }]);
    assert(plan(insert, names1) == seq![
        ActionModel::InsertComponent { target: TargetModel::Named(name), component_type, data },
    ]);
    let a0 = plan(spawn, names);
    assert(names_after(names, spawn, a0) == names1);
    let a1 = plan(insert, names1);
    assert(names_after(names1, insert, a1) == names1);
    let e = Seq::<FrameModel>::empty();
    assert(process_all(sequence, e, names1) == (sequence, Seq::<ReportModel>::empty(), names1));
    let (l1, r1, n1) = process_all(sequence, rest, names1);
    assert(rest[0] == FrameModel { sequence, message: insert });
    assert(r1 =~= seq![ReportModel { gap: sequence_gap(sequence, sequence), actions: a1 }]);
    assert(ind[0] == FrameModel { sequence, message: spawn });
    let (l, reps, n) = process_all(last, ind, names);
    assert(reps == seq![ReportModel { gap: sequence_gap(last, sequence), actions: a0 }] + r1);
}

proof fn lemma_opening_len(fs: Seq<FrameModel>)
    ensures
        all_opening(fs).len() == all_individual(fs).len(),
    decreases fs.len(),
{
    if fs.len() > 0 {
        lemma_opening_len(fs.subrange(0, fs.len() - 1));
    }
}

proof fn lemma_process_append(last: u64, a: Seq<FrameModel>, b: Seq<FrameModel>, names: Seq<Seq<char>>)
    ensures
        process_all(last, a + b, names) == ({
            let (l1, r1, n1) = process_all(last, a, names);
            let (l2, r2, n2) = process_all(l1, b, n1);
            (l2, r1 + r2, n2)
        }),
        process_all(last, a, names).1.len() == a.len(),
    decreases a.len(),
{
    if a.len() == 0 {
        assert(a + b =~= b);
        let (l2, r2, n2) = process_all(last, b, names);
        assert(Seq::<ReportModel>::empty() + r2 =~= r2);
    } else {
        let f = a[0];
        let actions = plan(f.message, names);
        let ra = a.subrange(1, a.len() as int);
        assert((a + b)[0] == f);
        assert((a + b).subrange(1, (a + b).len() as int) =~= ra + b);
        lemma_process_append(f.sequence, ra, b, names_after(names, f.message, actions));
        let (l1, r1, n1) = process_all(f.sequence, ra, names_after(names, f.message, actions));
        let (l2, r2, n2) = process_all(l1, b, n1);
        let rep = ReportModel { gap: sequence_gap(last, f.sequence), actions };
        assert(seq![rep] + (r1 + r2) =~= (seq![rep] + r1) + r2);
    }
}

proof fn lemma_batch_rest(ps: Seq<FrameModel>, seq: u64, names: Seq<Seq<char>>)
    requires
        forall|i: int| 0 <= i < ps.len() ==> (#[trigger] ps[i]).sequence == seq,
    ensures
        process_all(seq, ps, names).0 == seq,
        process_all(seq, ps, names).1.len() == ps.len(),
        forall|i: int|
            0 <= i < process_all(seq, ps, names).1.len() ==> (#[trigger] process_all(seq, ps, names).1[i]).gap
                == sequence_gap(seq, seq),
    decreases ps.len(),
{
    if ps.len() > 0 {
        let f = ps[0];
        let actions = plan(f.message, names);
        let rest = ps.subrange(1, ps.len() as int);
        assert forall|i: int| 0 <= i < rest.len() implies (#[trigger] rest[i]).sequence == seq by {
            assert(rest[i] == ps[i + 1]);
        }
        lemma_batch_rest(rest, seq, names_after(names, f.message, actions));
        let r = process_all(seq, rest, names_after(names, f.message, actions)).1;
        let reps = process_all(seq, ps, names).1;
        assert forall|i: int| 0 <= i < reps.len() implies (#[trigger] reps[i]).gap == sequence_gap(seq, seq) by {
            if i > 0 {
                assert(reps[i] == r[i - 1]);
            }
        }
    }
}

proof fn lemma_frame_follows(last: u64, f: FrameModel, names: Seq<Seq<char>>)
    requires
        f.sequence == last + 1 || f.sequence == 0 && last == 0,
        individual_frames(f).len() > 0,
    ensures
        process_all(last, individual_frames(f), names).0 == f.sequence,
        process_all(last, individual_frames(f), names).1.len() == individual_frames(f).len(),
        forall|i: int|
            0 <= i < individual_frames(f).len() ==> (#[trigger] process_all(last, individual_frames(f), names).1[i]).gap
                == expected_gap(individual_frames(f), opening_flags(f), i),
{
    let ps = individual_frames(f);
    let ops = opening_flags(f);
    let g = ps[0];
    assert(g.sequence == f.sequence);
    let actions = plan(g.message, names);
    let rest = ps.subrange(1, ps.len() as int);
    assert forall|i: int| 0 <= i < rest.len() implies (#[trigger] rest[i]).sequence == f.sequence by {
        assert(rest[i] == ps[i + 1]);
    }
    lemma_batch_rest(rest, f.sequence, names_after(names, g.message, actions));
    let r = process_all(g.sequence, rest, names_after(names, g.message, actions)).1;
    let reps = process_all(last, ps, names).1;
    assert(sequence_gap(last, g.sequence) is None);
    assert forall|i: int| 0 <= i < ps.len() implies (#[trigger] reps[i]).gap == expected_gap(ps, ops, i) by {
        if i > 0 {
            assert(reps[i] == r[i - 1]);
            assert(ps[i].sequence == f.sequence);
            assert(!ops[i]);
        } else {
            assert(ops[0]);
        }
    }
}

/// Frames numbered one after the other from the one after the last frame
/// processed (or from 0 by a receiver that has processed none) are
/// processed, message by message, with no report of a break for any message
/// that opens its frame: only the messages of a batch after its first, which
/// carry the batch's number again, are reported as breaks (expected: that
/// number plus one, where it is not 0). Frames that are not batches of two
/// or more messages thus show no break at all, and the last number processed
/// is that of the last frame. (An empty batch holds no message to process,
/// so it leaves a hole in the numbers; it is left out.)
pub proof fn law_consecutive_frames_report_breaks_only_inside_batches(
    last: u64,
    start: int,
    fs: Seq<FrameModel>,
    names: Seq<Seq<char>>,
)
    requires
        start == last + 1 || start == 0 && last == 0,
        numbered_from(fs, start),
        forall|i: int| 0 <= i < fs.len() ==> individual_frames(#[trigger] fs[i]).len() > 0,
    ensures
        ({
            let ind = all_individual(fs);
            let opens = all_opening(fs);
            let (l, reps, _) = process_all(last, ind, names);
            &&& reps.len() == ind.len()
            &&& opens.len() == ind.len()
            &&& forall|i: int| 0 <= i < reps.len() ==> (#[trigger] reps[i]).gap == expected_gap(ind, opens, i)
            &&& (forall|k: int| 0 <= k < fs.len() ==> individual_frames(#[trigger] fs[k]).len() == 1) ==> forall|i: int|
                0 <= i < reps.len() ==> (#[trigger] reps[i]).gap is None
            &&& l == (if fs.len() == 0 { last as int } else { start + fs.len() - 1 })
        }),
    decreases fs.len(),
{
    lemma_opening_len(fs);
    if fs.len() > 0 {
        let init = fs.subrange(0, fs.len() - 1);
        let f = fs[fs.len() - 1];
        assert forall|i: int| 0 <= i < init.len() implies #[trigger] init[i].sequence == start + i by {
            assert(init[i] == fs[i]);
        }
        assert forall|i: int| 0 <= i < init.len() implies individual_frames(#[trigger] init[i]).len() > 0 by {
            assert(init[i] == fs[i]);
        }
        law_consecutive_frames_report_breaks_only_inside_batches(last, start, init, names);
        lemma_opening_len(init);
        let ia = all_individual(init);
        let oa = all_opening(init);
        let ps = individual_frames(f);
        let op = opening_flags(f);
        let (l1, r1, n1) = process_all(last, ia, names);
        assert(f.sequence == start + (fs.len() - 1));
        lemma_frame_follows(l1, f, n1);
        lemma_process_append(last, ia, ps, names);
        let (l2, r2, n2) = process_all(l1, ps, n1);
        let ind = all_individual(fs);
        let opens = all_opening(fs);
        assert(ind == ia + ps);
        assert(opens == oa + op);
        let reps = r1 + r2;
        assert forall|i: int| 0 <= i < reps.len() implies (#[trigger] reps[i]).gap == expected_gap(ind, opens, i) by {
            if i >= r1.len() {
                assert(reps[i] == r2[i - r1.len()]);
                assert(ind[i] == ps[i - ia.len()]);
                assert(opens[i] == op[i - oa.len()]);
            } else {
                assert(reps[i] == r1[i]);
                assert(ind[i] == ia[i]);
                assert(opens[i] == oa[i]);
            }
        }
        if forall|k: int| 0 <= k < fs.len() ==> individual_frames(#[trigger] fs[k]).len() == 1 {
            assert forall|k: int| 0 <= k < init.len() implies individual_frames(#[trigger] init[k]).len() == 1 by {
                assert(init[k] == fs[k]);
            }
            assert(individual_frames(fs[fs.len() - 1]).len() == 1);
            assert forall|i: int| 0 <= i < reps.len() implies (#[trigger] reps[i]).gap is None by {
                if i >= r1.len() {
                    assert(reps[i] == r2[i - r1.len()]);
                    assert(i - r1.len() == 0);
                    assert(op[0]);
                } else {
                    assert(reps[i] == r1[i]);
                }
            }
        }
    }
}

/// A message that a receiver processes as at least one single message:
/// anything but an empty batch.
pub open spec fn carries_messages(m: MessageModel) -> bool {
    !(m matches MessageModel::Batch(ms) && ms.len() == 0)
}

/// The sender holds back only messages that carry something, and the
/// operations send only such messages.
pub open spec fn sends_no_empty_batch(s: SenderModel, ops: Seq<SenderOp>) -> bool {
    &&& forall|i: int| 0 <= i < s.batch.len() ==> carries_messages(#[trigger] s.batch[i])
    &&& forall|i: int| 0 <= i < ops.len() ==> (#[trigger] ops[i] matches SenderOp::Send(m) ==> carries_messages(m))
}

proof fn lemma_emit_carries(s: SenderModel, m: MessageModel)
    requires
        carries_messages(m),
    ensures
        forall|i: int| 0 <= i < emit(s, m).1.len() ==> individual_frames(#[trigger] emit(s, m).1[i]).len() > 0,
        emit(s, m).0.batch == s.batch,
{
}

proof fn lemma_step_carries(s: SenderModel, op: SenderOp)
    requires
        forall|i: int| 0 <= i < s.batch.len() ==> carries_messages(#[trigger] s.batch[i]),
        op matches SenderOp::Send(m) ==> carries_messages(m),
    ensures
        forall|i: int| 0 <= i < step(s, op).1.len() ==> individual_frames(#[trigger] step(s, op).1[i]).len() > 0,
        forall|i: int| 0 <= i < step(s, op).0.batch.len() ==> carries_messages(#[trigger] step(s, op).0.batch[i]),
{
    match op {
        SenderOp::StartFrame => {
            let s1 = SenderModel { frame_number: (s.frame_number + 1) as u64, in_frame: true, ..s };
            lemma_emit_carries(s1, MessageModel::FrameBegin { frame_number: s.frame_number });
        },
        SenderOp::Send(m) => {
            lemma_emit_carries(s, m);
            if s.enabled && s.in_frame {
                let b = s.batch.push(m);
                assert forall|i: int| 0 <= i < b.len() implies carries_messages(#[trigger] b[i]) by {
                    if i < s.batch.len() {
                        assert(b[i] == s.batch[i]);
                    }
                }
            }
        },
        SenderOp::EndFrame => {
            if s.in_frame {
                let n: u64 = if s.frame_number > 0 { (s.frame_number - 1) as u64 } else { 0 };
                let s1 = SenderModel { in_frame: false, batch: Seq::empty(), ..s };
                let (s2, o1) = match batch_body(s.batch) {
                    None => (s1, Seq::empty()),
                    Some(m) => emit(s1, m),
                };
                match batch_body(s.batch) {
                    None => {},
                    Some(m) => {
                        if s.batch.len() == 1 {
                            assert(carries_messages(s.batch[0]));
                        }
                        lemma_emit_carries(s1, m);
                    },
                }
                lemma_emit_carries(s2, MessageModel::FrameEnd { frame_number: n });
                let o2 = emit(s2, MessageModel::FrameEnd { frame_number: n }).1;
                assert(step(s, op).1 == o1 + o2);
                assert forall|i: int| 0 <= i < (o1 + o2).len() implies individual_frames(#[trigger] (o1 + o2)[i]).len() > 0 by {
                    if i >= o1.len() {
                        assert((o1 + o2)[i] == o2[i - o1.len()]);
                    } else {
                        assert((o1 + o2)[i] == o1[i]);
                    }
                }
            }
        },
    }
}

proof fn lemma_run_carries(s: SenderModel, ops: Seq<SenderOp>)
    requires
        sends_no_empty_batch(s, ops),
    ensures
        forall|i: int| 0 <= i < run(s, ops).1.len() ==> individual_frames(#[trigger] run(s, ops).1[i]).len() > 0,
    decreases ops.len(),
{
    if ops.len() > 0 {
        assert(ops[0] matches SenderOp::Send(m) ==> carries_messages(m));
        lemma_step_carries(s, ops[0]);
        let (s1, o1) = step(s, ops[0]);
        let rest = ops.subrange(1, ops.len() as int);
        assert forall|i: int| 0 <= i < rest.len() implies (#[trigger] rest[i] matches SenderOp::Send(m) ==> carries_messages(m)) by {
            assert(rest[i] == ops[i + 1]);
        }
        lemma_run_carries(s1, rest);
        let o2 = run(s1, rest).1;
        assert forall|i: int| 0 <= i < (o1 + o2).len() implies individual_frames(#[trigger] (o1 + o2)[i]).len() > 0 by {
            if i >= o1.len() {
                assert((o1 + o2)[i] == o2[i - o1.len()]);
            } else {
                assert((o1 + o2)[i] == o1[i]);
            }
        }
    }
}

/// What a sender sends reaches a receiver in order: over any run of
/// operations that the sender accepts, where the receiver last processed the
/// frame numbered just before the sender's next number (or neither has
/// numbered a frame yet), processing the frames that leave, message by
/// message, reports no break for any message that opens its frame; only the
/// messages of a batch after its first are reported, as the batch's number
/// comes again. (An empty batch holds no message to process; none is sent.)
pub proof fn law_receiver_sees_the_sender_frames_in_order(
    s: SenderModel,
    ops: Seq<SenderOp>,
    last: u64,
    names: Seq<Seq<char>>,
)
    requires
        run_ok(s, ops),
        s.sequence == last + 1 || s.sequence == 0 && last == 0,
        sends_no_empty_batch(s, ops),
    ensures
        ({
            let out = run(s, ops).1;
            let ind = all_individual(out);
            let opens = all_opening(out);
            let reps = process_all(last, ind, names).1;
            &&& reps.len() == ind.len()
            &&& forall|i: int| 0 <= i < reps.len() ==> (#[trigger] reps[i]).gap == expected_gap(ind, opens, i)
        }),
{
    law_consecutive_sequence_numbers(s, ops);
    lemma_run_carries(s, ops);
    law_consecutive_frames_report_breaks_only_inside_batches(last, s.sequence as int, run(s, ops).1, names);
}

proof fn lemma_drain_from(frames: Seq<FrameModel>, reads: Seq<ReadModel>)
    requires
        frames.len() < MAX_PENDING_FRAMES,
    ensures
        ({
            let (a, u, e) = drain_from(frames, reads);
            &&& u <= reads.len()
            &&& a == frames + frames_read(reads.subrange(0, u as int))
            &&& a.len() <= MAX_PENDING_FRAMES
            &&& forall|i: int| 0 <= i < u - 1 ==> #[trigger] reads[i] is Frame
            &&& e is None ==> u == reads.len() && a.len() < MAX_PENDING_FRAMES
            &&& e matches Some(x) ==> u >= 1 && ({
                ||| x is Done && reads[u - 1] is Nothing
                ||| x is Done && reads[u - 1] is Frame && a.len() == MAX_PENDING_FRAMES
                ||| x is Closed && reads[u - 1] is Closed
                ||| x is Failed && reads[u - 1] is Failed
            })
        }),
    decreases reads.len(),
{
    if reads.len() == 0 {
        assert(reads.subrange(0, 0) =~= Seq::<ReadModel>::empty());
        assert(frames + Seq::<FrameModel>::empty() =~= frames);
    } else {
        let rest = reads.subrange(1, reads.len() as int);
        let (fr, step) = receive_step(frames, reads[0]);
        let first = match reads[0] {
            ReadModel::Frame(f) => seq![f],
            _ => Seq::<FrameModel>::empty(),
        };
        assert(fr == frames + first);
        match step {
            StepModel::More => {
                lemma_drain_from(fr, rest);
                let (a, u, e) = drain_from(fr, rest);
                let pre = reads.subrange(0, (u + 1) as int);
                assert(pre[0] == reads[0]);
                assert(pre.subrange(1, pre.len() as int) =~= rest.subrange(0, u as int));
                assert(frames_read(pre) == first + frames_read(rest.subrange(0, u as int)));
                assert(frames + (first + frames_read(rest.subrange(0, u as int))) =~= fr + frames_read(rest.subrange(0, u as int)));
                assert forall|i: int| 0 <= i < u + 1 - 1 implies #[trigger] reads[i] is Frame by {
                    if i > 0 {
                        assert(reads[i] == rest[i - 1]);
                    }
                }
                if u >= 1 {
                    assert(reads[u + 1 - 1] == rest[u - 1]);
                }
            },
            _ => {
                let pre = reads.subrange(0, 1);
                assert(pre[0] == reads[0]);
                assert(pre.subrange(1, 1) =~= Seq::<ReadModel>::empty());
                assert(frames_read(pre) == first + frames_read(Seq::<ReadModel>::empty()));
                assert(first + Seq::<FrameModel>::empty() =~= first);
            },
        }
    }
}

/// Draining the transport takes the frames that the reads give, in the order
/// they come, and at most [`MAX_PENDING_FRAMES`] of them. Without a
/// transport nothing is read and no frame is taken. Otherwise every read
/// but the last gave a frame, and draining ends at the first read that gives
/// none (no frame ready, a closed connection or another error, each ending
/// it its own way) or at the read that brings the frames held to
/// [`MAX_PENDING_FRAMES`]; where the reads given run out first, all of them
/// gave frames and fewer than that are held.
pub proof fn law_drain_takes_frames_in_order(enabled: bool, reads: Seq<ReadModel>)
    ensures
        ({
            let (frames, used, end) = drain(enabled, reads);
            &&& !enabled ==> frames.len() == 0 && used == 0 && end == Some(StepModel::Done)
            &&& used <= reads.len()
            &&& frames.len() <= MAX_PENDING_FRAMES
            &&& enabled ==> frames == frames_read(reads.subrange(0, used as int))
            &&& forall|i: int| 0 <= i < used - 1 ==> #[trigger] reads[i] is Frame
            &&& end is None ==> used == reads.len() && frames.len() < MAX_PENDING_FRAMES
            &&& enabled ==> (end matches Some(x) ==> used >= 1 && ({
                ||| x is Done && reads[used - 1] is Nothing
                ||| x is Done && reads[used - 1] is Frame && frames.len() == MAX_PENDING_FRAMES
                ||| x is Closed && reads[used - 1] is Closed
                ||| x is Failed && reads[used - 1] is Failed
            }))
        }),
{
    if enabled {
        lemma_drain_from(Seq::empty(), reads);
        let (a, u, e) = drain_from(Seq::empty(), reads);
        assert(Seq::<FrameModel>::empty() + frames_read(reads.subrange(0, u as int)) =~= frames_read(
            reads.subrange(0, u as int),
        ));
    }
}

/// What the scene is asked to do for a component or a spawn, for every
/// name: a component sent under the resource name goes to the resource
/// entity; any other component goes to the entity of its name where the
/// scene holds one (the viewer's own floor and camera included), and is
/// refused as missing where it does not. A spawn of the viewer's own floor
/// or camera is ignored; any other spawn is skipped where the name is held
/// and carried out where it is new.
pub proof fn law_messages_reach_the_entities_the_scene_holds(
    n: Seq<char>,
    t: Seq<char>,
    d: Seq<u8>,
    is_renderable: bool,
    is_on_gui: bool,
    names: Seq<Seq<char>>,
)
    ensures
        ({
            let insert = MessageModel::ComponentInsert { entity_name: n, component_type: t, data: d };
            &&& n == "entity_resource"@ ==> plan(insert, names) == seq![
                ActionModel::InsertComponent { target: TargetModel::Resource, component_type: t, data: d },
            ]
            &&& n != "entity_resource"@ && names.contains(n) ==> plan(insert, names) == seq![
                ActionModel::InsertComponent { target: TargetModel::Named(n), component_type: t, data: d },
            ]
            &&& n != "entity_resource"@ && !names.contains(n) ==> plan(insert, names) == seq![
                ActionModel::MissingEntity { entity_name: n },
            ]
        }),
        ({
            let spawn = MessageModel::EntitySpawn { entity_name: n, is_renderable, is_on_gui };
            &&& (n == "floor"@ || n == "gloss_camera"@) ==> plan(spawn, names) == Seq::<ActionModel>::empty()
            &&& n != "floor"@ && n != "gloss_camera"@ && names.contains(n) ==> plan(spawn, names) == seq![
                ActionModel::SkipExistingEntity { entity_name: n },
            ]
            &&& n != "floor"@ && n != "gloss_camera"@ && !names.contains(n) ==> plan(spawn, names) == seq![
                ActionModel::Spawn { entity_name: n, is_renderable, is_on_gui },
            ]
        }),
{
}

/// A frame breaks the sequence unless it is numbered 0 or follows the last
/// frame processed: a frame numbered `seq > 0` after frame `last` other than
/// `last + 1`, a jump back as much as one ahead, is reported with `last + 1`
/// as the number expected.
pub proof fn law_breaks_in_the_sequence_are_reported(last: u64, seq: u64)
    ensures
        seq == 0 ==> sequence_gap(last, seq) is None,
        seq == last + 1 ==> sequence_gap(last, seq) is None,
        0 < seq < last + 1 ==> sequence_gap(last, seq) == Some((last + 1) as u64),
        last + 1 < seq ==> sequence_gap(last, seq) == Some((last + 1) as u64),
        0 < seq <= last < u64::MAX ==> (sequence_gap(last, seq) matches Some(e) && e == last + 1 && seq < e),
{
}

} // verus!
