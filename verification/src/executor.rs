use vstd::prelude::*;
use crate::action::{action_views, frame_views, Action, ActionView};
use crate::batch::{
    fresh_entry, queued_entry, BatchManager, BatchManagerView, BatchResult,
};
use crate::codec::{encode_v2, message_field_u8, parse_mavlink_message};
use crate::frame::{parse_header_v1_spec, parse_header_v2_spec, Header};
use crate::table::{key_index_of, key_lookup};

verus! {

/// Where delivered frames go: the single router connection, or every
/// connected ground station.
#[derive(Clone, Copy, PartialEq, Eq, Structural, Debug)]
pub enum SinkKind {
    Router,
    Broadcast,
}

/// A timeout the caller must arm for a batch created during execution.
pub struct TimerRequest {
    /// Batch key the timeout belongs to.
    pub key: String,
    /// Identity of the batch the timeout may release or drop.
    pub generation: u64,
    /// Seconds until the timeout fires.
    pub timeout_seconds: u64,
}

/// Where one run of the action list ended.
pub enum ExecOutcome {
    /// Write these frames to the sink, in order.
    Delivered { frames: Vec<Vec<u8>> },
    /// A block step dropped the frames; nothing is written.
    Blocked,
    /// A delay step: after `seconds`, run `remaining` on `frames` again.
    Delayed { seconds: u64, remaining: Vec<Action>, frames: Vec<Vec<u8>> },
    /// A batch step queued the first frame; when `timer` is set, the caller
    /// arms that timeout.
    Queued { timer: Option<TimerRequest> },
}

/// Index of the first step that is not a plain forward, if any.
pub open spec fn first_non_forward(s: Seq<ActionView>) -> Option<int>
    decreases s.len(),
{
    if s.len() == 0 {
        None
    } else if !(s[0] is Forward) {
        Some(0int)
    } else {
        match first_non_forward(s.drop_first()) {
            Some(j) => Some(j + 1),
            None => None,
        }
    }
}

pub proof fn lemma_first_non_forward(s: Seq<ActionView>)
    ensures
        match first_non_forward(s) {
            Some(j) => 0 <= j < s.len() && !(s[j] is Forward) && forall|l: int|
                0 <= l < j ==> (#[trigger] s[l]) is Forward,
            None => forall|l: int| 0 <= l < s.len() ==> (#[trigger] s[l]) is Forward,
        },
    decreases s.len(),
{
    if s.len() > 0 && s[0] is Forward {
        let rest = s.drop_first();
        lemma_first_non_forward(rest);
        match first_non_forward(rest) {
            Some(j2) => {
                assert(rest[j2] == s[j2 + 1]);
                assert forall|l: int| 0 <= l < j2 + 1 implies (#[trigger] s[l]) is Forward by {
                    if l > 0 {
                        assert(rest[l - 1] == s[l]);
                    }
                }
            },
            None => {
                assert forall|l: int| 0 <= l < s.len() implies (#[trigger] s[l]) is Forward by {
                    if l > 0 {
                        assert(rest[l - 1] == s[l]);
                    }
                }
            },
        }
    }
}

/// The first step that is not a plain forward; callers use it only where one
/// exists.
pub open spec fn first_effective_step(s: Seq<ActionView>) -> ActionView {
    match first_non_forward(s) {
        Some(j) => s[j],
        None => ActionView::Forward,
    }
}

} // verus!

verus! {

/// Run an action list over a set of frames, left to right: forwards pass
/// the frames on, a block drops them, a modify re-encodes each frame with
/// the prepared message (keeping any frame that fails to parse), a delay
/// suspends with the rest of the list, and a batch hands the first frame to
/// the aggregator and either stops or goes on with what a release returned.
/// A batch step on the broadcast side is downgraded to a forward.
///
/// The whole run satisfies the `exec_post` relation; on top of that the
/// plain paths are pinned directly: a list of forwards delivers the
/// identical frames; a list whose first effective step is a block stops
/// with nothing written; one whose first effective step is a delay suspends
/// with the untouched frames and the rest of the list.
pub fn execute_actions(
    actions: Vec<Action>,
    frames: Vec<Vec<u8>>,
    sink: SinkKind,
    batch: &mut BatchManager,
) -> (r: ExecOutcome)
    requires
        old(batch).wf(),
        frames@.len() > 0,
    ensures
        final(batch).wf(),
        exec_post(
            action_views(actions@),
            frame_views(frames@),
            sink,
            old(batch)@,
            final(batch)@,
            r,
        ),
        match first_non_forward(action_views(actions@)) {
            None => {
                &&& r matches ExecOutcome::Delivered { frames: out } && frame_views(out@)
                    == frame_views(frames@)
                &&& final(batch)@ == old(batch)@
            },
            Some(k) => match action_views(actions@)[k] {
                ActionView::Block => {
                    &&& r is Blocked
                    &&& final(batch)@ == old(batch)@
                },
                ActionView::Delay(d) => {
                    &&& r matches ExecOutcome::Delayed { seconds, remaining, frames: fr }
                        && seconds == d && action_views(remaining@) == action_views(
                        actions@,
                    ).skip(k + 1) && frame_views(fr@) == frame_views(frames@)
                    &&& final(batch)@ == old(batch)@
                },
                _ => true,
            },
        },
{
    let ghost orig_actions = action_views(actions@);
    let ghost orig_frames = frame_views(frames@);
    let ghost orig_batch = old(batch)@;
    proof {
        lemma_first_non_forward(orig_actions);
    }
    let mut actions = actions;
    let mut frames = frames;
    let ghost mut consumed: int = 0;
    let mut pristine: Ghost<bool> = Ghost(true);
    while actions.len() > 0
        invariant
            batch.wf(),
            frames@.len() > 0,
            forall|bf: BatchManagerView, rr: ExecOutcome|
                #[trigger] exec_post(
                    action_views(actions@),
                    frame_views(frames@),
                    sink,
                    batch@,
                    bf,
                    rr,
                ) ==> exec_post(orig_actions, orig_frames, sink, orig_batch, bf, rr),
            pristine@ ==> {
                &&& 0 <= consumed <= orig_actions.len()
                &&& action_views(actions@) == orig_actions.skip(consumed)
                &&& frame_views(frames@) == orig_frames
                &&& batch@ == orig_batch
                &&& forall|l: int| 0 <= l < consumed ==> (#[trigger] orig_actions[l]) is Forward
            },
            !pristine@ ==> (first_non_forward(orig_actions) matches Some(k) && (
            orig_actions[k] is Modify || orig_actions[k] is Batch)),
        decreases batch@.entries.len(), actions@.len(),
    {
        let ghost acts_before = action_views(actions@);
        let ghost fv_entry = frame_views(frames@);
        let ghost batch_entry = batch@;
        let step = actions.remove(0);
        proof {
            assert(acts_before[0] == step@);
            assert(action_views(actions@) =~= acts_before.drop_first());
        }
        match step {
            Action::Forward => {
                proof {
                    assert forall|bf: BatchManagerView, rr: ExecOutcome|
                        #[trigger] exec_post(
                            action_views(actions@),
                            frame_views(frames@),
                            sink,
                            batch@,
                            bf,
                            rr,
                        ) implies exec_post(orig_actions, orig_frames, sink, orig_batch, bf, rr)
                        by {
                        assert(exec_post(acts_before, fv_entry, sink, batch_entry, bf, rr));
                    }
                    if pristine@ {
                        assert(orig_actions[consumed] is Forward);
                        assert(orig_actions.skip(consumed).drop_first() =~= orig_actions.skip(
                            consumed + 1,
                        ));
                        consumed = consumed + 1;
                    }
                }
            },
            Action::Block => {
                proof {
                    assert(exec_post(
                        acts_before,
                        fv_entry,
                        sink,
                        batch_entry,
                        batch@,
                        ExecOutcome::Blocked,
                    ));
                    if pristine@ {
                        assert(first_non_forward(orig_actions) == Some(consumed)) by {
                            lemma_first_non_forward_of(orig_actions, consumed);
                        }
                    }
                }
                return ExecOutcome::Blocked;
            },
            Action::Delay(seconds) => {
                proof {
                    if pristine@ {
                        assert(first_non_forward(orig_actions) == Some(consumed)) by {
                            lemma_first_non_forward_of(orig_actions, consumed);
                        }
                        assert(orig_actions.skip(consumed).drop_first() =~= orig_actions.skip(
                            consumed + 1,
                        ));
                    }
                }
                let out = ExecOutcome::Delayed { seconds, remaining: actions, frames };
                proof {
                    assert(exec_post(acts_before, fv_entry, sink, batch_entry, batch@, out));
                }
                return out;
            },
            Action::Modify { modifier: _, modified_message } => {
                proof {
                    if pristine@ {
                        lemma_first_non_forward_of(orig_actions, consumed);
                    }
                }
                pristine = Ghost(false);
                match modified_message {
                    Some(msg) => {
                        let mut new_frames: Vec<Vec<u8>> = Vec::new();
                        let total = frames.len();
                        while frames.len() > 0
                            invariant
                                new_frames@.len() + frames@.len() == total,
                                total == fv_entry.len(),
                                forall|l: int|
                                    0 <= l < frames@.len() ==> #[trigger] frames@[l]@ == fv_entry[
                                    new_frames@.len() + l],
                                forall|i: int|
                                    0 <= i < new_frames@.len() ==> #[trigger] new_frames@[i]@
                                        == fv_entry[i] || reencoding_of(
                                        fv_entry[i],
                                        new_frames@[i]@,
                                    ),
                            decreases frames@.len(),
                        {
                            let ghost taken = new_frames@.len() as int;
                            let f = frames.remove(0);
                            proof {
                                assert(f@ == fv_entry[taken]);
                                assert forall|l: int|
                                    0 <= l < frames@.len() implies #[trigger] frames@[l]@
                                    == fv_entry[new_frames@.len() + 1 + l] by {}
                            }
                            match parse_mavlink_message(&f) {
                                Ok((h, _orig)) => {
                                    proof {
                                        assert(frame_header_of(f@) == Some(h));
                                    }
                                    match encode_v2(&h, &msg) {
                                        Some(buf) => {
                                            proof {
                                                assert(reencoding_of(f@, buf@));
                                            }
                                            new_frames.push(buf);
                                        },
                                        None => {
                                            proof {
                                                assert(false);
                                            }
                                            new_frames.push(f);
                                        },
                                    }
                                },
                                Err(_) => {
                                    new_frames.push(f);
                                },
                            }
                        }
                        frames = new_frames;
                        proof {
                            assert(modified_frame_list(fv_entry, frame_views(frames@))) by {
                                assert forall|i: int|
                                    0 <= i < fv_entry.len() implies #[trigger] frame_views(
                                    frames@,
                                )[i] == fv_entry[i] || reencoding_of(
                                    fv_entry[i],
                                    frame_views(frames@)[i],
                                ) by {
                                    assert(frame_views(frames@)[i] == frames@[i]@);
                                }
                            }
                        }
                    },
                    None => {},
                }
                proof {
                    assert forall|bf: BatchManagerView, rr: ExecOutcome|
                        #[trigger] exec_post(
                            action_views(actions@),
                            frame_views(frames@),
                            sink,
                            batch@,
                            bf,
                            rr,
                        ) implies exec_post(orig_actions, orig_frames, sink, orig_batch, bf, rr)
                        by {
                        if step@ matches ActionView::Modify { modified_message: Some(_), .. } {
                            assert(modified_frame_list(fv_entry, frame_views(frames@)));
                        }
                        assert(exec_post(acts_before, fv_entry, sink, batch_entry, bf, rr));
                    }
                }
            },
            Action::Batch { count, timeout_seconds, key, forward_on_timeout, system_id_field } => {
                proof {
                    if pristine@ {
                        lemma_first_non_forward_of(orig_actions, consumed);
                    }
                }
                pristine = Ghost(false);
                match sink {
                    SinkKind::Broadcast => {
                        // not meaningful towards the ground stations: forward
                        proof {
                            assert forall|bf: BatchManagerView, rr: ExecOutcome|
                                #[trigger] exec_post(
                                    action_views(actions@),
                                    frame_views(frames@),
                                    sink,
                                    batch@,
                                    bf,
                                    rr,
                                ) implies exec_post(
                                orig_actions,
                                orig_frames,
                                sink,
                                orig_batch,
                                bf,
                                rr,
                            ) by {
                                assert(batch_arm_post(
                                    acts_before[0],
                                    acts_before.drop_first(),
                                    fv_entry,
                                    sink,
                                    batch_entry,
                                    bf,
                                    rr,
                                ));
                                assert(exec_post(acts_before, fv_entry, sink, batch_entry, bf, rr));
                            }
                        }
                    },
                    SinkKind::Router => {
                        if batch.at_capacity() {
                            // no identities left: forward rather than batch
                            proof {
                                assert forall|bf: BatchManagerView, rr: ExecOutcome|
                                    #[trigger] exec_post(
                                        action_views(actions@),
                                        frame_views(frames@),
                                        sink,
                                        batch@,
                                        bf,
                                        rr,
                                    ) implies exec_post(
                                    orig_actions,
                                    orig_frames,
                                    sink,
                                    orig_batch,
                                    bf,
                                    rr,
                                ) by {
                                    assert(batch_arm_post(
                                        acts_before[0],
                                        acts_before.drop_first(),
                                        fv_entry,
                                        sink,
                                        batch_entry,
                                        bf,
                                        rr,
                                    ));
                                    assert(exec_post(
                                        acts_before,
                                        fv_entry,
                                        sink,
                                        batch_entry,
                                        bf,
                                        rr,
                                    ));
                                }
                            }
                        } else {
                            let packet = frames.remove(0);
                            proof {
                                assert(packet@ == fv_entry[0]);
                            }
                            let system_id: u8 = match parse_mavlink_message(&packet) {
                                Ok((h, m)) => match &system_id_field {
                                    Some(f) => match message_field_u8(&m, f.as_str()) {
                                        Some(s) => s,
                                        None => h.system_id,
                                    },
                                    None => h.system_id,
                                },
                                Err(_) => 0,
                            };
                            let ghost pre = batch@;
                            let ghost passed_len = actions@.len();
                            let (result, timer_gen) = batch.queue_or_release(
                                key.as_str(),
                                system_id,
                                packet,
                                count,
                                forward_on_timeout,
                                actions,
                            );
                            match result {
                                BatchResult::Queued => {
                                    let timer = match timer_gen {
                                        Some(generation) => Some(
                                            TimerRequest { key, generation, timeout_seconds },
                                        ),
                                        None => None,
                                    };
                                    let out = ExecOutcome::Queued { timer };
                                    proof {
                                        assert(chosen_source(system_id));
                                        assert(batch_step_post(
                                            acts_before[0]->Batch_count,
                                            acts_before[0]->Batch_timeout_seconds,
                                            acts_before[0]->Batch_key,
                                            acts_before[0]->Batch_forward_on_timeout,
                                            system_id,
                                            acts_before.drop_first(),
                                            fv_entry[0],
                                            sink,
                                            batch_entry,
                                            batch@,
                                            out,
                                        ));
                                        assert(batch_arm_post(
                                            acts_before[0],
                                            acts_before.drop_first(),
                                            fv_entry,
                                            sink,
                                            batch_entry,
                                            batch@,
                                            out,
                                        ));
                                        assert(exec_post(
                                            acts_before,
                                            fv_entry,
                                            sink,
                                            batch_entry,
                                            batch@,
                                            out,
                                        ));
                                    }
                                    return out;
                                },
                                BatchResult::Release { packets, remaining_actions } => {
                                    proof {
                                        assert(frame_views(packets@).len() > 0);
                                        crate::table::lemma_first_key_index(pre.entries, step@->Batch_key);
                                        match crate::table::key_lookup(pre.entries, step@->Batch_key) {
                                            Some(_e) => {
                                                assert(batch@.entries.len() < pre.entries.len());
                                            },
                                            None => {
                                                assert(batch@.entries == pre.entries);
                                                assert(action_views(remaining_actions@).len()
                                                    == passed_len);
                                                assert(passed_len < acts_before.len());
                                            },
                                        }
                                        assert forall|bf: BatchManagerView, rr: ExecOutcome|
                                            #[trigger] exec_post(
                                                action_views(remaining_actions@),
                                                frame_views(packets@),
                                                sink,
                                                batch@,
                                                bf,
                                                rr,
                                            ) implies exec_post(
                                            orig_actions,
                                            orig_frames,
                                            sink,
                                            orig_batch,
                                            bf,
                                            rr,
                                        ) by {
                                            match crate::table::key_lookup(
                                                pre.entries,
                                                step@->Batch_key,
                                            ) {
                                                Some(_e) => {
                                                    assert(batch@ =~= BatchManagerView {
                                                        entries: pre.entries.remove(
                                                            key_index_of(
                                                                pre.entries,
                                                                step@->Batch_key,
                                                            ),
                                                        ),
                                                        next_generation: pre.next_generation,
                                                    });
                                                },
                                                None => {
                                                    assert(frame_views(packets@) =~= seq![
                                                        fv_entry[0],
                                                    ]);
                                                    assert(batch@ =~= BatchManagerView {
                                                        entries: pre.entries,
                                                        next_generation: (pre.next_generation
                                                            + 1) as u64,
                                                    });
                                                },
                                            }
                                            assert(chosen_source(system_id));
                                            assert(batch_step_post(
                                                acts_before[0]->Batch_count,
                                                acts_before[0]->Batch_timeout_seconds,
                                                acts_before[0]->Batch_key,
                                                acts_before[0]->Batch_forward_on_timeout,
                                                system_id,
                                                acts_before.drop_first(),
                                                fv_entry[0],
                                                sink,
                                                batch_entry,
                                                bf,
                                                rr,
                                            ));
                                            assert(batch_arm_post(
                                                acts_before[0],
                                                acts_before.drop_first(),
                                                fv_entry,
                                                sink,
                                                batch_entry,
                                                bf,
                                                rr,
                                            ));
                                            assert(exec_post(
                                                acts_before,
                                                fv_entry,
                                                sink,
                                                batch_entry,
                                                bf,
                                                rr,
                                            ));
                                        }
                                    }
                                    actions = remaining_actions;
                                    frames = packets;
                                    continue ;
                                },
                            }
                        }
                    },
                }
            },
        }
    }
    proof {
        if pristine@ {
            assert(orig_actions.skip(consumed).len() == 0);
            assert(consumed == orig_actions.len());
            lemma_first_non_forward_none(orig_actions);
        }
    }
    let out = ExecOutcome::Delivered { frames };
    proof {
        assert(action_views(actions@).len() == 0);
        assert(out matches ExecOutcome::Delivered { frames: fr } && frame_views(fr@)
            == frame_views(frames@));
        assert(exec_post(
            action_views(actions@),
            frame_views(frames@),
            sink,
            batch@,
            batch@,
            out,
        ));
    }
    out
}

/// The first non-forward index is the position whose earlier steps all
/// forward.
proof fn lemma_first_non_forward_of(s: Seq<ActionView>, j: int)
    requires
        0 <= j < s.len(),
        !(s[j] is Forward),
        forall|l: int| 0 <= l < j ==> (#[trigger] s[l]) is Forward,
    ensures
        first_non_forward(s) == Some(j),
{
    lemma_first_non_forward(s);
    match first_non_forward(s) {
        Some(t) => {
            if t < j {
                assert(s[t] is Forward);
            } else if t > j {
                assert(s[j] is Forward);
            }
        },
        None => {
            assert(s[j] is Forward);
        },
    }
}

/// A list of forwards has no effective step.
proof fn lemma_first_non_forward_none(s: Seq<ActionView>)
    requires
        forall|l: int| 0 <= l < s.len() ==> (#[trigger] s[l]) is Forward,
    ensures
        first_non_forward(s) is None,
{
    lemma_first_non_forward(s);
    match first_non_forward(s) {
        Some(t) => {
            assert(s[t] is Forward);
        },
        None => {},
    }
}

} // verus!

verus! {

/// A packet no enabled rule matches passes through byte-identical: the
/// engine answers such a packet with the single forward step, and a run of
/// that list has no effective step, so `execute_actions` delivers exactly
/// the frames it was given and leaves the aggregator untouched.
pub proof fn lemma_unmatched_frame_passes_through(actions: Seq<ActionView>)
    requires
        actions == seq![ActionView::Forward],
    ensures
        first_non_forward(actions) is None,
{
    assert(actions[0] is Forward);
    assert(actions.drop_first() =~= Seq::<ActionView>::empty());
    assert(first_non_forward(Seq::<ActionView>::empty()) is None);
}

} // verus!

verus! {

/// The header the frame bytes carry: version 2 read first, version 1
/// otherwise.
pub open spec fn frame_header_of(b: Seq<u8>) -> Option<Header> {
    match parse_header_v2_spec(b) {
        Some(p) => Some(p.0),
        None => match parse_header_v1_spec(b) {
            Some(p) => Some(p.0),
            None => None,
        },
    }
}

/// Whether `out` can be the re-encoding of `orig` with a prepared message:
/// a version-2 frame carrying the header the original bytes carry.
pub open spec fn reencoding_of(orig: Seq<u8>, out: Seq<u8>) -> bool {
    frame_header_of(orig) matches Some(h) && (parse_header_v2_spec(out) matches Some(p) && p.0
        == h)
}

/// What a modify step leaves of a frame list: as many frames, in order, each
/// the original or a re-encoding that carries the original's header.
pub open spec fn modified_frame_list(orig: Seq<Seq<u8>>, out: Seq<Seq<u8>>) -> bool {
    &&& out.len() == orig.len()
    &&& forall|i: int|
        0 <= i < orig.len() ==> #[trigger] out[i] == orig[i] || reencoding_of(orig[i], out[i])
}

/// Everything one run of the action list may do, as a relation from the
/// starting list, frames and aggregator model `b0` to the final aggregator
/// model `b1` and the outcome `r`.  Forwards pass the frames on unchanged; a
/// block stops with the aggregator untouched; a delay suspends with the rest
/// of the list and the untouched frames; a modify goes on with a frame list
/// of equal length whose frames are originals or re-encodings; a batch on
/// the broadcast side goes on as a forward, and on the router side hands the
/// first frame to the aggregator and continues per `batch_step_post`.
pub open spec fn exec_post(
    actions: Seq<ActionView>,
    frames: Seq<Seq<u8>>,
    sink: SinkKind,
    b0: BatchManagerView,
    b1: BatchManagerView,
    r: ExecOutcome,
) -> bool
    decreases b0.entries.len(), actions.len(), 0int,
{
    if actions.len() == 0 {
        &&& r matches ExecOutcome::Delivered { frames: out } && frame_views(out@) == frames
        &&& b1 == b0
    } else {
        match actions[0] {
            ActionView::Forward => exec_post(actions.drop_first(), frames, sink, b0, b1, r),
            ActionView::Block => r is Blocked && b1 == b0,
            ActionView::Delay(d) => {
                &&& r matches ExecOutcome::Delayed { seconds, remaining, frames: fr } && seconds
                    == d && action_views(remaining@) == actions.drop_first() && frame_views(fr@)
                    == frames
                &&& b1 == b0
            },
            ActionView::Modify { modified_message, .. } => match modified_message {
                Some(_) => exists|fr2: Seq<Seq<u8>>|
                    #[trigger] modified_frame_list(frames, fr2) && exec_post(
                        actions.drop_first(),
                        fr2,
                        sink,
                        b0,
                        b1,
                        r,
                    ),
                None => exec_post(actions.drop_first(), frames, sink, b0, b1, r),
            },
            ActionView::Batch { .. } => batch_arm_post(
                actions[0],
                actions.drop_first(),
                frames,
                sink,
                b0,
                b1,
                r,
            ),
        }
    }
}

/// Names the source system a batch step read from its frame; the handle by
/// which that choice is quantified.
pub open spec fn chosen_source(sid: u8) -> bool {
    true
}

/// What a batch step at the head of the list does: towards the ground
/// stations, or once every batch identity is used up, it acts as a forward;
/// towards the router it hands the first frame to the aggregator for some
/// source system read from that frame.
pub open spec fn batch_arm_post(
    a0: ActionView,
    tail: Seq<ActionView>,
    frames: Seq<Seq<u8>>,
    sink: SinkKind,
    b0: BatchManagerView,
    b1: BatchManagerView,
    r: ExecOutcome,
) -> bool
    decreases b0.entries.len(), tail.len(), 2int,
{
    match sink {
        SinkKind::Broadcast => exec_post(tail, frames, sink, b0, b1, r),
        SinkKind::Router => if b0.next_generation == u64::MAX {
            exec_post(tail, frames, sink, b0, b1, r)
        } else {
            exists|sid: u8|
                #[trigger] chosen_source(sid) && batch_step_post(
                    a0->Batch_count,
                    a0->Batch_timeout_seconds,
                    a0->Batch_key,
                    a0->Batch_forward_on_timeout,
                    sid,
                    tail,
                    frames[0],
                    sink,
                    b0,
                    b1,
                    r,
                )
        },
    }
}

/// What a batch step does with the first frame, for the source system `sid`
/// the step read from it: a fresh batch queues it (or releases it at once
/// when the threshold asks for at most one source), an existing batch under
/// the key grows by it and releases when its threshold is met; releases go
/// on with the released packets and the stored tail.
pub open spec fn batch_step_post(
    count: int,
    timeout_seconds: u64,
    key: Seq<char>,
    forward_on_timeout: bool,
    sid: u8,
    tail: Seq<ActionView>,
    packet: Seq<u8>,
    sink: SinkKind,
    b0: BatchManagerView,
    b1: BatchManagerView,
    r: ExecOutcome,
) -> bool
    decreases b0.entries.len(), tail.len(), 1int,
{
    match key_lookup(b0.entries, key) {
        None => {
            if count <= 1 {
                let mid = BatchManagerView {
                    entries: b0.entries,
                    next_generation: (b0.next_generation + 1) as u64,
                };
                exec_post(tail, seq![packet], sink, mid, b1, r)
            } else {
                let e0 = fresh_entry(packet, sid, count, forward_on_timeout, tail, b0.next_generation);
                &&& b1 == BatchManagerView {
                    entries: b0.entries.push((key, e0)),
                    next_generation: (b0.next_generation + 1) as u64,
                }
                &&& r matches ExecOutcome::Queued { timer: Some(t) } && t.key@ == key
                    && t.generation == b0.next_generation && t.timeout_seconds == timeout_seconds
            }
        },
        Some(e) => {
            let e2 = queued_entry(e, packet, sid);
            let j = key_index_of(b0.entries, key);
            if e2.systems.len() >= e.threshold {
                proof {
                    crate::table::lemma_first_key_index(b0.entries, key);
                }
                let mid = BatchManagerView {
                    entries: b0.entries.remove(j),
                    next_generation: b0.next_generation,
                };
                exec_post(e.remaining_actions, e2.packets, sink, mid, b1, r)
            } else {
                &&& b1 == BatchManagerView {
                    entries: b0.entries.update(j, (key, e2)),
                    next_generation: b0.next_generation,
                }
                &&& r matches ExecOutcome::Queued { timer: None }
            }
        },
    }
}

} // verus!

