//! The action-dispatch trampoline.
//!
//! Input events and action side effects propagate through a composite
//! tree of widgets: the drives, the new-drive control and the panels as
//! leaves, the orchestrator as root. Actions are processed as a work
//! list, not by recursion through the render tree: each action is
//! offered first to the node that produced it, then to its ancestors up
//! to the root, stopping at the first node that handles it; every
//! action emitted during handling joins the back of the work list and
//! is processed before dispatch completes. Dispatch is lossless: no
//! action is dropped and none is applied twice.

use vstd::prelude::*;

verus! {

use crate::action::Action;
use crate::action::Outcomes;
use crate::action::PisoError;
use crate::piso::PIso;

/// A node of the widget tree. The leaves' own menu behaviour lives with
/// the display collaborators; within the core they decline every action
/// and the root applies the side effects.
#[derive(Debug, Clone, Copy, PartialEq, Eq)]
pub enum WidgetId {
    Drive(usize),
    NewDriveControl,
    NetworkPanel,
    OptionsPanel,
    StatusPanel,
    Root,
}

/// What one dispatch run did: the actions handled, in the order they
/// were offered, and the error that aborted the run, if one did.
#[derive(Debug)]
pub struct DispatchReport {
    pub handled_log: Vec<Action>,
    pub error: Option<PisoError>,
}

/// The run of a dispatch, step by step: the orchestrator states it
/// passed through — one more than the actions handled — and what each
/// handled action emitted. `states[i]` and `states[i + 1]` are the
/// states around the handling of the i-th logged action.
pub ghost struct DispatchTrace {
    pub states: Seq<PIso>,
    pub emissions: Seq<Seq<Action>>,
}

/// The combined rank of the actions of a work-list tail: how many of
/// them can still emit follow-up actions. The trampoline's termination
/// measure.
pub open spec fn rank_sum(q: Seq<Action>) -> nat
    decreases q.len(),
{
    if q.len() == 0 {
        0
    } else {
        q[0].rank() + rank_sum(q.skip(1))
    }
}

pub proof fn lemma_rank_sum_concat(p: Seq<Action>, q: Seq<Action>)
    ensures
        rank_sum(p + q) == rank_sum(p) + rank_sum(q),
    decreases p.len(),
{
    if p.len() == 0 {
        assert(p + q =~= q);
    } else {
        lemma_rank_sum_concat(p.skip(1), q);
        assert((p + q).skip(1) =~= p.skip(1) + q);
    }
}

pub proof fn lemma_rank_sum_zero(q: Seq<Action>)
    requires
        forall|i: int| 0 <= i < q.len() ==> (#[trigger] q[i]).rank() == 0,
    ensures
        rank_sum(q) == 0,
    decreases q.len(),
{
    if q.len() > 0 {
        lemma_rank_sum_zero(q.skip(1));
    }
}

/// Offers one action to a leaf widget. The leaves' action handling is
/// part of the display collaborators, outside the core: here every leaf
/// declines, and propagation continues toward the root.
pub fn offer_to_leaf(widget: WidgetId, action: &Action) -> (r: (bool, Vec<Action>))
    ensures
        r.0 == false,
        r.1@.len() == 0,
{
    match widget {
        _ => (false, Vec::new()),
    }
}

impl PIso {
    /// Runs the dispatch trampoline over the actions one input event
    /// produced. Each action is offered to its producer, then to the
    /// root; follow-up actions join the back of the queue.
    ///
    /// Dispatch is lossless, and the contract pins the whole run down
    /// through the returned ghost trace. Its state chain starts at the
    /// state before the run, each handled action carries the exact
    /// per-action transition (`action_post`, with `Ok` and its
    /// emissions), and:
    /// - without an error, the chain ends in the final state and the
    ///   handled log is exactly the initial actions followed by every
    ///   emitted action, in order — so every action the event produced,
    ///   and every follow-up a handler enqueued, was offered and
    ///   applied before dispatch completed;
    /// - with an error, the log is the handled prefix, and the failing
    ///   action — the next one of the work list — carries the exact
    ///   per-action failure transition from the chain's last state to
    ///   the final state.
    pub fn dispatch(&mut self, producer: WidgetId, initial: Vec<Action>, out: Outcomes) -> (r: (
        DispatchReport,
        Ghost<DispatchTrace>,
    ))
        requires
            old(self).wf(),
        ensures
            final(self).wf(),
            final(self).has_wifi == old(self).has_wifi,
            final(self).sort_drives == old(self).sort_drives,
            old(self).store.never_deleted_exposed() ==> final(self).store.never_deleted_exposed(),
            r.1@.states.len() == r.0.handled_log@.len() + 1,
            r.1@.emissions.len() == r.0.handled_log@.len(),
            r.1@.states[0] == *old(self),
            forall|i: int|
                0 <= i < r.0.handled_log@.len() ==> Self::action_post(
                    r.1@.states[i],
                    r.1@.states[i + 1],
                    #[trigger] r.0.handled_log@[i],
                    out,
                    Ok(r.1@.emissions[i]),
                ),
            (r.0.error is None ==> r.1@.states.last() == *final(self) && r.0.handled_log@
                == initial@ + r.1@.emissions.flatten()),
            (r.0.error matches Some(e) ==> r.0.handled_log@.len() < initial@.len()
                + r.1@.emissions.flatten().len() && Self::action_post(
                r.1@.states.last(),
                *final(self),
                (initial@ + r.1@.emissions.flatten())[r.0.handled_log@.len() as int],
                out,
                Err(e),
            )),
            r.0.handled_log@.len() <= initial@.len() + r.1@.emissions.flatten().len(),
            r.0.handled_log@ == (initial@ + r.1@.emissions.flatten()).take(
                r.0.handled_log@.len() as int,
            ),
    {
        let mut queue: Vec<(WidgetId, Action)> = Vec::new();
        let mut rest = initial;
        while rest.len() > 0
            invariant
                queue@.map_values(|p: (WidgetId, Action)| p.1) + rest@ == initial@,
            decreases rest@.len(),
        {
            let a = rest.remove(0);
            queue.push((producer, a));
            proof {
                assert(queue@.map_values(|p: (WidgetId, Action)| p.1) + rest@ =~= initial@);
            }
        }
        proof {
            assert(queue@.map_values(|p: (WidgetId, Action)| p.1) =~= initial@);
        }
        let mut log: Vec<Action> = Vec::new();
        let ghost mut emitted: Seq<Action> = Seq::empty();
        let ghost mut states: Seq<PIso> = seq![*old(self)];
        let ghost mut emissions: Seq<Seq<Action>> = Seq::empty();
        proof {
            assert(emissions.flatten() =~= emitted);
        }
        loop
            invariant
                self.wf(),
                self.has_wifi == old(self).has_wifi,
                self.sort_drives == old(self).sort_drives,
                old(self).store.never_deleted_exposed() ==> self.store.never_deleted_exposed(),
                log@ + queue@.map_values(|p: (WidgetId, Action)| p.1) == initial@ + emitted,
                states.len() == log@.len() + 1,
                states[0] == *old(self),
                states.last() == *self,
                emissions.len() == log@.len(),
                emitted == emissions.flatten(),
                forall|i: int|
                    0 <= i < log@.len() ==> Self::action_post(
                        states[i],
                        states[i + 1],
                        #[trigger] log@[i],
                        out,
                        Ok(emissions[i]),
                    ),
            decreases rank_sum(queue@.map_values(|p: (WidgetId, Action)| p.1)), queue@.len(),
        {
            if queue.len() == 0 {
                proof {
                    assert(queue@.map_values(|p: (WidgetId, Action)| p.1) =~= Seq::<
                        Action,
                    >::empty());
                    assert(log@ =~= initial@ + emitted);
                    assert((initial@ + emitted).take(log@.len() as int) =~= log@);
                }
                return (
                    DispatchReport { handled_log: log, error: None },
                    Ghost(DispatchTrace { states, emissions }),
                );
            }
            let ghost q_pre = queue@.map_values(|p: (WidgetId, Action)| p.1);
            let (producer_w, act) = queue.remove(0);
            let (leaf_handled, leaf_acts) = offer_to_leaf(producer_w, &act);
            let ghost s_before = *self;
            let handled_acts: Vec<Action>;
            if leaf_handled {
                handled_acts = leaf_acts;
            } else {
                match self.do_action(&act, out) {
                    Ok((_h, acts)) => {
                        handled_acts = acts;
                    },
                    Err(e) => {
                        proof {
                            assert(log@ + q_pre == initial@ + emitted);
                            assert((log@ + q_pre).len() == log@.len() + q_pre.len());
                            assert((initial@ + emitted).len() == initial@.len() + emitted.len());
                            assert((initial@ + emitted).take(log@.len() as int) =~= log@);
                            assert(q_pre[0] == act);
                            assert((initial@ + emitted)[log@.len() as int] == act);
                        }
                        return (
                            DispatchReport { handled_log: log, error: Some(e) },
                            Ghost(DispatchTrace { states, emissions }),
                        );
                    },
                }
            }
            let ghost emitted_now = handled_acts@;
            let ghost q_mid = queue@.map_values(|p: (WidgetId, Action)| p.1);
            let ghost em0 = emitted;
            proof {
                emitted = emitted + emitted_now;
            }
            let mut pending = handled_acts;
            while pending.len() > 0
                invariant
                    queue@.map_values(|p: (WidgetId, Action)| p.1) + pending@ == q_mid
                        + emitted_now,
                decreases pending@.len(),
            {
                let a2 = pending.remove(0);
                queue.push((WidgetId::Root, a2));
                proof {
                    assert(queue@.map_values(|p: (WidgetId, Action)| p.1) + pending@ =~= q_mid
                        + emitted_now);
                }
            }
            let ghost log_pre = log@;
            let ghost states_pre = states;
            let ghost emissions_pre = emissions;
            log.push(act);
            proof {
                let q_now = queue@.map_values(|p: (WidgetId, Action)| p.1);
                assert(q_now =~= q_mid + emitted_now);
                assert(q_pre =~= seq![act] + q_mid);
                assert(log@ =~= log_pre + seq![act]);
                assert(log_pre + q_pre == initial@ + em0);
                assert(log@ + q_now =~= (log_pre + q_pre) + emitted_now);
                assert((log_pre + q_pre) + emitted_now =~= initial@ + emitted);
                assert(log@ + q_now == initial@ + emitted);
                // extend the trace by this step
                states = states.push(*self);
                emissions = emissions.push(emitted_now);
                emissions_pre.lemma_flatten_push(emitted_now);
                assert(emitted =~= emissions.flatten());
                assert(states.last() == *self);
                assert forall|i: int| 0 <= i < log@.len() implies Self::action_post(
                    states[i],
                    states[i + 1],
                    #[trigger] log@[i],
                    out,
                    Ok(emissions[i]),
                ) by {
                    if i < log_pre.len() {
                        assert(log@[i] == log_pre[i]);
                        assert(states[i] == states_pre[i]);
                        assert(states[i + 1] == states_pre[i + 1]);
                        assert(emissions[i] == emissions_pre[i]);
                    } else {
                        assert(log@[i] == act);
                        assert(states[i] == states_pre.last());
                        assert(states_pre.last() == s_before);
                        assert(states[i + 1] == *self);
                        assert(emissions[i] == emitted_now);
                    }
                }
                // termination: a rank-one action may emit rank-zero
                // follow-ups only; a rank-zero action emits none
                assert forall|i: int| 0 <= i < emitted_now.len() implies (
                #[trigger] emitted_now[i]).rank() == 0 by {
                    assert(emitted_now[i].is_share());
                }
                lemma_rank_sum_zero(emitted_now);
                lemma_rank_sum_concat(q_mid, emitted_now);
                assert(rank_sum(q_pre) == act.rank() + rank_sum(q_mid)) by {
                    assert(q_pre[0] == act);
                    assert(q_pre.skip(1) =~= q_mid);
                }
                if act.rank() == 0 {
                    assert(emitted_now.len() == 0);
                    assert(q_now =~= q_mid);
                }
            }
        }
    }
}

} // verus!
