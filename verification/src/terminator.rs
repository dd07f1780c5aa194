//! A chain of stages that terminates supervised activities in the reverse
//! order of their creation.

use crate::id_map::{other_than, IdMap};
use crate::ids::Id;
use vstd::prelude::*;

verus! {

/// The state of termination.
#[derive(Debug, Clone, Copy, PartialEq, Eq, Structural)]
pub enum TerminationProgress {
    /// The owner needs more time to clean up everything.
    ShouldWaitMore,
    /// It is ready to stop now.
    SafeToStop,
}

/// The abstract state of a stage.
pub struct ChainStageView {
    /// The name of a named stage.
    pub name: Option<Seq<char>>,
    /// The shutdown signal was sent to the stage.
    pub terminating: bool,
    /// The owner stops when this stage is drained.
    pub vital: bool,
    /// The supervised activities, in the order they were added.
    pub supervised: Seq<Id>,
}

impl ChainStageView {
    /// No supervised activity is left.
    pub open spec fn is_drained(self) -> bool {
        self.supervised.len() == 0
    }

    /// The stage marked terminating.
    pub open spec fn terminated(self) -> ChainStageView {
        ChainStageView { terminating: true, ..self }
    }
}

/// The abstract state of a `Terminator`.
pub struct ChainView {
    /// The stages, in the order of their creation.
    pub stages: Seq<ChainStageView>,
    /// The stop signal was received (or a vital stage was drained).
    pub stop_signal_received: bool,
    /// The owner has to receive a stop signal before it may stop.
    pub need_stop_signal: bool,
}

/// Walks the stages from position `k - 1` down to the first: a stage that is
/// not terminating starts terminating (its activities are shut down); the
/// walk goes on past a stage only when that stage is drained, so it stops at
/// the first stage that still has activities, whether it was terminating
/// already or has just started. Returns the new stages and the activities to
/// shut down, in order.
pub open spec fn chain_walk(stages: Seq<ChainStageView>, k: int) -> (Seq<ChainStageView>, Seq<Id>)
    decreases k,
{
    if k <= 0 {
        (stages, Seq::empty())
    } else {
        let st = stages[k - 1];
        if st.terminating {
            if st.is_drained() {
                chain_walk(stages, k - 1)
            } else {
                (stages, Seq::empty())
            }
        } else {
            let stages2 = stages.update(k - 1, st.terminated());
            if st.is_drained() {
                chain_walk(stages2, k - 1)
            } else {
                (stages2, st.supervised)
            }
        }
    }
}

/// The position of the last stage (among the first `k`) that supervises `id`,
/// or `-1`.
pub open spec fn last_holder(stages: Seq<ChainStageView>, id: Id, k: int) -> int
    decreases k,
{
    if k <= 0 {
        -1
    } else if stages[k - 1].supervised.contains(id) {
        k - 1
    } else {
        last_holder(stages, id, k - 1)
    }
}

/// Every stage is drained.
pub open spec fn all_drained(stages: Seq<ChainStageView>) -> bool {
    forall|i: int| 0 <= i < stages.len() ==> (#[trigger] stages[i]).is_drained()
}

/// The chain after the finished child `id` was absorbed by the last stage
/// that supervises it; a vital stage drained by it counts as a stop signal.
pub open spec fn child_tracked(v: ChainView, id: Id) -> ChainView {
    let k = last_holder(v.stages, id, v.stages.len() as int);
    if k < 0 {
        v
    } else {
        let st = v.stages[k];
        let st2 = ChainStageView { supervised: st.supervised.filter(other_than(id)), ..st };
        ChainView {
            stages: v.stages.update(k, st2),
            stop_signal_received: v.stop_signal_received || (st2.vital && st2.is_drained()),
            ..v
        }
    }
}

/// The verdict of the chain: it is safe to stop when every stage is drained
/// and the stop signal was received or is not required.
pub open spec fn progress(v: ChainView) -> TerminationProgress {
    if all_drained(v.stages) && (!v.need_stop_signal || v.stop_signal_received) {
        TerminationProgress::SafeToStop
    } else {
        TerminationProgress::ShouldWaitMore
    }
}

/// A group of supervised activities that is terminated as a whole.
pub struct Stage {
    name: Option<String>,
    terminating: bool,
    supervised: IdMap<()>,
    vital: bool,
}

impl View for Stage {
    type V = ChainStageView;

    closed spec fn view(&self) -> ChainStageView {
        ChainStageView {
            name: match self.name {
                Some(n) => Some(n@),
                None => None,
            },
            terminating: self.terminating,
            vital: self.vital,
            supervised: self.supervised.key_seq(),
        }
    }
}

impl Stage {
    /// Well-formedness of the stage.
    pub closed spec fn wf(&self) -> bool {
        self.supervised.wf()
    }

    /// A new empty stage, not terminating and not vital.
    fn new(name: Option<String>) -> (s: Self)
        ensures
            s.wf(),
            s@ == (ChainStageView {
                name: match name {
                    Some(n) => Some(n@),
                    None => None,
                },
                terminating: false,
                vital: false,
                supervised: Seq::empty(),
            }),
    {
        let s = Stage { name, terminating: false, supervised: IdMap::new(), vital: false };
        proof {
            assert(s.supervised.key_seq() =~= Seq::<Id>::empty());
        }
        s
    }

    /// Is it empty? A stage can be used to stop the owner when the
    /// activities it supervises have finished.
    pub fn is_drained(&self) -> (b: bool)
        requires
            self.wf(),
        ensures
            b == self@.is_drained(),
    {
        self.supervised.len() == 0
    }

    /// Is the stage vital (its draining counts as a stop signal)?
    pub fn is_vital(&self) -> (b: bool)
        ensures
            b == self@.vital,
    {
        self.vital
    }

    /// Is the stage completely finished: terminating and drained?
    pub fn is_done(&self) -> (b: bool)
        requires
            self.wf(),
        ensures
            b == (self@.terminating && self@.is_drained()),
    {
        self.is_terminating() && self.is_drained()
    }

    /// Has the stage received the shutdown signal?
    pub fn is_terminating(&self) -> (b: bool)
        ensures
            b == self@.terminating,
    {
        self.terminating
    }

    /// Makes the stage vital: its draining counts as a stop signal.
    pub fn make_vital(&mut self)
        requires
            old(self).wf(),
        ensures
            final(self).wf(),
            final(self)@ == (ChainStageView { vital: true, ..old(self)@ }),
    {
        self.vital = true;
    }

    /// Supervises the activity `id`. A terminating stage does not take it:
    /// it returns `true`, and the activity has to be shut down at once.
    pub fn insert(&mut self, id: Id) -> (shutdown_now: bool)
        requires
            old(self).wf(),
        ensures
            final(self).wf(),
            shutdown_now == old(self)@.terminating,
            old(self)@.terminating ==> final(self)@ == old(self)@,
            !old(self)@.terminating ==> final(self)@ == (ChainStageView {
                supervised: if old(self)@.supervised.contains(id) {
                    old(self)@.supervised
                } else {
                    old(self)@.supervised.push(id)
                },
                ..old(self)@
            }),
    {
        if self.terminating {
            true
        } else {
            proof {
                self.supervised.lemma_key_seq();
            }
            self.supervised.insert(id, ());
            false
        }
    }

    /// Starts the termination of the stage: returns its activities, to shut down.
    fn start_termination(&mut self) -> (shutdown: Vec<Id>)
        requires
            old(self).wf(),
        ensures
            final(self).wf(),
            final(self)@ == old(self)@.terminated(),
            shutdown@ == old(self)@.supervised,
    {
        self.terminating = true;
        self.supervised.keys()
    }

    /// Removes `id` from the supervised activities; `true` if it was there.
    fn absorb(&mut self, id: &Id) -> (found: bool)
        requires
            old(self).wf(),
        ensures
            final(self).wf(),
            found == old(self)@.supervised.contains(*id),
            !found ==> final(self)@ == old(self)@,
            final(self)@ == (ChainStageView {
                supervised: old(self)@.supervised.filter(other_than(*id)),
                ..old(self)@
            }),
    {
        proof {
            self.supervised.lemma_key_seq();
        }
        self.supervised.remove(id).is_some()
    }
}

/// Chains stages into a termination sequence: the latest stage is terminated
/// first.
pub struct Terminator {
    related_id: Id,
    stages: Vec<Stage>,
    stop_signal_received: bool,
    need_stop_signal: bool,
}

impl View for Terminator {
    type V = ChainView;

    closed spec fn view(&self) -> ChainView {
        ChainView {
            stages: self.stages@.map_values(|s: Stage| s@),
            stop_signal_received: self.stop_signal_received,
            need_stop_signal: self.need_stop_signal,
        }
    }
}

/// The position of the first stage named `name` (meaningful when `has_named`).
pub open spec fn first_named(stages: Seq<ChainStageView>, name: Seq<char>) -> int {
    choose|i: int|
        0 <= i < stages.len() && stages[i].name == Some(name) && forall|j: int|
            0 <= j < i ==> (#[trigger] stages[j]).name != Some(name)
}

/// Is `name` the name of one of the stages?
pub open spec fn has_named(stages: Seq<ChainStageView>, name: Seq<char>) -> bool {
    exists|i: int| 0 <= i < stages.len() && stages[i].name == Some(name)
}

impl Terminator {
    /// Well-formedness of the chain.
    pub closed spec fn wf(&self) -> bool {
        forall|i: int| 0 <= i < self.stages@.len() ==> (#[trigger] self.stages@[i]).wf()
    }

    /// The identifier of the owner of the chain.
    pub closed spec fn spec_related_id(&self) -> Id {
        self.related_id
    }

    /// Creates a new termination chain for the owner `related_id`: no
    /// stages, and a stop signal required.
    pub fn new(related_id: Id) -> (t: Self)
        ensures
            t.wf(),
            t.spec_related_id() == related_id,
            t@ == (ChainView { stages: Seq::empty(), stop_signal_received: false, need_stop_signal: true }),
    {
        let t = Terminator { related_id, stages: Vec::new(), stop_signal_received: false, need_stop_signal: true };
        proof {
            assert(t@.stages =~= Seq::<ChainStageView>::empty());
        }
        t
    }

    /// The owner does not wait for a stop signal, only for its children.
    pub fn stop_not_required(&mut self)
        requires
            old(self).wf(),
        ensures
            final(self).wf(),
            final(self)@ == (ChainView { need_stop_signal: false, ..old(self)@ }),
    {
        self.need_stop_signal = false;
    }

    /// Adds a new stage at the end of the chain.
    fn new_stage(&mut self, name: Option<String>) -> (stage: &mut Stage)
        requires
            old(self).wf(),
        ensures
            stage.wf(),
            stage@ == (ChainStageView {
                name: match name {
                    Some(n) => Some(n@),
                    None => None,
                },
                terminating: false,
                vital: false,
                supervised: Seq::empty(),
            }),
            final(stage).wf() ==> final(self).wf(),
            final(self)@.stages =~= old(self)@.stages.push(final(stage)@),
            final(self)@.stop_signal_received == old(self)@.stop_signal_received,
            final(self)@.need_stop_signal == old(self)@.need_stop_signal,
    {
        let stage = Stage::new(name);
        self.stages.push(stage);
        let n = self.stages.len() - 1;
        proof {
            assert forall|i: int| 0 <= i < n implies (#[trigger] self.stages@[i]).wf() by {
                assert(self.stages@[i] == old(self).stages@[i]);
            }
        }
        &mut self.stages[n]
    }

    /// Creates a named stage at the end of the chain. The name must not be
    /// taken.
    pub fn named_stage(&mut self, name: &str) -> (stage: &mut Stage)
        requires
            old(self).wf(),
            !has_named(old(self)@.stages, name@),
        ensures
            stage.wf(),
            stage@ == (ChainStageView {
                name: Some(name@),
                terminating: false,
                vital: false,
                supervised: Seq::empty(),
            }),
            final(stage).wf() ==> final(self).wf(),
            final(self)@.stages =~= old(self)@.stages.push(final(stage)@),
            final(self)@.stop_signal_received == old(self)@.stop_signal_received,
            final(self)@.need_stop_signal == old(self)@.need_stop_signal,
    {
        let owned = name.to_owned();
        self.new_stage(Some(owned))
    }

    /// The position of the stage named `name`.
    fn find_named(&self, name: &str) -> (r: Option<usize>)
        requires
            self.wf(),
        ensures
            match r {
                Some(i) => i < self@.stages.len() && self@.stages[i as int].name == Some(name@) && forall|j: int|
                    0 <= j < i ==> (#[trigger] self@.stages[j]).name != Some(name@),
                None => !has_named(self@.stages, name@),
            },
    {
        let wanted = name.to_owned();
        let mut i: usize = 0;
        while i < self.stages.len()
            invariant
                i <= self.stages@.len(),
                wanted@ == name@,
                forall|j: int| 0 <= j < i ==> (#[trigger] self@.stages[j]).name != Some(name@),
            decreases self.stages@.len() - i,
        {
            match &self.stages[i].name {
                Some(n) => {
                    if *n == wanted {
                        return Some(i);
                    }
                },
                None => {},
            }
            i = i + 1;
        }
        None
    }

    /// Puts the activity `id` into the stage named `name`, which must exist,
    /// and returns that stage. The flag is `true` when that stage is
    /// terminating: the activity is not kept and has to be shut down at once.
    pub fn insert_to_named_stage(&mut self, name: &str, id: Id) -> ((shutdown_now, stage): (bool, &mut Stage))
        requires
            old(self).wf(),
            has_named(old(self)@.stages, name@),
        ensures
            stage.wf(),
            final(stage).wf() ==> final(self).wf(),
            final(self)@.stop_signal_received == old(self)@.stop_signal_received,
            final(self)@.need_stop_signal == old(self)@.need_stop_signal,
            ({
                let i = first_named(old(self)@.stages, name@);
                &&& 0 <= i < old(self)@.stages.len()
                &&& old(self)@.stages[i].name == Some(name@)
                &&& shutdown_now == old(self)@.stages[i].terminating
                &&& stage@ == (if old(self)@.stages[i].terminating || old(self)@.stages[i].supervised.contains(id) {
                    old(self)@.stages[i]
                } else {
                    ChainStageView { supervised: old(self)@.stages[i].supervised.push(id), ..old(self)@.stages[i] }
                })
                &&& final(self)@.stages =~= old(self)@.stages.update(i, final(stage)@)
            }),
    {
        let idx = match self.find_named(name) {
            Some(i) => i,
            None => {
                proof {
                    assert(false);
                }
                0
            },
        };
        let ghost bvec = self.stages@;
        let mut st = self.stages.remove(idx);
        let now = st.insert(id);
        self.stages.insert(idx, st);
        proof {
            assert(self.stages@ =~= bvec.update(idx as int, st));
            assert forall|j: int| 0 <= j < self.stages@.len() && j != idx implies (#[trigger] self.stages@[j]).wf() by {
                assert(self.stages@[j] == bvec[j]);
            }
            let os = old(self)@.stages;
            assert(forall|j: int| 0 <= j < idx ==> (#[trigger] os[j]).name != Some(name@));
            let c = first_named(os, name@);
            assert(0 <= c < os.len() && os[c].name == Some(name@) && forall|j: int|
                0 <= j < c ==> (#[trigger] os[j]).name != Some(name@));
            if c < idx {
                assert(os[c].name != Some(name@));
            }
            if idx < c {
                assert(os[idx as int].name != Some(name@));
            }
            assert(c == idx);
        }
        (now, &mut self.stages[idx])
    }

    /// Puts the activity `id` into a new stage of its own at the end of the chain.
    pub fn insert_to_single_stage(&mut self, id: Id) -> (stage: &mut Stage)
        requires
            old(self).wf(),
        ensures
            stage.wf(),
            stage@ == (ChainStageView { name: None, terminating: false, vital: false, supervised: seq![id] }),
            final(stage).wf() ==> final(self).wf(),
            final(self)@.stages =~= old(self)@.stages.push(final(stage)@),
            final(self)@.stop_signal_received == old(self)@.stop_signal_received,
            final(self)@.need_stop_signal == old(self)@.need_stop_signal,
    {
        let stage = self.new_stage(None);
        stage.insert(id);
        proof {
            assert(Seq::<Id>::empty().push(id) =~= seq![id]);
        }
        stage
    }

    /// Starts the termination of the stages from the latest one down to the
    /// first, passing drained stages and stopping at the first stage that
    /// still has activities (a stage that has just started terminating
    /// included). Returns the activities to shut down.
    fn try_terminate_next(&mut self) -> (shutdown: Vec<Id>)
        requires
            old(self).wf(),
        ensures
            final(self).wf(),
            (final(self)@.stages, shutdown@) == chain_walk(old(self)@.stages, old(self)@.stages.len() as int),
            final(self)@.stop_signal_received == old(self)@.stop_signal_received,
            final(self)@.need_stop_signal == old(self)@.need_stop_signal,
    {
        let ghost target = chain_walk(self@.stages, self@.stages.len() as int);
        let mut shutdown: Vec<Id> = Vec::new();
        let mut k: usize = self.stages.len();
        proof {
            assert(shutdown@ + target.1 =~= target.1);
        }
        while k > 0
            invariant_except_break
                self.wf(),
                k <= self@.stages.len(),
                self@.stages.len() == old(self)@.stages.len(),
                self@.stop_signal_received == old(self)@.stop_signal_received,
                self@.need_stop_signal == old(self)@.need_stop_signal,
                ({
                    let (s, n) = chain_walk(self@.stages, k as int);
                    target == (s, shutdown@ + n)
                }),
            ensures
                self.wf(),
                self@.stop_signal_received == old(self)@.stop_signal_received,
                self@.need_stop_signal == old(self)@.need_stop_signal,
                target == (self@.stages, shutdown@),
            decreases k,
        {
            let i = k - 1;
            assert(self.stages@[i as int].wf());
            if self.stages[i].is_terminating() {
                if self.stages[i].is_drained() {
                    // passed: go on with the stage before
                } else {
                    proof {
                        assert(shutdown@ + Seq::<Id>::empty() =~= shutdown@);
                    }
                    break;
                }
            } else {
                let ghost before = self@.stages;
                let ghost bvec = self.stages@;
                let drained = self.stages[i].is_drained();
                let mut stage = self.stages.remove(i);
                let mut more = stage.start_termination();
                self.stages.insert(i, stage);
                proof {
                    assert(self@.stages =~= before.update(i as int, before[i as int].terminated()));
                    assert forall|j: int| 0 <= j < self.stages@.len() implies (#[trigger] self.stages@[j]).wf() by {
                        if j != i {
                            assert(self.stages@[j] == bvec[j]);
                        }
                    }
                }
                if !drained {
                    proof {
                        assert(shutdown@ + before[i as int].supervised =~= shutdown@ + more@);
                    }
                    shutdown.append(&mut more);
                    break;
                }
                proof {
                    assert(more@ =~= Seq::<Id>::empty());
                }
            }
            k = i;
        }
        proof {
            if k == 0 {
                assert(shutdown@ + Seq::<Id>::empty() =~= shutdown@);
            }
        }
        shutdown
    }

    /// Absorbs the finished child `id`: the latest stage that supervises it
    /// forgets it, and a vital stage drained by that counts as a stop signal.
    pub fn track_child(&mut self, child: Id)
        requires
            old(self).wf(),
        ensures
            final(self).wf(),
            final(self)@ == child_tracked(old(self)@, child),
    {
        let ghost v0 = self@;
        let mut k: usize = self.stages.len();
        while k > 0
            invariant
                self.wf(),
                k <= self@.stages.len(),
                self@ == v0,
                v0 == old(self)@,
                last_holder(v0.stages, child, v0.stages.len() as int) == last_holder(v0.stages, child, k as int),
            decreases k,
        {
            let i = k - 1;
            assert(self.stages@[i as int].wf());
            let ghost before = self@.stages;
            let ghost bvec = self.stages@;
            let mut stage = self.stages.remove(i);
            proof {
                assert(stage@ == v0.stages[i as int]);
            }
            let found = stage.absorb(&child);
            proof {
                if found {
                    assert(last_holder(v0.stages, child, k as int) == i);
                } else {
                    assert(last_holder(v0.stages, child, k as int) == last_holder(v0.stages, child, i as int));
                }
            }
            if found {
                let drained_vital = stage.is_vital() && stage.is_drained();
                self.stages.insert(i, stage);
                if drained_vital {
                    self.stop_signal_received = true;
                }
                proof {
                    let st = v0.stages[i as int];
                    let st2 = ChainStageView { supervised: st.supervised.filter(other_than(child)), ..st };
                    assert(self@.stages =~= v0.stages.update(i as int, st2));
                    assert forall|j: int| 0 <= j < self.stages@.len() implies (#[trigger] self.stages@[j]).wf() by {
                        if j != i {
                            assert(self.stages@[j] == bvec[j]);
                        }
                    }
                    assert(drained_vital == (st2.vital && st2.is_drained()));
                    assert(self@.stop_signal_received == (v0.stop_signal_received || (st2.vital
                        && st2.is_drained())));
                    assert(self@ == child_tracked(v0, child));
                }
                return;
            }
            self.stages.insert(i, stage);
            proof {
                assert(self@.stages =~= v0.stages);
                assert forall|j: int| 0 <= j < self.stages@.len() implies (#[trigger] self.stages@[j]).wf() by {
                    if j != i {
                        assert(self.stages@[j] == bvec[j]);
                    }
                }
            }
            k = i;
        }
    }

    /// The main entry: call it with the finished child, or with `None` for
    /// the stop signal. The stop signal starts the termination; a finished
    /// child moves it on once a stop signal was received. Returns the verdict
    /// and the activities to shut down.
    pub fn track_child_or_stop_signal(&mut self, child: Option<Id>) -> (r: (TerminationProgress, Vec<Id>))
        requires
            old(self).wf(),
        ensures
            final(self).wf(),
            ({
                let v1 = match child {
                    None => ChainView { stop_signal_received: true, ..old(self)@ },
                    Some(id) => child_tracked(old(self)@, id),
                };
                let (s2, n) = if v1.stop_signal_received {
                    chain_walk(v1.stages, v1.stages.len() as int)
                } else {
                    (v1.stages, Seq::empty())
                };
                &&& final(self)@ == (ChainView { stages: s2, ..v1 })
                &&& r.1@ == n
                &&& r.0 == progress(final(self)@)
            }),
    {
        match child {
            None => {
                self.stop_signal_received = true;
            },
            Some(id) => {
                self.track_child(id);
            },
        }
        let shutdown = if self.stop_signal_received {
            self.try_terminate_next()
        } else {
            Vec::new()
        };
        let all_drained = self.all_stages_drained();
        let verdict = if all_drained {
            if self.need_stop_signal {
                if self.stop_signal_received {
                    TerminationProgress::SafeToStop
                } else {
                    TerminationProgress::ShouldWaitMore
                }
            } else {
                TerminationProgress::SafeToStop
            }
        } else {
            TerminationProgress::ShouldWaitMore
        };
        (verdict, shutdown)
    }

    /// Is every stage drained?
    fn all_stages_drained(&self) -> (b: bool)
        requires
            self.wf(),
        ensures
            b == all_drained(self@.stages),
    {
        let mut i: usize = 0;
        while i < self.stages.len()
            invariant
                self.wf(),
                i <= self@.stages.len(),
                forall|j: int| 0 <= j < i ==> (#[trigger] self@.stages[j]).is_drained(),
            decreases self@.stages.len() - i,
        {
            assert(self.stages@[i as int].wf());
            if !self.stages[i].is_drained() {
                assert(!self@.stages[i as int].is_drained());
                return false;
            }
            i = i + 1;
        }
        true
    }
}

} // verus!

verus! {

/// The walk keeps every stage in place with its name, vitality and
/// activities, never clears a terminating flag, and leaves the stages at or
/// above `k` untouched.
pub proof fn lemma_chain_walk_frame(stages: Seq<ChainStageView>, k: int)
    requires
        0 <= k <= stages.len(),
    ensures
        ({
            let (s2, _n) = chain_walk(stages, k);
            &&& s2.len() == stages.len()
            &&& forall|m: int|
                0 <= m < stages.len() ==> (#[trigger] s2[m]).supervised == stages[m].supervised
                    && s2[m].name == stages[m].name && s2[m].vital == stages[m].vital
                    && (stages[m].terminating ==> s2[m].terminating)
            &&& forall|m: int| k <= m < stages.len() ==> #[trigger] s2[m] == stages[m]
        }),
    decreases k,
{
    if k > 0 {
        let st = stages[k - 1];
        if st.terminating {
            if st.is_drained() {
                lemma_chain_walk_frame(stages, k - 1);
            }
        } else if st.is_drained() {
            lemma_chain_walk_frame(stages.update(k - 1, st.terminated()), k - 1);
        }
    }
}

/// **Law (latest first).** A stage starts terminating only after every stage
/// created later is drained: when the walk starts the stage `j`, each stage
/// above it (up to `k`) had no activities left and is terminating afterwards.
pub proof fn law_chain_walk_waits_for_later_stages(stages: Seq<ChainStageView>, k: int, j: int, m: int)
    requires
        0 <= j < m < k <= stages.len(),
        !stages[j].terminating,
        chain_walk(stages, k).0[j].terminating,
    ensures
        stages[m].is_drained(),
        chain_walk(stages, k).0[m].terminating,
    decreases k,
{
    let st = stages[k - 1];
    if st.terminating {
        if st.is_drained() {
            if m < k - 1 {
                law_chain_walk_waits_for_later_stages(stages, k - 1, j, m);
            } else {
                lemma_chain_walk_frame(stages, k - 1);
            }
        }
    } else {
        let stages2 = stages.update(k - 1, st.terminated());
        if st.is_drained() {
            if m < k - 1 {
                assert(stages2[j] == stages[j] && stages2[m] == stages[m]);
                law_chain_walk_waits_for_later_stages(stages2, k - 1, j, m);
            } else {
                lemma_chain_walk_frame(stages2, k - 1);
            }
        }
    }
}

/// **Law (one busy stage at a time).** When the latest stage of the walk is
/// not terminating yet and has activities, only that stage starts
/// terminating, and only its activities are shut down.
pub proof fn law_chain_walk_starts_latest_busy_stage(stages: Seq<ChainStageView>, k: int)
    requires
        0 < k <= stages.len(),
        !stages[k - 1].terminating,
        !stages[k - 1].is_drained(),
    ensures
        chain_walk(stages, k) == (stages.update(k - 1, stages[k - 1].terminated()), stages[k - 1].supervised),
{
}

/// **Law (stopping verdict).** The owner may stop exactly when no stage,
/// terminating or not, supervises an activity, and the stop signal was
/// received or is not required.
pub proof fn law_safe_to_stop_exactly_when_nothing_runs(v: ChainView)
    ensures
        progress(v) == TerminationProgress::SafeToStop <==> ((forall|i: int|
            0 <= i < v.stages.len() ==> (#[trigger] v.stages[i]).supervised.len() == 0) && (
        !v.need_stop_signal || v.stop_signal_received)),
{
}

/// **Law (vital stage).** The end of a child counts as a stop signal exactly
/// when the latest stage that supervises it is vital and the child was the
/// only activity that stage had left; otherwise the stop flag keeps its
/// value.
pub proof fn law_vital_stage_signals_only_when_drained(v: ChainView, id: Id)
    ensures
        ({
            let k = last_holder(v.stages, id, v.stages.len() as int);
            child_tracked(v, id).stop_signal_received == (v.stop_signal_received || (k >= 0
                && v.stages[k].vital && forall|j: int|
                0 <= j < v.stages[k].supervised.len() ==> #[trigger] v.stages[k].supervised[j] == id))
        }),
{
    let k = last_holder(v.stages, id, v.stages.len() as int);
    lemma_last_holder_range(v.stages, id, v.stages.len() as int);
    if k >= 0 {
        let sup = v.stages[k].supervised;
        let f = sup.filter(other_than(id));
        if f.len() > 0 {
            sup.lemma_filter_pred(other_than(id), 0);
            sup.lemma_filter_contains_rev(other_than(id), f[0]);
            assert(f.contains(f[0]));
            let j = choose|j: int| 0 <= j < sup.len() && sup[j] == f[0];
            assert(sup[j] != id);
        } else {
            assert forall|j: int| 0 <= j < sup.len() implies #[trigger] sup[j] == id by {
                if sup[j] != id {
                    sup.lemma_filter_contains(other_than(id), j);
                }
            }
        }
    }
}

/// `last_holder` is `-1` or a position among the first `k` stages.
proof fn lemma_last_holder_range(stages: Seq<ChainStageView>, id: Id, k: int)
    requires
        0 <= k <= stages.len(),
    ensures
        -1 <= last_holder(stages, id, k) < k,
        last_holder(stages, id, k) >= 0 ==> last_holder(stages, id, k) < stages.len(),
    decreases k,
{
    if k > 0 {
        lemma_last_holder_range(stages, id, k - 1);
    }
}

/// **Law (safe to stop).** The chain says it is safe to stop only when every
/// stage is drained and the stop signal was received or is not required.
pub proof fn law_safe_to_stop_means_drained(v: ChainView)
    ensures
        progress(v) == TerminationProgress::SafeToStop <==> (all_drained(v.stages) && (!v.need_stop_signal
            || v.stop_signal_received)),
{
}

} // verus!
