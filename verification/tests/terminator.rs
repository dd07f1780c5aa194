use meio::ids::Id;
use meio::terminator::{TerminationProgress, Terminator};

#[test]
fn stop_signal_without_children_is_safe_to_stop() {
    let mut t = Terminator::new(Id::unique());
    let (progress, shutdown) = t.track_child_or_stop_signal(None);
    assert_eq!(progress, TerminationProgress::SafeToStop);
    assert!(shutdown.is_empty());
}

#[test]
fn without_stop_signal_the_owner_waits() {
    let mut t = Terminator::new(Id::unique());
    let a = Id::unique();
    t.insert_to_single_stage(a);
    let (progress, shutdown) = t.track_child_or_stop_signal(Some(a));
    assert_eq!(progress, TerminationProgress::ShouldWaitMore);
    assert!(shutdown.is_empty());
}

#[test]
fn stop_not_required_stops_when_drained() {
    let mut t = Terminator::new(Id::unique());
    t.stop_not_required();
    let a = Id::unique();
    t.insert_to_single_stage(a);
    let (progress, _) = t.track_child_or_stop_signal(Some(a));
    assert_eq!(progress, TerminationProgress::SafeToStop);
}

#[test]
fn stop_signal_shuts_down_every_stage_in_reverse_order() {
    let mut t = Terminator::new(Id::unique());
    let a = Id::unique();
    let b = Id::unique();
    let c = Id::unique();
    t.named_stage("first");
    t.named_stage("second");
    assert!(!t.insert_to_named_stage("first", a).0);
    assert!(!t.insert_to_named_stage("second", b).0);
    assert!(!t.insert_to_named_stage("second", c).0);
    // Only the latest stage is shut down first.
    let (progress, shutdown) = t.track_child_or_stop_signal(None);
    assert_eq!(progress, TerminationProgress::ShouldWaitMore);
    assert_eq!(shutdown, vec![b, c]);
    // The first stage is not terminating yet: it still takes children.
    let late = Id::unique();
    assert!(!t.insert_to_named_stage("first", late).0);
    let (progress, shutdown) = t.track_child_or_stop_signal(Some(b));
    assert_eq!(progress, TerminationProgress::ShouldWaitMore);
    assert!(shutdown.is_empty());
    // The latest stage is drained: the first one is shut down now.
    let (progress, shutdown) = t.track_child_or_stop_signal(Some(c));
    assert_eq!(progress, TerminationProgress::ShouldWaitMore);
    assert_eq!(shutdown, vec![a, late]);
    // A late child of a terminating stage is refused and has to be shut down.
    assert!(t.insert_to_named_stage("first", Id::unique()).0);
    let (progress, _) = t.track_child_or_stop_signal(Some(a));
    assert_eq!(progress, TerminationProgress::ShouldWaitMore);
    let (progress, _) = t.track_child_or_stop_signal(Some(late));
    assert_eq!(progress, TerminationProgress::SafeToStop);
}

#[test]
fn a_busy_stage_blocks_the_stages_before_it() {
    let mut t = Terminator::new(Id::unique());
    let a = Id::unique();
    let b = Id::unique();
    t.insert_to_single_stage(a);
    let (_, shutdown) = t.track_child_or_stop_signal(None);
    assert_eq!(shutdown, vec![a]);
    // A new stage after the termination started: the walk starts it, then
    // stops at the busy stage of `a`.
    let stage = t.insert_to_single_stage(b);
    assert!(!stage.is_terminating());
    let extra = Id::unique();
    t.insert_to_single_stage(extra);
    let (_, shutdown) = t.track_child_or_stop_signal(Some(extra));
    assert_eq!(shutdown, vec![b]);
}

#[test]
fn drained_vital_stage_counts_as_stop_signal() {
    let mut t = Terminator::new(Id::unique());
    let a = Id::unique();
    let other = Id::unique();
    t.insert_to_single_stage(other);
    let stage = t.insert_to_single_stage(a);
    stage.make_vital();
    assert!(stage.is_vital());
    let (progress, shutdown) = t.track_child_or_stop_signal(Some(a));
    assert_eq!(progress, TerminationProgress::ShouldWaitMore);
    assert_eq!(shutdown, vec![other]);
    let (progress, _) = t.track_child_or_stop_signal(Some(other));
    assert_eq!(progress, TerminationProgress::SafeToStop);
}

#[test]
fn stage_accessors() {
    let mut t = Terminator::new(Id::unique());
    let stage = t.named_stage("only");
    assert!(stage.is_drained());
    assert!(!stage.is_vital());
    assert!(!stage.is_terminating());
    assert!(!stage.is_done());
    assert!(!stage.insert(Id::unique()));
    assert!(!stage.is_drained());
}

#[test]
fn unknown_child_is_ignored() {
    let mut t = Terminator::new(Id::unique());
    let a = Id::unique();
    t.insert_to_single_stage(a);
    t.track_child(Id::unique());
    let (progress, shutdown) = t.track_child_or_stop_signal(None);
    assert_eq!(progress, TerminationProgress::ShouldWaitMore);
    assert_eq!(shutdown, vec![a]);
}

#[test]
fn named_stage_is_reachable_after_an_insert() {
    let mut t = Terminator::new(Id::unique());
    let a = Id::unique();
    t.named_stage("workers");
    let (now, stage) = t.insert_to_named_stage("workers", a);
    assert!(!now);
    stage.make_vital();
    let (progress, shutdown) = t.track_child_or_stop_signal(Some(a));
    // The vital stage was drained: that counts as a stop signal.
    assert_eq!(progress, TerminationProgress::SafeToStop);
    assert!(shutdown.is_empty());
}
