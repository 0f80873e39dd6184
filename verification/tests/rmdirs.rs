use vagga_core::rmdirs::{
    removal_error, removal_fatal, rm_advance, rm_helper_args, rm_next_action, rm_outcome,
    RemoveOutcome, RmAction, RmEvent, RmPhase,
};

#[test]
fn helper_args_prefix_subcommand() {
    let dirs = vec!["/w/.vagga/.roots/a".to_string(), "/w/.vagga/.roots/b".to_string()];
    let args = rm_helper_args(&dirs);
    assert_eq!(
        args,
        vec![
            "__rm".to_string(),
            "/w/.vagga/.roots/a".to_string(),
            "/w/.vagga/.roots/b".to_string()
        ]
    );
}

#[test]
fn missing_path_is_not_fatal() {
    assert!(!removal_fatal(&RemoveOutcome::Removed));
    assert!(!removal_fatal(&RemoveOutcome::Missing));
    assert!(removal_fatal(&RemoveOutcome::Failed("permission denied".to_string())));
}

#[test]
fn removal_error_text() {
    assert_eq!(
        removal_error("/w/.vagga/.roots/a", "permission denied"),
        "Error removing /w/.vagga/.roots/a: permission denied"
    );
}

#[test]
fn protocol_happy_path() {
    let mut phase = RmPhase::Start;
    let mut actions = Vec::new();
    while let Some(action) = rm_next_action(&phase) {
        actions.push(action);
        let event = if let RmAction::AwaitChild = action {
            RmEvent::ChildExited(0)
        } else {
            RmEvent::Succeeded
        };
        phase = rm_advance(phase, event);
    }
    assert_eq!(phase, RmPhase::Done);
    assert_eq!(rm_outcome(&phase), Some(true));
    // The uid-map write comes strictly between the spawn and the wakeup.
    assert_eq!(
        actions,
        vec![
            RmAction::OpenPipe,
            RmAction::SpawnHelper,
            RmAction::WriteUidMap,
            RmAction::SendWakeup,
            RmAction::AwaitChild
        ]
    );
}

#[test]
fn protocol_nonzero_exit_fails() {
    let mut phase = RmPhase::Start;
    for _ in 0..4 {
        phase = rm_advance(phase, RmEvent::Succeeded);
    }
    assert_eq!(phase, RmPhase::Woken);
    phase = rm_advance(phase, RmEvent::ChildExited(3));
    assert_eq!(phase, RmPhase::Failed);
    assert_eq!(rm_outcome(&phase), Some(false));
}

#[test]
fn protocol_step_failure_aborts() {
    let phase = rm_advance(RmPhase::PipeOpen, RmEvent::Failed);
    assert_eq!(phase, RmPhase::Failed);
    assert_eq!(rm_next_action(&phase), None);
}

#[test]
fn protocol_prescribes_map_write_after_spawn() {
    assert_eq!(rm_next_action(&RmPhase::Spawned), Some(RmAction::WriteUidMap));
    assert_eq!(rm_next_action(&RmPhase::MapWritten), Some(RmAction::SendWakeup));
}
