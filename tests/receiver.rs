use hooks::receiver::{CommandName, TcpReceiverService};

#[test]
fn new_service_has_no_actions() {
    let s: TcpReceiverService<u32> = TcpReceiverService::new(15432);
    assert_eq!(s.port(), 15432);
    assert!(s.action_for(CommandName::CommitCloudRestartSubscriptions).is_none());
}

#[test]
fn later_actions_replace_earlier_ones() {
    let s = TcpReceiverService::new(1)
        .with_actions(vec![
            (CommandName::CommitCloudRestartSubscriptions, 1u32),
            (CommandName::CommitCloudCancelSubscriptions, 2),
        ])
        .with_actions(vec![
            (CommandName::CommitCloudRestartSubscriptions, 3),
            (CommandName::CommitCloudRestartSubscriptions, 4),
        ]);
    assert_eq!(s.action_for(CommandName::CommitCloudRestartSubscriptions), Some(&4));
    assert_eq!(s.action_for(CommandName::CommitCloudCancelSubscriptions), Some(&2));
    assert_eq!(s.action_for(CommandName::CommitCloudStartSubscriptions), None);
    assert_eq!(s.port(), 1);
}

#[test]
fn wire_names() {
    assert_eq!(
        CommandName::CommitCloudRestartSubscriptions.wire_name(),
        "commitcloud::restart_subscriptions"
    );
    assert_eq!(
        CommandName::CommitCloudCancelSubscriptions.wire_name(),
        "commitcloud::cancel_subscriptions"
    );
    assert_eq!(
        CommandName::CommitCloudStartSubscriptions.wire_name(),
        "commitcloud::start_subscriptions"
    );
}
