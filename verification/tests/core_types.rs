use dockman::model::StackAction;

#[test]
fn update_chains_pull_then_up() {
    assert_eq!(
        StackAction::Update.compose_commands(),
        &["compose pull", "compose up -d"]
    );
}

#[test]
fn other_actions_run_one_command() {
    assert_eq!(StackAction::Stop.compose_commands(), &["compose stop"]);
    assert_eq!(StackAction::Restart.compose_commands(), &["compose restart"]);
    assert_eq!(StackAction::Start.compose_commands(), &["compose up -d"]);
}
