use pcopy::orchestrator::{confirmation_accepts, Orchestrator, Outcome, Phase};
use pcopy::plan::{CopyError, CopyPlanItem, EntryKind};

fn item(src: &str, dst: &str, kind: EntryKind) -> CopyPlanItem {
    CopyPlanItem {
        source_path: src.to_string(),
        destination_path: dst.to_string(),
        kind,
    }
}

fn two_item_plan() -> Vec<CopyPlanItem> {
    vec![
        item("tree", "dst/tree", EntryKind::Directory),
        item("tree/a.txt", "dst/tree/a.txt", EntryKind::File),
    ]
}

#[test]
fn confirmation_accepts_only_a_trimmed_y() {
    assert!(confirmation_accepts("y"));
    assert!(confirmation_accepts("Y"));
    assert!(confirmation_accepts("y\n"));
    assert!(confirmation_accepts("  y \r\n"));
    assert!(!confirmation_accepts("n"));
    assert!(!confirmation_accepts(""));
    assert!(!confirmation_accepts("\n"));
    assert!(!confirmation_accepts("yes"));
    assert!(!confirmation_accepts("yy"));
}

#[test]
fn run_without_gate_starts_transferring() {
    let o = Orchestrator::new(two_item_plan(), false, 2);
    assert_eq!(o.phase, Phase::Transferring);
    let o = Orchestrator::new(two_item_plan(), true, 0);
    assert_eq!(o.phase, Phase::Transferring);
}

#[test]
fn declined_confirmation_cancels_with_no_transfers() {
    let mut o = Orchestrator::new(two_item_plan(), true, 1);
    assert_eq!(o.phase, Phase::AwaitingConfirmation);
    o.confirm("n\n");
    assert_eq!(o.phase, Phase::Finished);
    assert_eq!(o.outcome, Some(Outcome::Cancelled));
    assert_eq!(o.next_item, 0);
}

#[test]
fn empty_confirmation_also_cancels() {
    let mut o = Orchestrator::new(two_item_plan(), true, 1);
    o.confirm("");
    assert_eq!(o.outcome, Some(Outcome::Cancelled));
    assert_eq!(o.next_item, 0);
}

#[test]
fn accepted_confirmation_processes_the_plan_in_order() {
    let mut o = Orchestrator::new(two_item_plan(), true, 1);
    o.confirm("y\n");
    assert_eq!(o.phase, Phase::Transferring);
    assert_eq!(o.take_next(), Some(0));
    assert_eq!(o.take_next(), Some(1));
    assert_eq!(o.take_next(), None);
    o.complete();
    assert_eq!(o.phase, Phase::Finished);
    assert_eq!(o.outcome, Some(Outcome::Completed));
}

#[test]
fn first_fatal_error_stops_the_run() {
    let mut o = Orchestrator::new(two_item_plan(), false, 0);
    assert_eq!(o.take_next(), Some(0));
    o.fail(CopyError::IoFailure);
    assert_eq!(o.phase, Phase::Finished);
    assert_eq!(o.outcome, Some(Outcome::Failed(CopyError::IoFailure)));
    assert_eq!(o.next_item, 1);
}
