use rug::task::{parse_counts_from_line, ResourceCounts, TaskStatus};
use rug::ui::style::Color;
use rug::ui::widgets::count_spans;

fn counts(line: &str) -> (u32, u32, u32, u32, u32) {
    let c = parse_counts_from_line(line).unwrap();
    assert!(c.has_summary);
    (c.add, c.change, c.destroy, c.import, c.forget)
}

#[test]
fn a_plan_summary_is_read() {
    assert_eq!(counts("Plan: 2 to add, 1 to change, 3 to destroy."), (2, 1, 3, 0, 0));
    assert_eq!(
        counts("  \x1b[1mPlan:\x1b[0m 4 to import, 0 to add, 1 to change, 0 to destroy, 5 to forget."),
        (0, 1, 0, 4, 5)
    );
}

#[test]
fn an_apply_summary_is_read() {
    assert_eq!(
        counts("Apply complete! Resources: 1 added, 0 changed, 2 destroyed."),
        (1, 0, 2, 0, 0)
    );
    assert_eq!(counts("Destroy complete! Resources: 7 destroyed."), (0, 0, 7, 0, 0));
}

#[test]
fn no_changes_is_a_summary() {
    let c = parse_counts_from_line("No changes. Your infrastructure matches.").unwrap();
    assert!(c.no_changes && c.has_summary && c.all_zero());
}

#[test]
fn other_lines_and_malformed_parts_count_nothing() {
    assert!(parse_counts_from_line("Refreshing state...").is_none());
    assert!(parse_counts_from_line("").is_none());
    assert!(parse_counts_from_line("Listing Resources: 3 found").is_none());
    assert!(parse_counts_from_line("Resources: 1 added").is_none());
    assert_eq!(counts("Plan: x to add, 2 in change, 99999999999 to destroy."), (0, 0, 0, 0, 0));
}

#[test]
fn only_what_changes_is_shown() {
    let c = ResourceCounts { add: 2, destroy: 1, has_summary: true, ..ResourceCounts::default() };
    let spans = count_spans(&c);
    let texts: Vec<&str> = spans.iter().map(|s| s.content.as_str()).collect();
    assert_eq!(texts, vec!["  +2 add", "  -1 destroy"]);
    assert_eq!(spans[1].style.fg, Some(Color::Red));

    assert!(count_spans(&ResourceCounts::default()).is_empty());
    let none = ResourceCounts { has_summary: true, ..ResourceCounts::default() };
    assert_eq!(count_spans(&none)[0].content, "  =");
}

#[test]
fn statuses_know_whether_they_are_terminal() {
    for (status, terminal) in [
        (TaskStatus::Pending, false),
        (TaskStatus::Running, false),
        (TaskStatus::Cancelling, false),
        (TaskStatus::Success, true),
        (TaskStatus::Failed, true),
        (TaskStatus::Cancelled, true),
    ] {
        assert_eq!(status.is_terminal(), terminal);
        assert!(!status.icon().is_empty());
    }
}
