use renamer::pipeline::{
    confirm_decision, optional_input, prepare, required_input, select_mode, Mode, Prepared,
    RenameError,
};
use renamer::plan::build_plan;

fn strings(names: &[&str]) -> Vec<String> {
    names.iter().map(|n| n.to_string()).collect()
}

#[test]
fn scenario_draft_to_final() {
    let files = strings(&["notes.md", "report_draft.txt", "report_final.txt"]);
    let r = prepare(&files, "report_*", "draft", "final", false);
    match r {
        Prepared::AwaitConfirmation(plan) => {
            assert_eq!(plan.len(), 1);
            assert_eq!(plan[0].old_name, "report_draft.txt");
            assert_eq!(plan[0].new_name, "report_final.txt");
        },
        _ => panic!("expected a plan awaiting confirmation"),
    }
}

#[test]
fn skip_confirmation_proceeds_without_a_prompt() {
    let files = strings(&["report_draft.txt"]);
    let r = prepare(&files, "report_*", "draft", "final", true);
    match r {
        Prepared::Proceed(plan) => {
            assert_eq!(plan.len(), 1);
            assert_eq!(plan[0].old_name, "report_draft.txt");
            assert_eq!(plan[0].new_name, "report_final.txt");
        },
        _ => panic!("expected the plan to proceed directly"),
    }
}

#[test]
fn malformed_pattern_is_reported() {
    let files = strings(&["a.txt"]);
    let r = prepare(&files, "[", "a", "b", false);
    assert!(matches!(r, Prepared::BadPattern(_)));
}

#[test]
fn no_matching_name_stops_the_run() {
    let files = strings(&["a.txt", "b.md"]);
    let r = prepare(&files, "*.rs", "a", "b", false);
    assert!(matches!(r, Prepared::NoMatches));
}

#[test]
fn plan_emptied_by_noop_filter_stops_the_run() {
    // every name matches, yet the rule changes none of them
    let files = strings(&["report_final.txt", "notes.md"]);
    let r = prepare(&files, "*", "draft", "final", false);
    assert!(matches!(r, Prepared::NothingToRename));
    // the same holds when confirmation would have been skipped
    let r = prepare(&files, "*", "draft", "final", true);
    assert!(matches!(r, Prepared::NothingToRename));
}

#[test]
fn plan_never_contains_a_noop_entry() {
    let names = strings(&["keep.txt", "draft_a", "draft_b", "other"]);
    let plan = build_plan(&names, "draft", "final");
    assert_eq!(plan.len(), 2);
    for entry in &plan {
        assert_ne!(entry.old_name, entry.new_name);
    }
    assert_eq!(plan[0].old_name, "draft_a");
    assert_eq!(plan[0].new_name, "final_a");
    assert_eq!(plan[1].old_name, "draft_b");
    assert_eq!(plan[1].new_name, "final_b");
}

#[test]
fn mode_is_noninteractive_only_with_the_whole_triple() {
    let m = select_mode(
        Some("*.txt".to_string()),
        Some("a".to_string()),
        Some("b".to_string()),
    );
    match m {
        Mode::NonInteractive(p, f, t) => {
            assert_eq!(p, "*.txt");
            assert_eq!(f, "a");
            assert_eq!(t, "b");
        },
        Mode::Interactive => panic!("expected the non-interactive mode"),
    }
}

#[test]
fn partial_supply_falls_back_to_prompting_for_everything() {
    assert!(matches!(
        select_mode(Some("*.txt".to_string()), None, None),
        Mode::Interactive
    ));
    assert!(matches!(
        select_mode(Some("*.txt".to_string()), Some("a".to_string()), None),
        Mode::Interactive
    ));
    assert!(matches!(
        select_mode(None, Some("a".to_string()), Some("b".to_string())),
        Mode::Interactive
    ));
    assert!(matches!(select_mode(None, None, None), Mode::Interactive));
}

#[test]
fn empty_prompted_pattern_cancels() {
    assert!(required_input("").is_none());
    assert!(required_input("   ").is_none());
    assert!(required_input("\n").is_none());
}

#[test]
fn prompted_input_is_trimmed() {
    assert_eq!(required_input(" report_* \n").unwrap(), "report_*");
    assert_eq!(optional_input("  final \n"), "final");
    assert_eq!(optional_input("\n"), "");
}

#[test]
fn confirmation_accepts_only_y() {
    assert!(confirm_decision("y"));
    assert!(confirm_decision("Y"));
    assert!(confirm_decision(" y \n"));
    assert!(!confirm_decision("n"));
    assert!(!confirm_decision("N"));
    assert!(!confirm_decision(""));
    assert!(!confirm_decision("yes"));
}

#[test]
fn error_kinds_carry_their_descriptions() {
    let e = RenameError::InvalidTarget("/nowhere".to_string());
    assert!(matches!(e, RenameError::InvalidTarget(p) if p == "/nowhere"));
    let e = RenameError::ListingIo("denied".to_string());
    assert!(matches!(e, RenameError::ListingIo(m) if m == "denied"));
    let e = RenameError::PatternSyntax("bad".to_string());
    assert!(matches!(e, RenameError::PatternSyntax(m) if m == "bad"));
}
