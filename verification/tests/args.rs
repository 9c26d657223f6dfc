use folder_sync::utils::{is_affirmative, parse_args, plan_destination, DestinationPlan};

fn argv(items: &[&str]) -> Vec<String> {
    items.iter().map(|s| s.to_string()).collect()
}

#[test]
fn too_few_arguments_is_a_usage_error() {
    let r = parse_args(&argv(&["folder-sync", "/src"]), true, false);
    assert_eq!(r.unwrap_err(), "Use as: folder-sync <source> <destination> [-r]");
}

#[test]
fn missing_source_is_reported_with_its_path() {
    let r = parse_args(&argv(&["folder-sync", "/src", "/dst"]), false, false);
    assert_eq!(r.unwrap_err(), "Source folder /src does not exist");
}

#[test]
fn file_source_is_reported_with_its_path() {
    let r = parse_args(&argv(&["folder-sync", "/src", "/dst"]), true, true);
    assert_eq!(r.unwrap_err(), "Source /src must be a folder");
}

#[test]
fn unknown_option_is_rejected() {
    let r = parse_args(&argv(&["folder-sync", "/src", "/dst", "-x"]), true, false);
    assert_eq!(r.unwrap_err(), "Invalid option. Only '-r' is supported.");
}

#[test]
fn two_paths_parse_without_the_prune_flag() {
    let (src, dst, prune) = parse_args(&argv(&["folder-sync", "/src", "/dst"]), true, false)
        .unwrap();
    assert_eq!(src, "/src");
    assert_eq!(dst, "/dst");
    assert!(!prune);
}

#[test]
fn the_prune_flag_is_recognized() {
    let (src, dst, prune) = parse_args(&argv(&["folder-sync", "/src", "/dst", "-r"]), true, false)
        .unwrap();
    assert_eq!(src, "/src");
    assert_eq!(dst, "/dst");
    assert!(prune);
}

#[test]
fn extra_trailing_arguments_are_a_usage_error() {
    let r = parse_args(&argv(&["folder-sync", "/src", "/dst", "-r", "more"]), true, false);
    assert_eq!(r.unwrap_err(), "Use as: folder-sync <source> <destination> [-r]");
}

#[test]
fn affirmative_answers_are_a_single_trimmed_y() {
    assert!(is_affirmative(&"y".to_string()));
    assert!(is_affirmative(&"Y\n".to_string()));
    assert!(is_affirmative(&"  y \r\n".to_string()));
    assert!(!is_affirmative(&"".to_string()));
    assert!(!is_affirmative(&"\n".to_string()));
    assert!(!is_affirmative(&"n".to_string()));
    assert!(!is_affirmative(&"yes".to_string()));
    assert!(!is_affirmative(&"y y".to_string()));
}

#[test]
fn unicode_whitespace_is_trimmed_from_the_answer() {
    assert!(is_affirmative(&"\u{3000}y\n".to_string()));
    assert!(is_affirmative(&"\u{00A0}Y\u{2003}".to_string()));
    assert!(!is_affirmative(&"\u{3000}\n".to_string()));
    assert_eq!(plan_destination(false, &"\u{3000}y\n".to_string()), DestinationPlan::Create);
}

#[test]
fn existing_destination_is_used_as_it_is() {
    assert_eq!(plan_destination(true, &"n".to_string()), DestinationPlan::UseExisting);
}

#[test]
fn declined_creation_aborts_and_confirmed_creation_proceeds() {
    assert_eq!(plan_destination(false, &"n\n".to_string()), DestinationPlan::Abort);
    assert_eq!(plan_destination(false, &"anything".to_string()), DestinationPlan::Abort);
    assert_eq!(plan_destination(false, &"y\n".to_string()), DestinationPlan::Create);
    assert_eq!(plan_destination(false, &"Y\n".to_string()), DestinationPlan::Create);
}
