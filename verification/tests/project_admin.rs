use knit::project_admin::{
    active_after_removal, check_remove_project, no_project_message, project_list_line, select_project,
};

#[test]
fn a_named_project_is_slugged_else_the_active_one() {
    assert_eq!(select_project(Some("My App"), Some("other".to_string())), Some("my-app".to_string()));
    assert_eq!(select_project(None, Some("other".to_string())), Some("other".to_string()));
    assert_eq!(select_project(None, None), None);
}

#[test]
fn the_active_project_is_starred() {
    assert_eq!(project_list_line(Some("venue"), "venue", 3), "* venue 3 repo(s)");
    assert_eq!(project_list_line(Some("venue"), "shop", 0), "  shop 0 repo(s)");
    assert_eq!(project_list_line(None, "shop", 1), "  shop 1 repo(s)");
}

#[test]
fn removing_a_project_needs_force_and_clears_it_when_active() {
    assert_eq!(check_remove_project(false), Err("Removing a project requires --force.".to_string()));
    assert_eq!(check_remove_project(true), Ok(()));
    assert_eq!(active_after_removal(Some("venue".to_string()), "venue"), (None, true));
    assert_eq!(active_after_removal(Some("shop".to_string()), "venue"), (Some("shop".to_string()), false));
    assert_eq!(active_after_removal(None, "venue"), (None, false));
    assert_eq!(no_project_message("venue"), "No Knit project named `venue` found.");
}
