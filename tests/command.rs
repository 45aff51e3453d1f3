use pollwatch::{build_cmd, expand_placeholders, format_files_list};

fn names(v: &[&str]) -> Vec<String> {
    v.iter().map(|s| s.to_string()).collect()
}

#[test]
fn formatted_list_placeholder_is_one_argument() {
    let r = build_cmd(&names(&["a.txt", "b.txt"]), &names(&["echo", "%F"]));
    assert_eq!(r, names(&["echo", "a.txt, b.txt"]));
}

#[test]
fn sequence_placeholder_is_one_space_joined_argument() {
    let r = build_cmd(&names(&["a.txt", "b.txt"]), &names(&["sh", "-c", "handle %f"]));
    assert_eq!(r, names(&["sh", "-c", "handle a.txt b.txt"]));
}

#[test]
fn placeholders_expand_everywhere() {
    let r = build_cmd(&names(&["a", "b"]), &names(&["run-%f", "%F|%F", "%f%f", "plain"]));
    assert_eq!(r, names(&["run-a b", "a, b|a, b", "a ba b", "plain"]));
}

#[test]
fn empty_template_gives_default_action() {
    let r = build_cmd(&names(&["a.txt"]), &names(&[]));
    assert_eq!(r, names(&["echo", "{file_list}", "changed"]));
}

#[test]
fn inserted_text_is_not_expanded_again() {
    let r = build_cmd(&names(&["x%f"]), &names(&["echo", "%F"]));
    assert_eq!(r, names(&["echo", "x%f"]));
    let r = build_cmd(&names(&["a%F", "b"]), &names(&["%f"]));
    assert_eq!(r, names(&["a%F b"]));
}

#[test]
fn files_list_is_comma_separated() {
    assert_eq!(format_files_list(&names(&["one"])), "one");
    assert_eq!(format_files_list(&names(&["one", "two", "three"])), "one, two, three");
}

#[test]
fn expansion_scans_once_from_the_left() {
    assert_eq!(expand_placeholders("", "L", "S"), "");
    assert_eq!(expand_placeholders("no marks", "L", "S"), "no marks");
    assert_eq!(expand_placeholders("%F-%f", "L", "S"), "L-S");
    assert_eq!(expand_placeholders("%%F", "L", "S"), "%L");
    assert_eq!(expand_placeholders("%x%", "L", "S"), "%x%");
    assert_eq!(expand_placeholders("é%fü%F", "L", "→"), "é→üL");
    assert_eq!(expand_placeholders("%F", "%f", "S"), "%f");
}
