use talker_pack::descriptor::{descriptor_path, descriptor_text};
use talker_pack::path::SamplePath;

fn path(segments: &[&str]) -> SamplePath {
    SamplePath::new(segments.iter().map(|s| s.as_bytes().to_vec()).collect())
}

#[test]
fn descriptor_holds_name_and_description() {
    assert_eq!(descriptor_text("Foo", Some("Bar baz")), "NAME\tFoo\nDESC\tBar baz\n");
}

#[test]
fn descriptor_has_exactly_two_lines() {
    let text = descriptor_text("Foo", Some("Bar baz"));
    let lines: Vec<&str> = text.lines().collect();
    assert_eq!(lines, vec!["NAME\tFoo", "DESC\tBar baz"]);
    assert!(text.ends_with('\n'));
}

#[test]
fn missing_description_leaves_an_empty_desc_line() {
    let text = descriptor_text("Foo", None);
    assert_eq!(text, "NAME\tFoo\nDESC\t\n");
    assert_eq!(text.lines().count(), 2);
    assert_eq!(text, descriptor_text("Foo", Some("")));
}

#[test]
fn descriptor_values_are_not_escaped() {
    assert_eq!(descriptor_text("a\tb", Some("c\nd")), "NAME\ta\tb\nDESC\tc\nd\n");
}

#[test]
fn descriptor_takes_any_text() {
    assert_eq!(
        descriptor_text("鶴巻マキ", Some("元気な声")),
        "NAME\t鶴巻マキ\nDESC\t元気な声\n"
    );
    assert_eq!(descriptor_text("", None), "NAME\t\nDESC\t\n");
}

#[test]
fn descriptor_is_the_same_each_time() {
    assert_eq!(descriptor_text("Foo", Some("Bar")), descriptor_text("Foo", Some("Bar")));
}

#[test]
fn descriptor_lies_in_the_pack_under_a_fixed_name() {
    assert_eq!(descriptor_path(&path(&["foo", "bar"])), path(&["foo", "bar", "character.ini"]));
    assert_eq!(descriptor_path(&path(&[])), path(&["character.ini"]));
}
