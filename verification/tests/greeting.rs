use port_sweeper::greeting::greet;

#[test]
fn greeting_a_name() {
    assert_eq!(greet("World"), "Hello, World! You've been greeted from Rust!");
}

#[test]
fn greeting_the_empty_name() {
    assert_eq!(greet(""), "Hello, ! You've been greeted from Rust!");
}

#[test]
fn the_greeting_holds_the_name_as_it_is() {
    for name in ["Ada", " spaced  out ", "{}", "{name}", "%s\n\t\\", "名前", "a\u{0}b", "Hello, "] {
        let text = greet(name);
        assert!(!text.is_empty());
        assert!(text.contains(name), "name {:?}", name);
        assert_eq!(&text[7..7 + name.len()], name);
        assert_eq!(text, format!("Hello, {}! You've been greeted from Rust!", name));
    }
}
