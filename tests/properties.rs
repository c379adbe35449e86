use snap_confine_private::safe::sc_instance_key_validate_safe;
use snap_confine_private::snap::{
    sc_instance_key_validate, sc_instance_name_validate, sc_snap_drop_instance_key,
    sc_snap_name_validate, sc_snap_split_instance_name, sc_snap_split_snap_component, Error,
    ErrorKind,
};
use snap_confine_private::tag::{sc_is_hook_security_tag, sc_security_tag_validate};

fn rejoin(parts: (&str, Option<&str>), sep: char) -> String {
    match parts.1 {
        None => parts.0.to_string(),
        Some(tail) => format!("{}{}{}", parts.0, sep, tail),
    }
}

#[test]
fn well_shaped_names_are_accepted() {
    for name in ["ab", "a1", "1a", "a-1", "0-0-x", "x0-y1-z2", "abcdefghijklmnopqrstuvwxyz0123456789-abc"] {
        assert_eq!(sc_snap_name_validate(name), Ok(()), "{}", name);
    }
}

#[test]
fn foreign_characters_are_rejected() {
    for name in ["aB", "Ab", "a_b", "a.b", "a+b", "a!", "ab\u{e9}", "\u{65e5}ab", "a b", "ab\t"] {
        let err = sc_snap_name_validate(name).unwrap_err();
        assert_eq!(err.kind(), ErrorKind::InvalidName, "{}", name);
        assert_eq!(err.msg(), "snap name must use lower case letters, digits or dashes");
    }
}

#[test]
fn the_first_fault_decides_the_message() {
    assert_eq!(
        sc_snap_name_validate("-A").unwrap_err().msg(),
        "snap name cannot start with a dash"
    );
    assert_eq!(
        sc_snap_name_validate("a--B").unwrap_err().msg(),
        "snap name cannot contain two consecutive dashes"
    );
    assert_eq!(
        sc_snap_name_validate("aB--").unwrap_err().msg(),
        "snap name must use lower case letters, digits or dashes"
    );
    assert_eq!(
        sc_snap_name_validate("a").unwrap_err().msg(),
        "snap name must be longer than 1 character"
    );
    assert_eq!(
        sc_snap_name_validate("12-").unwrap_err().msg(),
        "snap name cannot end with a dash"
    );
}

#[test]
fn splitting_then_rejoining_gives_the_input() {
    for s in ["", "_", "+", "foo", "foo_bar", "_baz", "foo_", "a_b_c", "a+b+c", "+x", "x+", "\u{e9}_\u{e8}+z"] {
        assert_eq!(rejoin(sc_snap_split_instance_name(s), '_'), s);
        assert_eq!(rejoin(sc_snap_split_snap_component(s), '+'), s);
    }
}

#[test]
fn split_instance_name_examples() {
    assert_eq!(sc_snap_split_instance_name("foo_bar"), ("foo", Some("bar")));
    assert_eq!(sc_snap_split_instance_name("foo"), ("foo", None));
    assert_eq!(sc_snap_split_instance_name("_baz"), ("", Some("baz")));
    assert_eq!(sc_snap_split_instance_name("_"), ("", Some("")));
    assert_eq!(sc_snap_split_instance_name("\u{e9}t\u{e9}_\u{e9}"), ("\u{e9}t\u{e9}", Some("\u{e9}")));
}

#[test]
fn split_snap_component_examples() {
    assert_eq!(sc_snap_split_snap_component("foo+comp"), ("foo", Some("comp")));
    assert_eq!(sc_snap_split_snap_component("foo"), ("foo", None));
    assert_eq!(sc_snap_split_snap_component("+comp"), ("", Some("comp")));
    assert_eq!(sc_snap_split_snap_component("foo+"), ("foo", Some("")));
    assert_eq!(sc_snap_split_snap_component("a+b+c"), ("a", Some("b+c")));
    assert_eq!(sc_snap_split_snap_component("foo_bar+c"), ("foo_bar", Some("c")));
}

#[test]
fn drop_instance_key_never_fails() {
    assert_eq!(sc_snap_drop_instance_key(""), Ok(""));
    assert_eq!(sc_snap_drop_instance_key("_"), Ok(""));
    assert_eq!(sc_snap_drop_instance_key("A!_b_c"), Ok("A!"));
}

#[test]
fn instance_name_examples() {
    assert_eq!(sc_instance_name_validate("hello-world_foo"), Ok(()));
    assert_eq!(
        sc_instance_name_validate("foo_bar_baz").unwrap_err().kind(),
        ErrorKind::InvalidInstanceName
    );
    let long = "a".repeat(52);
    assert_eq!(
        sc_instance_name_validate(&long),
        Err(Error::new(
            ErrorKind::InvalidInstanceName,
            "snap instance name can be at most 51 characters long"
        ))
    );
}

#[test]
fn hook_tag_examples() {
    assert!(sc_is_hook_security_tag("snap.foo_bar.hook.bar-baz"));
    assert!(!sc_is_hook_security_tag("snap.foo_bar.hook!foo"));
    assert!(!sc_is_hook_security_tag("snap.0foo.hook.bar"));
    assert!(!sc_is_hook_security_tag("snap.foo+comp.hook.bar"));
}

#[test]
fn security_tag_examples() {
    assert!(sc_security_tag_validate("snap.foo.hook.bar", "foo", None));
    assert!(!sc_security_tag_validate("snap.foo.hook.bar", "wrong-name", None));
    assert!(sc_security_tag_validate("snap.foo+comp.hook.install", "foo", Some("comp")));
    assert!(!sc_security_tag_validate("snap.foo+comp.hook.install", "foo", None));
    assert!(sc_security_tag_validate("snap.0name.app", "0name", None));
}

#[test]
fn security_tag_length_limit() {
    let mut tag = String::from("snap.foo.b");
    while tag.len() < 256 {
        tag.push('b');
    }
    assert_eq!(tag.len(), 256);
    assert!(sc_security_tag_validate(&tag, "foo", None));
    tag.push('b');
    assert!(!sc_security_tag_validate(&tag, "foo", None));
}

#[test]
fn name_length_boundary() {
    let forty = format!("a{}", "0".repeat(39));
    assert_eq!(sc_snap_name_validate(&forty), Ok(()));
    let forty_one = format!("{}1", forty);
    assert_eq!(
        sc_snap_name_validate(&forty_one),
        Err(Error::new(ErrorKind::InvalidName, "snap name must be shorter than 40 characters"))
    );
}

#[test]
fn instance_name_length_boundary() {
    let name = format!("a{}", "b".repeat(39));
    let fifty_one = format!("{}_{}", name, "0123456789");
    assert_eq!(fifty_one.len(), 51);
    assert_eq!(sc_instance_name_validate(&fifty_one), Ok(()));
    let fifty_two = format!("{}x", fifty_one);
    assert_eq!(
        sc_instance_name_validate(&fifty_two).unwrap_err().kind(),
        ErrorKind::InvalidInstanceName
    );
    let fifty_two_bad_parts = format!("_{}", "!".repeat(51));
    assert_eq!(
        sc_instance_name_validate(&fifty_two_bad_parts).unwrap_err().msg(),
        "snap instance name can be at most 51 characters long"
    );
    // 26 two-byte characters make 52 bytes
    let wide = "\u{e9}".repeat(26);
    assert_eq!(
        sc_instance_name_validate(&wide).unwrap_err().kind(),
        ErrorKind::InvalidInstanceName
    );
}

#[test]
fn instance_key_errors() {
    assert_eq!(
        sc_instance_key_validate("a-b"),
        Err(Error::new(
            ErrorKind::InvalidInstanceKey,
            "instance key must use lower case letters or digits"
        ))
    );
    assert_eq!(
        sc_instance_key_validate(""),
        Err(Error::new(
            ErrorKind::InvalidInstanceKey,
            "instance key must contain at least one letter or digit"
        ))
    );
    assert_eq!(
        sc_instance_key_validate("01234567890"),
        Err(Error::new(
            ErrorKind::InvalidInstanceKey,
            "instance key must be shorter than 10 characters"
        ))
    );
    assert_eq!(sc_instance_key_validate("0123456789"), Ok(()));
    assert_eq!(
        sc_instance_key_validate_safe("A"),
        Err("instance key must use lower case letters or digits")
    );
}

#[test]
fn instance_name_errors_keep_their_kind() {
    assert_eq!(
        sc_instance_name_validate("Foo_bar").unwrap_err().kind(),
        ErrorKind::InvalidName
    );
    assert_eq!(
        sc_instance_name_validate("foo_Bar").unwrap_err().kind(),
        ErrorKind::InvalidInstanceKey
    );
    assert_eq!(
        sc_instance_name_validate("foo_bar_").unwrap_err().kind(),
        ErrorKind::InvalidInstanceName
    );
}
