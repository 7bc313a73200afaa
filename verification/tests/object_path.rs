use abus::object_path::{ObjectPath, ObjectPathError, ObjectPathRef};

#[test]
fn root_path_is_valid() {
    assert!(ObjectPath::new("/").is_ok());
}

#[test]
fn simple_path_is_valid() {
    assert!(ObjectPath::new("/foo").is_ok());
}

#[test]
fn nested_path_is_valid() {
    assert!(ObjectPath::new("/com/example/MusicPlayer1").is_ok());
}

#[test]
fn underscores_are_valid() {
    assert!(ObjectPath::new("/com/example/my_service").is_ok());
}

#[test]
fn digits_in_element_are_valid() {
    assert!(ObjectPath::new("/org/freedesktop/DBus").is_ok());
}

#[test]
fn empty_string_is_invalid() {
    assert_eq!(
        ObjectPath::new(""),
        Err(ObjectPathError::MissingLeadingSlash)
    );
}

#[test]
fn no_leading_slash_is_invalid() {
    assert_eq!(
        ObjectPath::new("foo"),
        Err(ObjectPathError::MissingLeadingSlash)
    );
}

#[test]
fn trailing_slash_is_invalid() {
    assert_eq!(ObjectPath::new("/foo/"), Err(ObjectPathError::EmptyElement));
}

#[test]
fn double_slash_is_invalid() {
    assert_eq!(ObjectPath::new("//foo"), Err(ObjectPathError::EmptyElement));
}

#[test]
fn internal_double_slash_is_invalid() {
    assert_eq!(
        ObjectPath::new("/foo//bar"),
        Err(ObjectPathError::EmptyElement)
    );
}

#[test]
fn hyphen_is_invalid() {
    assert_eq!(
        ObjectPath::new("/foo-bar"),
        Err(ObjectPathError::InvalidChar)
    );
}

#[test]
fn dot_is_invalid() {
    assert_eq!(
        ObjectPath::new("/com.example"),
        Err(ObjectPathError::InvalidChar)
    );
}

#[test]
fn space_is_invalid() {
    assert_eq!(
        ObjectPath::new("/foo bar"),
        Err(ObjectPathError::InvalidChar)
    );
}

#[test]
fn namespace_root_matches_everything() {
    let root = ObjectPathRef::new("/").unwrap();
    let other = ObjectPathRef::new("/com/example").unwrap();
    assert!(root.is_namespace_of(&other));
}

#[test]
fn namespace_matches_self() {
    let p = ObjectPathRef::new("/com/example/foo").unwrap();
    assert!(p.is_namespace_of(&p));
}

#[test]
fn namespace_matches_child() {
    let ns = ObjectPathRef::new("/com/example/foo").unwrap();
    let child = ObjectPathRef::new("/com/example/foo/bar").unwrap();
    assert!(ns.is_namespace_of(&child));
}

#[test]
fn namespace_does_not_match_sibling() {
    let ns = ObjectPathRef::new("/com/example/foo").unwrap();
    let sibling = ObjectPathRef::new("/com/example/foobar").unwrap();
    assert!(!ns.is_namespace_of(&sibling));
}

#[test]
fn namespace_does_not_match_parent() {
    let ns = ObjectPathRef::new("/com/example/foo").unwrap();
    let parent = ObjectPathRef::new("/com/example").unwrap();
    assert!(!ns.is_namespace_of(&parent));
}

#[test]
fn deref_coercion_works() {
    let owned = ObjectPath::new("/foo").unwrap();
    let borrowed: ObjectPathRef = owned.as_path_ref();
    assert_eq!(borrowed.as_str(), "/foo");
}

#[test]
fn to_owned_round_trips() {
    let borrowed = ObjectPathRef::new("/foo/bar").unwrap();
    let owned = borrowed.to_object_path();
    assert_eq!(owned.as_str(), "/foo/bar");
}

#[test]
fn cross_eq_works() {
    let owned = ObjectPath::new("/foo").unwrap();
    let borrowed = ObjectPathRef::new("/foo").unwrap();
    assert_eq!(owned, borrowed);
    assert_eq!(borrowed, owned);
}

// Beyond the cases above.

#[test]
fn doc_example_namespaces() {
    let ns = ObjectPathRef::new("/com/example/foo").unwrap();
    let child = ObjectPathRef::new("/com/example/foo/bar").unwrap();
    let sibling = ObjectPathRef::new("/com/example/foobar").unwrap();
    assert!(ns.is_namespace_of(&child));
    assert!(ns.is_namespace_of(&ns));
    assert!(!ns.is_namespace_of(&sibling));
}

#[test]
fn namespace_is_transitive_on_example() {
    let a = ObjectPathRef::new("/a").unwrap();
    let b = ObjectPathRef::new("/a/b").unwrap();
    let c = ObjectPathRef::new("/a/b/c").unwrap();
    assert!(a.is_namespace_of(&b));
    assert!(b.is_namespace_of(&c));
    assert!(a.is_namespace_of(&c));
    assert!(!c.is_namespace_of(&a));
}

#[test]
fn error_order_follows_elements() {
    // The first bad element decides the error.
    assert_eq!(ObjectPath::new("/a/-/"), Err(ObjectPathError::InvalidChar));
    assert_eq!(ObjectPath::new("/a//-"), Err(ObjectPathError::EmptyElement));
    assert_eq!(ObjectPath::new("/é"), Err(ObjectPathError::InvalidChar));
    assert_eq!(ObjectPath::new("/"), ObjectPath::new("/"));
}

#[test]
fn owned_path_round_trips() {
    let p = ObjectPath::new("/org/freedesktop/DBus").unwrap();
    assert_eq!(p.clone(), p);
    assert_eq!(p.as_path_ref().to_object_path(), p);
    assert_eq!(p.into_string(), "/org/freedesktop/DBus".to_string());
    let q = ObjectPath::new_unchecked("/x");
    assert_eq!(q.as_str(), "/x");
}

#[test]
fn error_messages() {
    assert_eq!(ObjectPathError::MissingLeadingSlash.message(), "object path must begin with '/'");
    assert_eq!(
        ObjectPathError::EmptyElement.message(),
        "object path elements must be non-empty (no '//' or trailing '/')"
    );
    assert_eq!(ObjectPathError::InvalidChar.message(), "object path elements must match [A-Za-z0-9_]");
}

#[test]
fn compares_with_text() {
    let owned = ObjectPath::new("/foo").unwrap();
    let borrowed = ObjectPathRef::new("/foo").unwrap();
    assert!(owned == *"/foo");
    assert!(borrowed == *"/foo");
    assert!(!(owned == *"/bar"));
    let s: &str = owned.as_ref();
    assert_eq!(s, "/foo");
    let t: &str = borrowed.as_ref();
    assert_eq!(t, "/foo");
}

#[test]
fn object_path_try_from_text() {
    let p = ObjectPath::try_from("/a/b").unwrap();
    assert_eq!(p.as_str(), "/a/b");
    let q = ObjectPath::try_from(String::from("/org/x_1")).unwrap();
    assert_eq!(q.as_str(), "/org/x_1");
    assert_eq!(ObjectPath::try_from("a").err(), Some(ObjectPathError::MissingLeadingSlash));
    assert_eq!(ObjectPath::try_from(String::from("/a//b")).err(), Some(ObjectPathError::EmptyElement));
    assert_eq!(ObjectPath::try_from("/a-b").err(), Some(ObjectPathError::InvalidChar));
}
