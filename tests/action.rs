use pxls_render::action::{ActionKind, Identifier, ParseIdentifierError};

#[test]
fn mod_identifier_try_from_err_empty() {
    assert!(Identifier::try_from("").is_err());
}

#[test]
fn action_identifier_try_from_err_empty() {
    assert!(Identifier::try_from("").is_err());
}

#[test]
fn mod_action_kind_to_string() {
    assert_eq!(ActionKind::Place.to_string(), "user place");
    assert_eq!(ActionKind::Undo.to_string(), "user undo");
    assert_eq!(ActionKind::Overwrite.to_string(), "mod overwrite");
    assert_eq!(ActionKind::Rollback.to_string(), "rollback");
    assert_eq!(ActionKind::RollbackUndo.to_string(), "rollback undo");
    assert_eq!(ActionKind::Nuke.to_string(), "console nuke");
}

#[test]
fn action_action_kind_to_string() {
    assert_eq!(ActionKind::Place.to_string(), "user place");
    assert_eq!(ActionKind::Undo.to_string(), "user undo");
    assert_eq!(ActionKind::Overwrite.to_string(), "mod overwrite");
    assert_eq!(ActionKind::Rollback.to_string(), "rollback");
    assert_eq!(ActionKind::RollbackUndo.to_string(), "rollback undo");
    assert_eq!(ActionKind::Nuke.to_string(), "console nuke");
}

#[test]
fn mod_action_kind_try_from() {
    assert_eq!(ActionKind::try_from("user place").unwrap(), ActionKind::Place);
    assert_eq!(ActionKind::try_from("user undo").unwrap(), ActionKind::Undo);
    assert_eq!(ActionKind::try_from("mod overwrite").unwrap(), ActionKind::Overwrite);
    assert_eq!(ActionKind::try_from("rollback").unwrap(), ActionKind::Rollback);
    assert_eq!(ActionKind::try_from("rollback undo").unwrap(), ActionKind::RollbackUndo);
    assert_eq!(ActionKind::try_from("console nuke").unwrap(), ActionKind::Nuke);
    assert!(ActionKind::try_from("other").is_err());
}

#[test]
fn action_action_kind_try_from() {
    assert_eq!(ActionKind::try_from("user place").unwrap(), ActionKind::Place);
    assert_eq!(ActionKind::try_from("user undo").unwrap(), ActionKind::Undo);
    assert_eq!(ActionKind::try_from("mod overwrite").unwrap(), ActionKind::Overwrite);
    assert_eq!(ActionKind::try_from("rollback").unwrap(), ActionKind::Rollback);
    assert_eq!(ActionKind::try_from("rollback undo").unwrap(), ActionKind::RollbackUndo);
    assert_eq!(ActionKind::try_from("console nuke").unwrap(), ActionKind::Nuke);
    assert!(ActionKind::try_from("other").is_err());
}

#[test]
fn identifier_forms() {
    let name = "abcdefghijklmnopqrstuvwxyz012345";
    let id = Identifier::try_from(name).unwrap();
    assert!(id.is_username());
    assert!(!id.is_key());
    assert_eq!(id.get(), name);
    assert_eq!(id.to_string(), name);

    let key = "0123456789abcdef0123456789abcdef0123456789abcdef0123456789abcdef";
    let id = Identifier::try_from(key).unwrap();
    assert!(id.is_key());
    assert!(!id.is_username());
    assert_eq!(id.get(), key);
}

#[test]
fn identifier_errors() {
    assert_eq!(Identifier::try_from(""), Err(ParseIdentifierError::Empty));
    assert_eq!(Identifier::try_from("short"), Err(ParseIdentifierError::InvalidLength(5)));
    // a 32-character word followed by more text is no user name, even at 64 characters
    let odd = "abcdefghijklmnopqrstuvwxyz012345 bcdefghijklmnopqrstuvwxyz012345";
    assert_eq!(odd.chars().count(), 64);
    assert_eq!(Identifier::try_from(odd), Err(ParseIdentifierError::InvalidLength(64)));
    let spaced = "abc defghijklmnopqrstuvwxyz01234";
    assert_eq!(Identifier::try_from(spaced), Err(ParseIdentifierError::InvalidLength(32)));
}
