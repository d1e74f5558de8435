use hugdocker::domain::OperationAction;
use hugdocker::ops::confirmation_token;

#[test]
fn confirmation_token_uses_stronger_delete_for_purge() {
    assert_eq!(
        confirmation_token(OperationAction::Purge, &vec!["app".into()]),
        Some("DELETE-app".into())
    );
}
