use backend::counter::Counter;
use backend::users::UserStore;

#[test]
fn counter_counts() {
    let mut c = Counter::new();
    assert_eq!(c.get_count(), 0);
    assert_eq!(c.increment(), 1);
    assert_eq!(c.get_count(), 1);
    assert_eq!(c.set_count(41), 41);
    assert_eq!(c.increment(), 42);
}

#[test]
fn counter_wraps_at_the_top() {
    let mut c = Counter::new();
    c.set_count(u64::MAX);
    assert_eq!(c.increment(), 0);
}

#[test]
fn signup_rejects_blank_credentials() {
    let mut s = UserStore::new();
    let msg = "Username and password cannot be empty";
    assert_eq!(s.signup("".to_string(), "pw".to_string(), 1), Err(msg.to_string()));
    assert_eq!(s.signup("   ".to_string(), "pw".to_string(), 1), Err(msg.to_string()));
    assert_eq!(s.signup("alice".to_string(), "".to_string(), 1), Err(msg.to_string()));
    assert_eq!(s.signup("alice".to_string(), " \t ".to_string(), 1), Err(msg.to_string()));
}

#[test]
fn signup_rejects_duplicate_username() {
    let mut s = UserStore::new();
    assert_eq!(
        s.signup("alice".to_string(), "pw1".to_string(), 5),
        Ok("User created successfully".to_string())
    );
    assert_eq!(
        s.signup("alice".to_string(), "pw2".to_string(), 6),
        Err("Username already exists".to_string())
    );
}

#[test]
fn signin_outcomes() {
    let mut s = UserStore::new();
    s.signup("alice".to_string(), "pw1".to_string(), 5).unwrap();
    assert_eq!(
        s.signin("alice".to_string(), "pw1".to_string()),
        Ok("Login successful".to_string())
    );
    assert_eq!(
        s.signin("alice".to_string(), "bad".to_string()),
        Err("Invalid password".to_string())
    );
    assert_eq!(
        s.signin("bob".to_string(), "pw1".to_string()),
        Err("User not found".to_string())
    );
}
