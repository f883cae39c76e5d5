use postr_backend::error::Error;
use postr_backend::jwt::{Claims, TOKEN_LIFETIME};
use postr_backend::password::{hash_password, verify_password};
use postr_backend::store::Store;
use postr_backend::utils::current_time;

fn secret() -> Vec<u8> {
    b"test-signing-secret".to_vec()
}

fn s(v: &str) -> String {
    v.to_string()
}

fn register(store: &mut Store, name: &str, pw: &str) -> i64 {
    assert_eq!(
        store.insert_user(s(name), format!("{}@x.com", name), s(name), pw),
        Ok(true)
    );
    let users = store.get_users().users;
    users.iter().find(|u| u.username == name).unwrap().id
}

#[test]
fn password_hash_verifies_only_its_password() {
    let h = hash_password("secret1").unwrap();
    assert_ne!(h, "secret1");
    assert_eq!(verify_password(&h, "secret1"), Ok(true));
    assert_eq!(verify_password(&h, "secret2"), Ok(false));
    assert_eq!(verify_password(&h, ""), Ok(false));
}

#[test]
fn password_hash_is_salted() {
    let a = hash_password("same").unwrap();
    let b = hash_password("same").unwrap();
    assert_ne!(a, b);
    assert_eq!(verify_password(&b, "same"), Ok(true));
}

#[test]
fn corrupt_hash_is_an_error() {
    assert_eq!(verify_password("not a hash", "pw"), Err(Error::CorruptHash));
}

#[test]
fn claims_expire_after_lifetime() {
    let c = Claims::new(7, 1_000);
    assert_eq!(c.user_id, 7);
    assert_eq!(c.exp, 1_000 + 48 * 3600);
    assert_eq!(TOKEN_LIFETIME, 172_800);
}

#[test]
fn token_verifies_until_expiry() {
    let c = Claims::new(42, 1_000_000);
    let token = c.to_jwt(&secret()).unwrap();
    assert_ne!(token, "");
    assert_eq!(Claims::verify_at(&token, &secret(), 1_000_000), Ok(c));
    assert_eq!(Claims::verify_at(&token, &secret(), c.exp), Ok(c));
    assert_eq!(
        Claims::verify_at(&token, &secret(), c.exp + 1),
        Err(Error::InvalidToken)
    );
}

#[test]
fn fresh_token_verifies_now() {
    let c = Claims::new(3, current_time());
    let token = c.to_jwt(&secret()).unwrap();
    assert_eq!(Claims::verify(&token, &secret()), Ok(c));
}

#[test]
fn token_under_other_secret_fails() {
    let c = Claims::new(1, 10);
    let token = c.to_jwt(&secret()).unwrap();
    assert_eq!(
        Claims::verify_at(&token, &b"other".to_vec(), 10),
        Err(Error::InvalidToken)
    );
}

#[test]
fn tampered_token_fails() {
    let c = Claims::new(5, 500);
    let token = c.to_jwt(&secret()).unwrap();
    let bytes = token.as_bytes().to_vec();
    for i in 0..bytes.len() {
        let mut t = bytes.clone();
        t[i] = if t[i] == b'A' { b'B' } else { b'A' };
        let t = String::from_utf8(t).unwrap();
        assert_eq!(
            Claims::verify_at(&t, &secret(), 500),
            Err(Error::InvalidToken),
            "byte {}",
            i
        );
    }
}

#[test]
fn guard_reads_bearer_header() {
    let c = Claims::new(9, 100);
    let token = c.to_jwt(&secret()).unwrap();
    let header = format!("Bearer {}", token);
    assert_eq!(Claims::from_request_at(Some(&header), &secret(), 100), Ok(c));
    assert_eq!(
        Claims::from_request_at(None, &secret(), 100),
        Err(Error::InvalidToken)
    );
    assert_eq!(
        Claims::from_request_at(Some(&token), &secret(), 100),
        Err(Error::InvalidToken)
    );
    assert_eq!(
        Claims::from_request_at(Some("Basic abc"), &secret(), 100),
        Err(Error::InvalidToken)
    );
    assert_eq!(
        Claims::from_request_at(Some(&header), &secret(), c.exp + 1),
        Err(Error::InvalidToken)
    );
}

#[test]
fn error_status_and_message() {
    assert_eq!(Error::NotFound.status_code(), 404);
    assert_eq!(Error::Unauthorized.status_code(), 401);
    assert_eq!(Error::InvalidToken.status_code(), 401);
    assert_eq!(Error::Conflict.status_code(), 500);
    assert_eq!(Error::ServerError.status_code(), 500);
    assert_eq!(Error::JWTError.status_code(), 500);
    assert_eq!(Error::CorruptHash.status_code(), 500);
    assert_eq!(Error::InvalidToken.message(), "Invalid or missing token");
    assert_eq!(Error::NotFound.message(), "Request path not found");
}

#[test]
fn register_rejects_taken_username_or_email() {
    let mut store = Store::new();
    register(&mut store, "alice", "pw");
    assert_eq!(
        store.insert_user(s("alice"), s("other@x.com"), s("A"), "pw"),
        Err(Error::Conflict)
    );
    assert_eq!(
        store.insert_user(s("alice2"), s("alice@x.com"), s("A"), "pw"),
        Err(Error::Conflict)
    );
    assert_eq!(store.get_users().users.len(), 1);
}

#[test]
fn login_by_username_or_email() {
    let mut store = Store::new();
    let id = register(&mut store, "alice", "secret1");
    let r = store
        .login_user(Some(s("alice")), None, "secret1", &secret(), 1_000)
        .unwrap();
    assert_eq!(r.id, id);
    assert_eq!(
        Claims::verify_at(&r.token, &secret(), 1_000),
        Ok(Claims::new(id, 1_000))
    );
    let r = store
        .login_user(None, Some(s("alice@x.com")), "secret1", &secret(), 1_000)
        .unwrap();
    assert_eq!(r.id, id);
}

#[test]
fn login_failures_look_like_missing_account() {
    let mut store = Store::new();
    register(&mut store, "alice", "secret1");
    assert_eq!(
        store
            .login_user(Some(s("alice")), None, "wrong", &secret(), 0)
            .map(|r| r.id),
        Err(Error::NotFound)
    );
    assert_eq!(
        store
            .login_user(Some(s("nobody")), None, "secret1", &secret(), 0)
            .map(|r| r.id),
        Err(Error::NotFound)
    );
    assert_eq!(
        store.login_user(None, None, "secret1", &secret(), 0).map(|r| r.id),
        Err(Error::NotFound)
    );
}

#[test]
fn login_with_corrupt_stored_hash() {
    let mut store = Store::new();
    assert_eq!(
        store.insert_user_hashed(s("eve"), s("eve@x.com"), s("Eve"), s("garbage")),
        Ok(true)
    );
    assert_eq!(
        store
            .login_user(Some(s("eve")), None, "pw", &secret(), 0)
            .map(|r| r.id),
        Err(Error::CorruptHash)
    );
}

#[test]
fn get_user_by_id() {
    let mut store = Store::new();
    let id = register(&mut store, "alice", "pw");
    let u = store.get_user(id).unwrap();
    assert_eq!(u.username, "alice");
    assert_eq!(u.email, "alice@x.com");
    assert_eq!(store.get_user(id + 100).map(|u| u.id), Err(Error::NotFound));
}

#[test]
fn update_archives_previous_content() {
    let mut store = Store::new();
    let a = register(&mut store, "alice", "pw");
    assert_eq!(store.insert_post(a, s("C1"), 10), Ok(true));
    let p = store.get_user_posts(a).posts[0].id;
    let u = store.update_post(p, s("C2"), 20).unwrap();
    assert_eq!(u.content, "C2");
    store.update_post(p, s("C3"), 30).unwrap();
    let h = store.get_post_history(p).post_versions;
    assert_eq!(h.len(), 2);
    assert_eq!(h[0].content, "C1");
    assert_eq!(h[0].version, 20);
    assert_eq!(h[1].content, "C2");
    assert_eq!(h[1].version, 30);
    let post = store.get_post(a, p).unwrap();
    assert_eq!(post.content, "C3");
    assert!(post.edited);
    assert_eq!(post.created_at, 10);
    assert_eq!(post.last_updated_at, 30);
}

#[test]
fn update_of_missing_post() {
    let mut store = Store::new();
    assert_eq!(
        store.update_post(99, s("x"), 1).map(|p| p.id),
        Err(Error::NotFound)
    );
    assert!(store.get_post_history(99).post_versions.is_empty());
}

#[test]
fn scenario_edit_history() {
    let mut store = Store::new();
    let alice = register(&mut store, "alice", "secret1");
    store.insert_post(alice, s("v1"), 1).unwrap();
    let id = store.get_user_posts(alice).posts[0].id;
    store.update_post(id, s("v2"), 2).unwrap();
    let h = store.get_post_history(id).post_versions;
    assert_eq!(h.len(), 1);
    assert_eq!(h[0].content, "v1");
    let post = store.get_post(alice, id).unwrap();
    assert_eq!(post.content, "v2");
    assert!(post.edited);
}

#[test]
fn soft_delete_hides_post_from_own_reads() {
    let mut store = Store::new();
    let a = register(&mut store, "alice", "pw");
    let b = register(&mut store, "bob", "pw");
    store.insert_post(a, s("gone"), 5).unwrap();
    let id = store.get_user_posts(a).posts[0].id;
    assert_eq!(store.follow_user(b, a), Ok(true));
    assert!(store.delete_post(id, 9));
    assert_eq!(store.get_post(a, id).map(|p| p.id), Err(Error::NotFound));
    assert!(store.get_user_posts(a).posts.is_empty());
    let feed = store.get_user_feed(b).posts;
    assert_eq!(feed.len(), 1);
    assert_eq!(feed[0].last_updated_at, 9);
    assert!(!store.delete_post(id + 100, 9));
}

#[test]
fn get_post_is_scoped_to_owner() {
    let mut store = Store::new();
    let a = register(&mut store, "alice", "pw");
    let b = register(&mut store, "bob", "pw");
    store.insert_post(a, s("mine"), 5).unwrap();
    let id = store.get_user_posts(a).posts[0].id;
    assert_eq!(store.get_post(b, id).map(|p| p.id), Err(Error::NotFound));
}

#[test]
fn feed_is_union_of_followed_newest_first() {
    let mut store = Store::new();
    let a = register(&mut store, "a", "pw");
    let b = register(&mut store, "b", "pw");
    let c = register(&mut store, "c", "pw");
    let d = register(&mut store, "d", "pw");
    store.follow_user(a, b).unwrap();
    store.follow_user(a, c).unwrap();
    store.insert_post(b, s("b1"), 10).unwrap();
    store.insert_post(c, s("c1"), 30).unwrap();
    store.insert_post(d, s("d1"), 40).unwrap();
    store.insert_post(b, s("b2"), 20).unwrap();
    store.insert_post(c, s("c2"), 5).unwrap();
    let feed: Vec<String> = store
        .get_user_feed(a)
        .posts
        .into_iter()
        .map(|p| p.content)
        .collect();
    assert_eq!(feed, vec!["c1", "b2", "b1", "c2"]);
    assert!(store.get_user_feed(d).posts.is_empty());
}

#[test]
fn duplicate_follow_and_like_are_refused() {
    let mut store = Store::new();
    let a = register(&mut store, "a", "pw");
    let b = register(&mut store, "b", "pw");
    assert_eq!(store.follow_user(a, b), Ok(true));
    assert_eq!(store.follow_user(a, b), Err(Error::Conflict));
    assert_eq!(store.get_following(a).users.len(), 1);
    assert_eq!(store.get_followers(b).users.len(), 1);
    store.insert_post(b, s("p"), 1).unwrap();
    let p = store.get_user_posts(b).posts[0].id;
    assert_eq!(store.like_post(a, p), Ok(true));
    assert_eq!(store.like_post(a, p), Err(Error::Conflict));
    assert_eq!(store.get_users_liked(p).users.len(), 1);
    assert_eq!(store.get_user_likes(a).posts.len(), 1);
}

#[test]
fn follow_or_like_of_missing_target() {
    let mut store = Store::new();
    let a = register(&mut store, "a", "pw");
    assert_eq!(store.follow_user(a, a + 50), Err(Error::NotFound));
    assert_eq!(store.like_post(a, 77), Err(Error::NotFound));
}

#[test]
fn unfollow_and_unlike() {
    let mut store = Store::new();
    let a = register(&mut store, "a", "pw");
    let b = register(&mut store, "b", "pw");
    store.follow_user(a, b).unwrap();
    assert_eq!(store.unfollow_user(a, b), Ok(true));
    assert_eq!(store.unfollow_user(a, b), Ok(false));
    assert!(store.get_following(a).users.is_empty());
    store.insert_post(b, s("p"), 1).unwrap();
    let p = store.get_user_posts(b).posts[0].id;
    store.like_post(a, p).unwrap();
    assert_eq!(store.unlike_post(a, p), Ok(true));
    assert_eq!(store.unlike_post(a, p), Ok(false));
    assert!(store.get_users_liked(p).users.is_empty());
}

#[test]
fn listings_show_public_fields() {
    let mut store = Store::new();
    let a = register(&mut store, "alice", "pw");
    let b = register(&mut store, "bob", "pw");
    store.follow_user(b, a).unwrap();
    let following = store.get_following(b).users;
    assert_eq!(following[0].id, a);
    assert_eq!(following[0].username, "alice");
    let followers = store.get_followers(a).users;
    assert_eq!(followers[0].id, b);
    assert_eq!(followers[0].name, "bob");
}

#[test]
fn scenario_register_login_follow_feed() {
    let mut store = Store::new();
    assert_eq!(
        store.insert_user(s("alice"), s("alice@x.com"), s("Alice"), "secret1"),
        Ok(true)
    );
    let login = store
        .login_user(Some(s("alice")), None, "secret1", &secret(), current_time())
        .unwrap();
    assert!(!login.token.is_empty());
    let alice = Claims::verify(&login.token, &secret()).unwrap().user_id;
    assert_eq!(alice, login.id);
    assert_eq!(
        store.insert_user(s("bob"), s("bob@x.com"), s("Bob"), "pw2"),
        Ok(true)
    );
    let bob = store
        .login_user(Some(s("bob")), None, "pw2", &secret(), current_time())
        .unwrap()
        .id;
    assert_eq!(store.follow_user(bob, alice), Ok(true));
    assert_eq!(store.insert_post(alice, s("hello"), current_time()), Ok(true));
    let feed = store.get_user_feed(bob).posts;
    assert_eq!(feed.len(), 1);
    assert_eq!(feed[0].content, "hello");
    assert!(!feed[0].edited);
}
