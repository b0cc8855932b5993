use juniper_demo::models::{Comment, NewComment, NewPost, NewUser, Post, User};
use juniper_demo::store::{DataError, Store};

fn new_user(email: &str) -> NewUser {
    NewUser { email: email.to_string() }
}

fn new_post(user_id: i32, title: &str, body: &str) -> NewPost {
    NewPost { user_id, title: title.to_string(), body: body.to_string() }
}

fn new_comment(user_id: i32, post_id: i32, title: &str, body: &str) -> NewComment {
    NewComment { user_id, post_id, title: title.to_string(), body: body.to_string() }
}

#[test]
fn scenario_two_users_follow_and_post() {
    let mut db = Store::new();
    let u1 = db.create_user(new_user("a@x.com")).unwrap();
    let u2 = db.create_user(new_user("b@x.com")).unwrap();
    assert_eq!(db.follow(u1.id, u2.id), Ok(true));
    assert_eq!(db.list_followers(u2.id), vec![u1.clone()]);
    assert_eq!(db.list_followees(u1.id), vec![u2.clone()]);
    let post = db.create_post(new_post(u1.id, "hi", "body")).unwrap();
    assert_eq!(post.user_id, u1.id);
    assert_eq!(post.title, "hi");
    assert_eq!(post.body, "body");
    assert_eq!(db.list_comments_for_post(post.id), Vec::<Comment>::new());
}

#[test]
fn created_user_is_found_by_id() {
    let mut db = Store::new();
    let u = db.create_user(new_user("someone@example.org")).unwrap();
    assert_eq!(u.id, 1);
    assert_eq!(u.email, "someone@example.org");
    let found = db.get_user_by_id(u.id).unwrap();
    assert_eq!(found.email, "someone@example.org");
    assert_eq!(found, u);
    let v = db.create_user(new_user("")).unwrap();
    assert_eq!(v.id, 2);
    assert_eq!(db.get_user_by_id(2).unwrap().email, "");
    assert_eq!(db.get_user_by_id(3), None);
}

#[test]
fn get_users_keeps_insertion_order() {
    let mut db = Store::new();
    assert_eq!(db.get_users(), Vec::<User>::new());
    let a = db.create_user(new_user("a@x.com")).unwrap();
    let b = db.create_user(new_user("b@x.com")).unwrap();
    assert_eq!(db.get_users(), vec![a, b]);
}

#[test]
fn delete_user_reports_whether_a_row_went() {
    let mut db = Store::new();
    assert_eq!(db.delete_user(7), Ok(false));
    let u = db.create_user(new_user("a@x.com")).unwrap();
    let keep = db.create_user(new_user("b@x.com")).unwrap();
    assert_eq!(db.delete_user(u.id), Ok(true));
    assert_eq!(db.get_user_by_id(u.id), None);
    assert_eq!(db.delete_user(u.id), Ok(false));
    assert_eq!(db.get_users(), vec![keep]);
}

#[test]
fn delete_user_still_named_fails() {
    let mut db = Store::new();
    let a = db.create_user(new_user("a@x.com")).unwrap();
    let b = db.create_user(new_user("b@x.com")).unwrap();
    db.create_post(new_post(a.id, "t", "b")).unwrap();
    assert_eq!(db.delete_user(a.id), Err(DataError::StillReferenced));
    assert_eq!(db.get_user_by_id(a.id), Some(a.clone()));
    let c = db.create_user(new_user("c@x.com")).unwrap();
    db.follow(c.id, b.id).unwrap();
    assert_eq!(db.delete_user(b.id), Err(DataError::StillReferenced));
    assert_eq!(db.delete_user(c.id), Err(DataError::StillReferenced));
    assert!(db.unfollow(c.id, b.id));
    assert_eq!(db.delete_user(b.id), Ok(true));
    assert_eq!(db.delete_user(c.id), Ok(true));
}

#[test]
fn posts_for_user_are_exactly_theirs() {
    let mut db = Store::new();
    let u = db.create_user(new_user("u@x.com")).unwrap();
    let other = db.create_user(new_user("o@x.com")).unwrap();
    assert_eq!(db.list_posts_for_user(u.id), Vec::<Post>::new());
    let p1 = db.create_post(new_post(u.id, "one", "1")).unwrap();
    let q = db.create_post(new_post(other.id, "theirs", "x")).unwrap();
    let p2 = db.create_post(new_post(u.id, "two", "2")).unwrap();
    let p3 = db.create_post(new_post(u.id, "three", "3")).unwrap();
    let mine = db.list_posts_for_user(u.id);
    let ids: Vec<i32> = mine.iter().map(|p| p.id).collect();
    assert_eq!(ids, vec![p1.id, p2.id, p3.id]);
    assert_eq!(mine, vec![p1, p2, p3]);
    assert_eq!(db.list_posts_for_user(other.id), vec![q]);
    assert_eq!(db.list_posts_for_user(99), Vec::<Post>::new());
}

#[test]
fn create_post_for_missing_user_fails() {
    let mut db = Store::new();
    assert_eq!(db.create_post(new_post(1, "t", "b")), Err(DataError::MissingReference));
    assert_eq!(db.get_post_by_id(1), None);
}

#[test]
fn post_ids_follow_their_own_sequence() {
    let mut db = Store::new();
    let u = db.create_user(new_user("u@x.com")).unwrap();
    db.create_user(new_user("v@x.com")).unwrap();
    let p = db.create_post(new_post(u.id, "t", "b")).unwrap();
    assert_eq!(p.id, 1);
    assert_eq!(db.get_post_by_id(1), Some(p.clone()));
    assert_eq!(db.user_for_post(&p), Ok(u));
}

#[test]
fn follow_lists_once_and_unfollow_removes() {
    let mut db = Store::new();
    let a = db.create_user(new_user("a@x.com")).unwrap();
    let b = db.create_user(new_user("b@x.com")).unwrap();
    assert_eq!(db.follow(a.id, b.id), Ok(true));
    let followers = db.list_followers(b.id);
    assert_eq!(followers.iter().filter(|u| u.id == a.id).count(), 1);
    assert_eq!(db.follow(a.id, b.id), Err(DataError::DuplicateFollow));
    assert_eq!(db.list_followers(b.id).len(), 1);
    assert!(db.unfollow(a.id, b.id));
    assert_eq!(db.list_followers(b.id), Vec::<User>::new());
    assert!(!db.unfollow(a.id, b.id));
}

#[test]
fn unfollow_without_edge_is_false() {
    let mut db = Store::new();
    assert!(!db.unfollow(1, 2));
    let a = db.create_user(new_user("a@x.com")).unwrap();
    let b = db.create_user(new_user("b@x.com")).unwrap();
    db.follow(a.id, b.id).unwrap();
    assert!(!db.unfollow(b.id, a.id));
    assert_eq!(db.list_followers(b.id), vec![a]);
}

#[test]
fn follow_direction_is_kept() {
    let mut db = Store::new();
    let a = db.create_user(new_user("a@x.com")).unwrap();
    let b = db.create_user(new_user("b@x.com")).unwrap();
    db.follow(a.id, b.id).unwrap();
    assert_eq!(db.list_followees(a.id), vec![b.clone()]);
    assert_eq!(db.list_followers(b.id), vec![a.clone()]);
    assert_eq!(db.list_followees(b.id), Vec::<User>::new());
    assert_eq!(db.list_followers(a.id), Vec::<User>::new());
    assert_eq!(db.get_follower(b.id, a.id), Some(a.clone()));
    assert_eq!(db.get_followee(a.id, b.id), Some(b.clone()));
    assert_eq!(db.get_follower(a.id, b.id), None);
    assert_eq!(db.get_followee(b.id, a.id), None);
}

#[test]
fn follow_missing_user_fails() {
    let mut db = Store::new();
    let a = db.create_user(new_user("a@x.com")).unwrap();
    assert_eq!(db.follow(a.id, 42), Err(DataError::MissingReference));
    assert_eq!(db.follow(42, a.id), Err(DataError::MissingReference));
    assert_eq!(db.list_followees(a.id), Vec::<User>::new());
}

#[test]
fn self_follow_is_allowed() {
    let mut db = Store::new();
    let a = db.create_user(new_user("a@x.com")).unwrap();
    assert_eq!(db.follow(a.id, a.id), Ok(true));
    assert_eq!(db.list_followers(a.id), vec![a.clone()]);
    assert_eq!(db.list_followees(a.id), vec![a]);
}

#[test]
fn followers_come_in_edge_order() {
    let mut db = Store::new();
    let a = db.create_user(new_user("a@x.com")).unwrap();
    let b = db.create_user(new_user("b@x.com")).unwrap();
    let c = db.create_user(new_user("c@x.com")).unwrap();
    db.follow(c.id, a.id).unwrap();
    db.follow(b.id, a.id).unwrap();
    assert_eq!(db.list_followers(a.id), vec![c, b]);
}

#[test]
fn comments_belong_to_their_post() {
    let mut db = Store::new();
    let u = db.create_user(new_user("u@x.com")).unwrap();
    let p = db.create_post(new_post(u.id, "t", "b")).unwrap();
    let q = db.create_post(new_post(u.id, "t2", "b2")).unwrap();
    let c = db.create_comment(new_comment(u.id, p.id, "ct", "cb")).unwrap();
    assert_eq!(c.id, 1);
    assert_eq!(c.post_id, p.id);
    assert_eq!(c.user_id, u.id);
    assert_eq!(db.list_comments_for_post(p.id), vec![c.clone()]);
    assert_eq!(db.list_comments_for_post(q.id), Vec::<Comment>::new());
    assert_eq!(db.get_comment_for_post(p.id, c.id), Some(c.clone()));
    assert_eq!(db.get_comment_for_post(q.id, c.id), None);
    assert_eq!(db.get_comment_by_id(c.id), Some(c.clone()));
    assert_eq!(db.user_for_comment(&c), Ok(u));
    assert_eq!(db.post_for_comment(&c), Ok(p));
}

#[test]
fn create_comment_with_missing_reference_fails() {
    let mut db = Store::new();
    let u = db.create_user(new_user("u@x.com")).unwrap();
    let p = db.create_post(new_post(u.id, "t", "b")).unwrap();
    assert_eq!(db.create_comment(new_comment(u.id, 9, "t", "b")), Err(DataError::MissingReference));
    assert_eq!(db.create_comment(new_comment(9, p.id, "t", "b")), Err(DataError::MissingReference));
    assert_eq!(db.list_comments_for_post(p.id), Vec::<Comment>::new());
}

#[test]
fn delete_post_and_comment() {
    let mut db = Store::new();
    let u = db.create_user(new_user("u@x.com")).unwrap();
    let p = db.create_post(new_post(u.id, "t", "b")).unwrap();
    let c = db.create_comment(new_comment(u.id, p.id, "ct", "cb")).unwrap();
    assert_eq!(db.delete_post(p.id), Err(DataError::StillReferenced));
    assert!(db.delete_comment(c.id));
    assert!(!db.delete_comment(c.id));
    assert_eq!(db.get_comment_by_id(c.id), None);
    assert_eq!(db.delete_post(p.id), Ok(true));
    assert_eq!(db.get_post_by_id(p.id), None);
    assert_eq!(db.delete_post(p.id), Ok(false));
    assert_eq!(db.post_for_comment(&c), Err(DataError::NotFound));
}

#[test]
fn owner_of_a_stale_row_is_not_found() {
    let db = Store::new();
    let stale = Post { id: 5, user_id: 3, title: "t".to_string(), body: "b".to_string() };
    assert_eq!(db.user_for_post(&stale), Err(DataError::NotFound));
}

#[test]
fn ids_are_not_reused_after_delete() {
    let mut db = Store::new();
    let a = db.create_user(new_user("a@x.com")).unwrap();
    assert_eq!(db.delete_user(a.id), Ok(true));
    let b = db.create_user(new_user("b@x.com")).unwrap();
    assert_eq!(b.id, 2);
    assert_eq!(db.get_user_by_id(1), None);
}
