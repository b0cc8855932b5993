//! An in-memory relational store for the four relations, with every data
//! access operation of the service as a method.
//!
//! Rows keep the order in which they were inserted, and every list that an
//! operation returns follows that order. Ids of users, posts and comments are
//! handed out by one sequence per table, starting at 1 and ending at
//! `MAX_ID`. Foreign keys are checked on every write: an insert that names a
//! missing row fails, and so does a delete of a row that another row still
//! names. A second `follow` of the same pair fails: the pair is the edge's key.
//! A user may follow themself.
use vstd::prelude::*;
use crate::models::{Comment, Follower, NewComment, NewPost, NewUser, Post, User};

verus! {

/// The last id that a sequence hands out.
pub const MAX_ID: i32 = 2147483647;

/// Why a data access operation failed. Absent rows are no error: they come
/// back as `None`, `false` or an empty list.
#[derive(Clone, Copy, Debug, PartialEq, Eq, Structural)]
pub enum DataError {
    /// The table's id sequence has handed out its last id.
    IdsExhausted,
    /// A foreign key of the row to insert names no existing row.
    MissingReference,
    /// The row to delete is still named by another row's foreign key.
    StillReferenced,
    /// The follow edge exists already.
    DuplicateFollow,
    /// A row that another row names could not be found.
    NotFound,
}

/// The four tables and the three id sequences.
pub struct Store {
    users: Vec<User>,
    posts: Vec<Post>,
    comments: Vec<Comment>,
    followers: Vec<Follower>,
    next_user_id: i64,
    next_post_id: i64,
    next_comment_id: i64,
}

/// The rows of `s` that satisfy `p` keep their order when the others are
/// dropped; one more element at the end is kept or dropped on its own.
pub proof fn lemma_filter_take_step<A>(s: Seq<A>, p: spec_fn(A) -> bool, i: int)
    requires
        0 <= i < s.len(),
    ensures
        s.take(i + 1).filter(p) == (if p(s[i]) {
            s.take(i).filter(p).push(s[i])
        } else {
            s.take(i).filter(p)
        }),
{
    reveal(Seq::filter);
    assert(s.take(i + 1).drop_last() =~= s.take(i));
}

/// Dropping elements keeps a sequence free of duplicates.
pub proof fn lemma_filter_no_duplicates<A>(s: Seq<A>, p: spec_fn(A) -> bool)
    requires
        s.no_duplicates(),
    ensures
        s.filter(p).no_duplicates(),
    decreases s.len(),
{
    reveal(Seq::filter);
    if s.len() > 0 {
        let d = s.drop_last();
        assert(d.no_duplicates());
        lemma_filter_no_duplicates(d, p);
        if p(s.last()) {
            assert(!d.contains(s.last()));
            if d.filter(p).contains(s.last()) {
                d.lemma_filter_contains_rev(p, s.last());
            }
        }
    }
}

/// The user with the given id among `us`; meaningful where there is one.
pub open spec fn user_in(us: Seq<User>, id: i32) -> User {
    choose|u: User| us.contains(u) && u.id == id
}

/// Posts written by `uid`.
pub open spec fn by_user(uid: i32) -> spec_fn(Post) -> bool {
    |p: Post| p.user_id == uid
}

/// Comments on the post `pid`.
pub open spec fn on_post(pid: i32) -> spec_fn(Comment) -> bool {
    |c: Comment| c.post_id == pid
}

/// Edges that end at `uid`: `uid` is followed.
pub open spec fn into_user(uid: i32) -> spec_fn(Follower) -> bool {
    |e: Follower| e.followee_id == uid
}

/// Edges that start at `uid`: `uid` follows.
pub open spec fn from_user(uid: i32) -> spec_fn(Follower) -> bool {
    |e: Follower| e.follower_id == uid
}

/// The two stores' id sequences stand at the same values.
pub open spec fn same_sequences(s0: Store, s1: Store) -> bool {
    &&& s1.next_user_id() == s0.next_user_id()
    &&& s1.next_post_id() == s0.next_post_id()
    &&& s1.next_comment_id() == s0.next_comment_id()
}

/// The ids of `us` are unique and below `next`.
pub open spec fn user_ids_ok(us: Seq<User>, next: int) -> bool {
    &&& forall|i: int| 0 <= i < us.len() ==> #[trigger] us[i].id < next
    &&& forall|i: int, j: int|
        0 <= i < us.len() && 0 <= j < us.len() && i != j ==> #[trigger] us[i].id != #[trigger] us[j].id
}

/// The ids of `ps` are unique and below `next`.
pub open spec fn post_ids_ok(ps: Seq<Post>, next: int) -> bool {
    &&& forall|i: int| 0 <= i < ps.len() ==> #[trigger] ps[i].id < next
    &&& forall|i: int, j: int|
        0 <= i < ps.len() && 0 <= j < ps.len() && i != j ==> #[trigger] ps[i].id != #[trigger] ps[j].id
}

/// The ids of `cs` are unique and below `next`.
pub open spec fn comment_ids_ok(cs: Seq<Comment>, next: int) -> bool {
    &&& forall|i: int| 0 <= i < cs.len() ==> #[trigger] cs[i].id < next
    &&& forall|i: int, j: int|
        0 <= i < cs.len() && 0 <= j < cs.len() && i != j ==> #[trigger] cs[i].id != #[trigger] cs[j].id
}

/// `create_user` took `s0` to `s1` and returned `r`.
pub open spec fn created_user(s0: Store, new_user: NewUser, r: Result<User, DataError>, s1: Store) -> bool {
    if s0.next_user_id() > MAX_ID {
        r == Err::<User, DataError>(DataError::IdsExhausted) && s1 == s0
    } else {
        let u = User { id: s0.next_user_id() as i32, email: new_user.email };
        &&& r == Ok::<User, DataError>(u)
        &&& s1.users() == s0.users().push(u)
        &&& s1.posts() == s0.posts()
        &&& s1.comments() == s0.comments()
        &&& s1.edges() == s0.edges()
        &&& s1.next_user_id() == s0.next_user_id() + 1
        &&& s1.next_post_id() == s0.next_post_id()
        &&& s1.next_comment_id() == s0.next_comment_id()
    }
}

/// `create_post` took `s0` to `s1` and returned `r`.
pub open spec fn created_post(s0: Store, new_post: NewPost, r: Result<Post, DataError>, s1: Store) -> bool {
    if !s0.has_user(new_post.user_id) {
        r == Err::<Post, DataError>(DataError::MissingReference) && s1 == s0
    } else if s0.next_post_id() > MAX_ID {
        r == Err::<Post, DataError>(DataError::IdsExhausted) && s1 == s0
    } else {
        let p = Post {
            id: s0.next_post_id() as i32,
            user_id: new_post.user_id,
            title: new_post.title,
            body: new_post.body,
        };
        &&& r == Ok::<Post, DataError>(p)
        &&& s1.users() == s0.users()
        &&& s1.posts() == s0.posts().push(p)
        &&& s1.comments() == s0.comments()
        &&& s1.edges() == s0.edges()
        &&& s1.next_user_id() == s0.next_user_id()
        &&& s1.next_post_id() == s0.next_post_id() + 1
        &&& s1.next_comment_id() == s0.next_comment_id()
    }
}

/// `create_comment` took `s0` to `s1` and returned `r`.
pub open spec fn created_comment(
    s0: Store,
    new_comment: NewComment,
    r: Result<Comment, DataError>,
    s1: Store,
) -> bool {
    if !s0.has_user(new_comment.user_id) || !s0.has_post(new_comment.post_id) {
        r == Err::<Comment, DataError>(DataError::MissingReference) && s1 == s0
    } else if s0.next_comment_id() > MAX_ID {
        r == Err::<Comment, DataError>(DataError::IdsExhausted) && s1 == s0
    } else {
        let c = Comment {
            id: s0.next_comment_id() as i32,
            user_id: new_comment.user_id,
            post_id: new_comment.post_id,
            title: new_comment.title,
            body: new_comment.body,
        };
        &&& r == Ok::<Comment, DataError>(c)
        &&& s1.users() == s0.users()
        &&& s1.posts() == s0.posts()
        &&& s1.comments() == s0.comments().push(c)
        &&& s1.edges() == s0.edges()
        &&& s1.next_user_id() == s0.next_user_id()
        &&& s1.next_post_id() == s0.next_post_id()
        &&& s1.next_comment_id() == s0.next_comment_id() + 1
    }
}

/// `follow(follower, followee)` took `s0` to `s1` and returned `r`.
pub open spec fn followed(s0: Store, follower: i32, followee: i32, r: Result<bool, DataError>, s1: Store) -> bool {
    let e = Follower { follower_id: follower, followee_id: followee };
    if !s0.has_user(follower) || !s0.has_user(followee) {
        r == Err::<bool, DataError>(DataError::MissingReference) && s1 == s0
    } else if s0.edges().contains(e) {
        r == Err::<bool, DataError>(DataError::DuplicateFollow) && s1 == s0
    } else {
        &&& r == Ok::<bool, DataError>(true)
        &&& s1.users() == s0.users()
        &&& s1.posts() == s0.posts()
        &&& s1.comments() == s0.comments()
        &&& s1.edges() == s0.edges().push(e)
        &&& same_sequences(s0, s1)
    }
}

/// Foreign keys that held in `s0` still hold in `s1` for each child table
/// that kept its rows, where `s1` keeps every user and post of `s0`.
proof fn lemma_refs_kept(s0: Store, s1: Store)
    requires
        forall|x: i32| s0.has_user(x) ==> s1.has_user(x),
        forall|x: i32| s0.has_post(x) ==> s1.has_post(x),
    ensures
        s0.post_refs_ok() && s1.posts() == s0.posts() ==> s1.post_refs_ok(),
        s0.comment_refs_ok() && s1.comments() == s0.comments() ==> s1.comment_refs_ok(),
        s0.edge_refs_ok() && s1.edges() == s0.edges() ==> s1.edge_refs_ok(),
{
    if s0.post_refs_ok() && s1.posts() == s0.posts() {
        assert forall|i: int| 0 <= i < s1.posts().len() implies s1.has_user(
            #[trigger] s1.posts()[i].user_id,
        ) by {
            assert(s0.has_user(s0.posts()[i].user_id));
        }
    }
    if s0.comment_refs_ok() && s1.comments() == s0.comments() {
        assert forall|i: int| 0 <= i < s1.comments().len() implies s1.has_user(
            #[trigger] s1.comments()[i].user_id,
        ) && s1.has_post(s1.comments()[i].post_id) by {
            assert(s0.has_user(s0.comments()[i].user_id));
            assert(s0.has_post(s0.comments()[i].post_id));
        }
    }
    if s0.edge_refs_ok() && s1.edges() == s0.edges() {
        assert forall|i: int| 0 <= i < s1.edges().len() implies s1.has_user(
            (#[trigger] s1.edges()[i]).follower_id,
        ) && s1.has_user(s1.edges()[i].followee_id) by {
            assert(s0.has_user(s0.edges()[i].follower_id));
            assert(s0.has_user(s0.edges()[i].followee_id));
        }
    }
}

/// `delete_user(id)` took `s0` to `s1` and returned `r`.
pub open spec fn deleted_user(s0: Store, id: i32, r: Result<bool, DataError>, s1: Store) -> bool {
    if !s0.has_user(id) {
        r == Ok::<bool, DataError>(false) && s1 == s0
    } else if s0.user_referenced(id) {
        r == Err::<bool, DataError>(DataError::StillReferenced) && s1 == s0
    } else {
        &&& r == Ok::<bool, DataError>(true)
        &&& s1.users() == s0.users().remove(s0.user_index(id))
        &&& s1.posts() == s0.posts()
        &&& s1.comments() == s0.comments()
        &&& s1.edges() == s0.edges()
        &&& same_sequences(s0, s1)
    }
}

/// `delete_post(id)` took `s0` to `s1` and returned `r`.
pub open spec fn deleted_post(s0: Store, id: i32, r: Result<bool, DataError>, s1: Store) -> bool {
    if !s0.has_post(id) {
        r == Ok::<bool, DataError>(false) && s1 == s0
    } else if s0.post_referenced(id) {
        r == Err::<bool, DataError>(DataError::StillReferenced) && s1 == s0
    } else {
        &&& r == Ok::<bool, DataError>(true)
        &&& s1.users() == s0.users()
        &&& s1.posts() == s0.posts().remove(s0.post_index(id))
        &&& s1.comments() == s0.comments()
        &&& s1.edges() == s0.edges()
        &&& same_sequences(s0, s1)
    }
}

/// `delete_comment(id)` took `s0` to `s1` and returned `r`.
pub open spec fn deleted_comment(s0: Store, id: i32, r: bool, s1: Store) -> bool {
    if !s0.has_comment(id) {
        !r && s1 == s0
    } else {
        &&& r
        &&& s1.users() == s0.users()
        &&& s1.posts() == s0.posts()
        &&& s1.comments() == s0.comments().remove(s0.comment_index(id))
        &&& s1.edges() == s0.edges()
        &&& same_sequences(s0, s1)
    }
}

/// `unfollow(follower, followee)` took `s0` to `s1` and returned `r`.
pub open spec fn unfollowed(s0: Store, follower: i32, followee: i32, r: bool, s1: Store) -> bool {
    let e = Follower { follower_id: follower, followee_id: followee };
    if !s0.edges().contains(e) {
        !r && s1 == s0
    } else {
        &&& r
        &&& s1.users() == s0.users()
        &&& s1.posts() == s0.posts()
        &&& s1.comments() == s0.comments()
        &&& s1.edges() == s0.edges().remove(s0.edge_index(e))
        &&& same_sequences(s0, s1)
    }
}

/// Removing the user at `j`, whom no row names, keeps the store well formed,
/// keeps every other user, and leaves no user with that id.
pub proof fn lemma_user_removed(s0: Store, s1: Store, j: int)
    requires
        s0.wf(),
        0 <= j < s0.users().len(),
        !s0.user_referenced(s0.users()[j].id),
        s1.users() == s0.users().remove(j),
        s1.posts() == s0.posts(),
        s1.comments() == s0.comments(),
        s1.edges() == s0.edges(),
        same_sequences(s0, s1),
    ensures
        s1.wf(),
        !s1.has_user(s0.users()[j].id),
        forall|x: i32| s0.has_user(x) && x != s0.users()[j].id ==> s1.has_user(x),
{
    let id = s0.users()[j].id;
    let us = s0.users();
    us.remove_ensures(j);
    assert forall|x: i32| s0.has_user(x) && x != id implies s1.has_user(x) by {
        let i = choose|i: int| 0 <= i < us.len() && #[trigger] us[i].id == x;
        if i < j {
            assert(s1.users()[i].id == x);
        } else {
            assert(s1.users()[i - 1].id == x);
        }
    }
    assert forall|i: int| 0 <= i < s1.users().len() implies #[trigger] s1.users()[i].id != id by {
        if i < j {
            assert(us[i].id != us[j].id);
        } else {
            assert(us[i + 1].id != us[j].id);
        }
    }
    assert forall|a: int, b: int|
        0 <= a < s1.users().len() && 0 <= b < s1.users().len() && a != b implies #[trigger] s1.users()[a].id
        != #[trigger] s1.users()[b].id by {
        let a0 = if a < j { a } else { a + 1 };
        let b0 = if b < j { b } else { b + 1 };
        assert(us[a0].id != us[b0].id);
    }
    assert forall|i: int| 0 <= i < s1.users().len() implies #[trigger] s1.users()[i].id < s1.next_user_id() by {
        if i < j {
            assert(us[i].id < s0.next_user_id());
        } else {
            assert(us[i + 1].id < s0.next_user_id());
        }
    }
    assert forall|i: int| 0 <= i < s1.posts().len() implies s1.has_user(#[trigger] s1.posts()[i].user_id) by {
        assert(s0.has_user(s0.posts()[i].user_id));
        assert(s0.posts()[i].user_id != id);
    }
    assert forall|i: int| 0 <= i < s1.comments().len() implies s1.has_user(
        #[trigger] s1.comments()[i].user_id,
    ) && s1.has_post(s1.comments()[i].post_id) by {
        assert(s0.has_user(s0.comments()[i].user_id));
        assert(s0.comments()[i].user_id != id);
        assert(s0.has_post(s0.comments()[i].post_id));
    }
    assert forall|i: int| 0 <= i < s1.edges().len() implies s1.has_user(
        (#[trigger] s1.edges()[i]).follower_id,
    ) && s1.has_user(s1.edges()[i].followee_id) by {
        assert(s0.has_user(s0.edges()[i].follower_id));
        assert(s0.has_user(s0.edges()[i].followee_id));
        assert(s0.edges()[i].follower_id != id);
        assert(s0.edges()[i].followee_id != id);
    }
}

/// Removing the post at `j`, which no comment names, keeps the store well
/// formed and leaves no post with that id.
proof fn lemma_post_removed(s0: Store, s1: Store, j: int)
    requires
        s0.wf(),
        0 <= j < s0.posts().len(),
        !s0.post_referenced(s0.posts()[j].id),
        s1.users() == s0.users(),
        s1.posts() == s0.posts().remove(j),
        s1.comments() == s0.comments(),
        s1.edges() == s0.edges(),
        same_sequences(s0, s1),
    ensures
        s1.wf(),
        !s1.has_post(s0.posts()[j].id),
{
    let id = s0.posts()[j].id;
    let ps = s0.posts();
    ps.remove_ensures(j);
    lemma_users_kept(s0, s1);
    assert forall|x: i32| s0.has_post(x) && x != id implies s1.has_post(x) by {
        let i = choose|i: int| 0 <= i < ps.len() && #[trigger] ps[i].id == x;
        if i < j {
            assert(s1.posts()[i].id == x);
        } else {
            assert(s1.posts()[i - 1].id == x);
        }
    }
    assert forall|i: int| 0 <= i < s1.posts().len() implies #[trigger] s1.posts()[i].id != id by {
        if i < j {
            assert(ps[i].id != ps[j].id);
        } else {
            assert(ps[i + 1].id != ps[j].id);
        }
    }
    assert forall|a: int, b: int|
        0 <= a < s1.posts().len() && 0 <= b < s1.posts().len() && a != b implies #[trigger] s1.posts()[a].id
        != #[trigger] s1.posts()[b].id by {
        let a0 = if a < j { a } else { a + 1 };
        let b0 = if b < j { b } else { b + 1 };
        assert(ps[a0].id != ps[b0].id);
    }
    assert forall|i: int| 0 <= i < s1.posts().len() implies #[trigger] s1.posts()[i].id < s1.next_post_id() by {
        if i < j {
            assert(ps[i].id < s0.next_post_id());
        } else {
            assert(ps[i + 1].id < s0.next_post_id());
        }
    }
    assert forall|i: int| 0 <= i < s1.posts().len() implies s1.has_user(#[trigger] s1.posts()[i].user_id) by {
        if i < j {
            assert(s0.has_user(ps[i].user_id));
        } else {
            assert(s0.has_user(ps[i + 1].user_id));
        }
    }
    assert forall|i: int| 0 <= i < s1.comments().len() implies s1.has_user(
        #[trigger] s1.comments()[i].user_id,
    ) && s1.has_post(s1.comments()[i].post_id) by {
        assert(s0.has_user(s0.comments()[i].user_id));
        assert(s0.has_post(s0.comments()[i].post_id));
        assert(s0.comments()[i].post_id != id);
    }
    assert forall|i: int| 0 <= i < s1.edges().len() implies s1.has_user(
        (#[trigger] s1.edges()[i]).follower_id,
    ) && s1.has_user(s1.edges()[i].followee_id) by {
        assert(s0.has_user(s0.edges()[i].follower_id));
        assert(s0.has_user(s0.edges()[i].followee_id));
    }
}

/// Removing the comment at `j` keeps the store well formed and leaves no
/// comment with that id.
proof fn lemma_comment_removed(s0: Store, s1: Store, j: int)
    requires
        s0.wf(),
        0 <= j < s0.comments().len(),
        s1.users() == s0.users(),
        s1.posts() == s0.posts(),
        s1.comments() == s0.comments().remove(j),
        s1.edges() == s0.edges(),
        same_sequences(s0, s1),
    ensures
        s1.wf(),
        !s1.has_comment(s0.comments()[j].id),
{
    let id = s0.comments()[j].id;
    let cs = s0.comments();
    cs.remove_ensures(j);
    lemma_users_kept(s0, s1);
    lemma_posts_kept(s0, s1);
    lemma_refs_kept(s0, s1);
    assert forall|i: int| 0 <= i < s1.comments().len() implies #[trigger] s1.comments()[i].id != id by {
        if i < j {
            assert(cs[i].id != cs[j].id);
        } else {
            assert(cs[i + 1].id != cs[j].id);
        }
    }
    assert forall|a: int, b: int|
        0 <= a < s1.comments().len() && 0 <= b < s1.comments().len() && a != b implies #[trigger] s1.comments()[a].id
        != #[trigger] s1.comments()[b].id by {
        let a0 = if a < j { a } else { a + 1 };
        let b0 = if b < j { b } else { b + 1 };
        assert(cs[a0].id != cs[b0].id);
    }
    assert forall|i: int| 0 <= i < s1.comments().len() implies #[trigger] s1.comments()[i].id < s1.next_comment_id() by {
        if i < j {
            assert(cs[i].id < s0.next_comment_id());
        } else {
            assert(cs[i + 1].id < s0.next_comment_id());
        }
    }
    assert forall|i: int| 0 <= i < s1.comments().len() implies s1.has_user(
        #[trigger] s1.comments()[i].user_id,
    ) && s1.has_post(s1.comments()[i].post_id) by {
        let i0 = if i < j { i } else { i + 1 };
        assert(s0.has_user(cs[i0].user_id));
        assert(s0.has_post(cs[i0].post_id));
    }
}

/// Removing the edge at `j` keeps the store well formed and leaves no such
/// edge.
pub proof fn lemma_edge_removed(s0: Store, s1: Store, j: int)
    requires
        s0.wf(),
        0 <= j < s0.edges().len(),
        s1.users() == s0.users(),
        s1.posts() == s0.posts(),
        s1.comments() == s0.comments(),
        s1.edges() == s0.edges().remove(j),
        same_sequences(s0, s1),
    ensures
        s1.wf(),
        !s1.edges().contains(s0.edges()[j]),
{
    let es = s0.edges();
    es.remove_ensures(j);
    lemma_users_kept(s0, s1);
    lemma_posts_kept(s0, s1);
    lemma_refs_kept(s0, s1);
    assert forall|a: int, b: int|
        0 <= a < s1.edges().len() && 0 <= b < s1.edges().len() && a != b implies s1.edges()[a]
        != s1.edges()[b] by {
        let a0 = if a < j { a } else { a + 1 };
        let b0 = if b < j { b } else { b + 1 };
        assert(es[a0] != es[b0]);
    }
    assert forall|i: int| 0 <= i < s1.edges().len() implies s1.edges()[i] != es[j] by {
        let i0 = if i < j { i } else { i + 1 };
        assert(es[i0] != es[j]);
    }
    assert forall|i: int| 0 <= i < s1.edges().len() implies s1.has_user(
        (#[trigger] s1.edges()[i]).follower_id,
    ) && s1.has_user(s1.edges()[i].followee_id) by {
        let i0 = if i < j { i } else { i + 1 };
        assert(s0.has_user(es[i0].follower_id));
        assert(s0.has_user(es[i0].followee_id));
    }
}

/// Every user of `s0` is still a user of `s1`, where `s1`'s users extend `s0`'s.
proof fn lemma_users_kept(s0: Store, s1: Store)
    requires
        s0.users().len() <= s1.users().len(),
        forall|i: int| 0 <= i < s0.users().len() ==> s1.users()[i] == s0.users()[i],
    ensures
        forall|x: i32| s0.has_user(x) ==> s1.has_user(x),
{
    assert forall|x: i32| s0.has_user(x) implies s1.has_user(x) by {
        let i = choose|i: int| 0 <= i < s0.users().len() && #[trigger] s0.users()[i].id == x;
        assert(s1.users()[i].id == x);
    }
}

/// Every post of `s0` is still a post of `s1`, where `s1`'s posts extend `s0`'s.
proof fn lemma_posts_kept(s0: Store, s1: Store)
    requires
        s0.posts().len() <= s1.posts().len(),
        forall|i: int| 0 <= i < s0.posts().len() ==> s1.posts()[i] == s0.posts()[i],
    ensures
        forall|x: i32| s0.has_post(x) ==> s1.has_post(x),
{
    assert forall|x: i32| s0.has_post(x) implies s1.has_post(x) by {
        let i = choose|i: int| 0 <= i < s0.posts().len() && #[trigger] s0.posts()[i].id == x;
        assert(s1.posts()[i].id == x);
    }
}

impl Store {
    /// The rows of `users`, in order of insertion.
    pub closed spec fn users(self) -> Seq<User> {
        self.users@
    }

    /// The rows of `posts`, in order of insertion.
    pub closed spec fn posts(self) -> Seq<Post> {
        self.posts@
    }

    /// The rows of `comments`, in order of insertion.
    pub closed spec fn comments(self) -> Seq<Comment> {
        self.comments@
    }

    /// The rows of `followers`, in order of insertion.
    pub closed spec fn edges(self) -> Seq<Follower> {
        self.followers@
    }

    /// The id that the next inserted user gets.
    pub closed spec fn next_user_id(self) -> int {
        self.next_user_id as int
    }

    /// The id that the next inserted post gets.
    pub closed spec fn next_post_id(self) -> int {
        self.next_post_id as int
    }

    /// The id that the next inserted comment gets.
    pub closed spec fn next_comment_id(self) -> int {
        self.next_comment_id as int
    }

    pub open spec fn has_user(self, id: i32) -> bool {
        exists|i: int| 0 <= i < self.users().len() && #[trigger] self.users()[i].id == id
    }

    pub open spec fn has_post(self, id: i32) -> bool {
        exists|i: int| 0 <= i < self.posts().len() && #[trigger] self.posts()[i].id == id
    }

    pub open spec fn has_comment(self, id: i32) -> bool {
        exists|i: int| 0 <= i < self.comments().len() && #[trigger] self.comments()[i].id == id
    }

    /// The user with the given id; meaningful where `has_user(id)`.
    pub open spec fn user_row(self, id: i32) -> User {
        user_in(self.users(), id)
    }

    pub open spec fn post_row(self, id: i32) -> Post {
        choose|p: Post| self.posts().contains(p) && p.id == id
    }

    pub open spec fn comment_row(self, id: i32) -> Comment {
        choose|c: Comment| self.comments().contains(c) && c.id == id
    }

    pub open spec fn lookup_user(self, id: i32) -> Option<User> {
        if self.has_user(id) {
            Some(self.user_row(id))
        } else {
            None
        }
    }

    pub open spec fn lookup_post(self, id: i32) -> Option<Post> {
        if self.has_post(id) {
            Some(self.post_row(id))
        } else {
            None
        }
    }

    pub open spec fn lookup_comment(self, id: i32) -> Option<Comment> {
        if self.has_comment(id) {
            Some(self.comment_row(id))
        } else {
            None
        }
    }

    /// The position of the user `id`; meaningful where `has_user(id)`.
    pub open spec fn user_index(self, id: i32) -> int {
        choose|j: int| 0 <= j < self.users().len() && self.users()[j].id == id
    }

    pub open spec fn post_index(self, id: i32) -> int {
        choose|j: int| 0 <= j < self.posts().len() && self.posts()[j].id == id
    }

    pub open spec fn comment_index(self, id: i32) -> int {
        choose|j: int| 0 <= j < self.comments().len() && self.comments()[j].id == id
    }

    pub open spec fn edge_index(self, e: Follower) -> int {
        choose|j: int| 0 <= j < self.edges().len() && self.edges()[j] == e
    }

    /// Some post, comment or edge names the user `id`.
    pub open spec fn user_referenced(self, id: i32) -> bool {
        ||| exists|i: int| 0 <= i < self.posts().len() && (#[trigger] self.posts()[i]).user_id == id
        ||| exists|i: int|
            0 <= i < self.comments().len() && (#[trigger] self.comments()[i]).user_id == id
        ||| exists|i: int|
            0 <= i < self.edges().len() && ((#[trigger] self.edges()[i]).follower_id == id
                || self.edges()[i].followee_id == id)
    }

    /// Some comment names the post `id`.
    pub open spec fn post_referenced(self, id: i32) -> bool {
        exists|i: int| 0 <= i < self.comments().len() && (#[trigger] self.comments()[i]).post_id == id
    }

    /// The posts of `uid`, in order of insertion.
    pub open spec fn posts_for_user(self, uid: i32) -> Seq<Post> {
        self.posts().filter(by_user(uid))
    }

    /// The comments on `pid`, in order of insertion.
    pub open spec fn comments_for_post(self, pid: i32) -> Seq<Comment> {
        self.comments().filter(on_post(pid))
    }

    /// The users that start the given edges, edge by edge.
    pub open spec fn follower_users(self, es: Seq<Follower>) -> Seq<User> {
        es.map_values(|e: Follower| self.user_row(e.follower_id))
    }

    /// The users that end the given edges, edge by edge.
    pub open spec fn followee_users(self, es: Seq<Follower>) -> Seq<User> {
        es.map_values(|e: Follower| self.user_row(e.followee_id))
    }

    /// The users that follow `uid`, in order of the edges.
    pub open spec fn followers_of(self, uid: i32) -> Seq<User> {
        self.follower_users(self.edges().filter(into_user(uid)))
    }

    /// The users that `uid` follows, in order of the edges.
    pub open spec fn followees_of(self, uid: i32) -> Seq<User> {
        self.followee_users(self.edges().filter(from_user(uid)))
    }

    /// The follower, where that edge exists.
    pub open spec fn follower_of(self, followee: i32, follower: i32) -> Option<User> {
        if self.edges().contains(Follower { follower_id: follower, followee_id: followee }) {
            Some(self.user_row(follower))
        } else {
            None
        }
    }

    /// The followee, where that edge exists.
    pub open spec fn followee_of(self, follower: i32, followee: i32) -> Option<User> {
        if self.edges().contains(Follower { follower_id: follower, followee_id: followee }) {
            Some(self.user_row(followee))
        } else {
            None
        }
    }

    /// The comment `id`, where it is on `pid`.
    pub open spec fn comment_for_post(self, pid: i32, id: i32) -> Option<Comment> {
        match self.lookup_comment(id) {
            Some(c) => if c.post_id == pid {
                Some(c)
            } else {
                None
            },
            None => None,
        }
    }

    /// The row that a lookup of a required reference gives: the row, or
    /// `NotFound`.
    pub open spec fn required<T>(row: Option<T>) -> Result<T, DataError> {
        match row {
            Some(t) => Ok(t),
            None => Err(DataError::NotFound),
        }
    }

    /// Ids are unique and below their sequence's next value, every foreign
    /// key names an existing row, and no follow edge occurs twice.
    pub open spec fn wf(self) -> bool {
        &&& 1 <= self.next_user_id() <= MAX_ID + 1
        &&& 1 <= self.next_post_id() <= MAX_ID + 1
        &&& 1 <= self.next_comment_id() <= MAX_ID + 1
        &&& user_ids_ok(self.users(), self.next_user_id())
        &&& post_ids_ok(self.posts(), self.next_post_id())
        &&& comment_ids_ok(self.comments(), self.next_comment_id())
        &&& self.post_refs_ok()
        &&& self.comment_refs_ok()
        &&& self.edge_refs_ok()
        &&& self.edges().no_duplicates()
    }

    /// Every post names an existing user.
    pub open spec fn post_refs_ok(self) -> bool {
        forall|i: int| 0 <= i < self.posts().len() ==> self.has_user(#[trigger] self.posts()[i].user_id)
    }

    /// Every comment names an existing user and an existing post.
    pub open spec fn comment_refs_ok(self) -> bool {
        forall|i: int|
            0 <= i < self.comments().len() ==> self.has_user(#[trigger] self.comments()[i].user_id)
                && self.has_post(self.comments()[i].post_id)
    }

    /// Every edge joins two existing users.
    pub open spec fn edge_refs_ok(self) -> bool {
        forall|i: int|
            #![trigger self.edges()[i]]
            0 <= i < self.edges().len() ==> self.has_user(self.edges()[i].follower_id)
                && self.has_user(self.edges()[i].followee_id)
    }

    /// In a well-formed store the user row at `j` is the one its id names.
    pub proof fn lemma_user_row(self, j: int)
        requires
            self.wf(),
            0 <= j < self.users().len(),
        ensures
            self.has_user(self.users()[j].id),
            self.user_row(self.users()[j].id) == self.users()[j],
    {
        let id = self.users()[j].id;
        assert(self.users().contains(self.users()[j]));
        let u = self.user_row(id);
        let k = choose|k: int| 0 <= k < self.users().len() && self.users()[k] == u;
        assert(self.users()[k].id == id);
    }

    /// The row that an existing id names carries that id.
    pub proof fn lemma_user_row_id(self, id: i32)
        requires
            self.has_user(id),
        ensures
            self.user_row(id).id == id,
            self.users().contains(self.user_row(id)),
    {
        let i = choose|i: int| 0 <= i < self.users().len() && #[trigger] self.users()[i].id == id;
        assert(self.users().contains(self.users()[i]));
    }

    /// In a well-formed store the post row at `j` is the one its id names.
    pub proof fn lemma_post_row(self, j: int)
        requires
            self.wf(),
            0 <= j < self.posts().len(),
        ensures
            self.has_post(self.posts()[j].id),
            self.post_row(self.posts()[j].id) == self.posts()[j],
    {
        let id = self.posts()[j].id;
        assert(self.posts().contains(self.posts()[j]));
        let p = self.post_row(id);
        let k = choose|k: int| 0 <= k < self.posts().len() && self.posts()[k] == p;
        assert(self.posts()[k].id == id);
    }

    /// In a well-formed store the comment row at `j` is the one its id names.
    pub proof fn lemma_comment_row(self, j: int)
        requires
            self.wf(),
            0 <= j < self.comments().len(),
        ensures
            self.has_comment(self.comments()[j].id),
            self.comment_row(self.comments()[j].id) == self.comments()[j],
    {
        let id = self.comments()[j].id;
        assert(self.comments().contains(self.comments()[j]));
        let c = self.comment_row(id);
        let k = choose|k: int| 0 <= k < self.comments().len() && self.comments()[k] == c;
        assert(self.comments()[k].id == id);
    }

    /// An empty store, whose sequences all start at 1.
    pub fn new() -> (r: Store)
        ensures
            r.wf(),
            r.users() == Seq::<User>::empty(),
            r.posts() == Seq::<Post>::empty(),
            r.comments() == Seq::<Comment>::empty(),
            r.edges() == Seq::<Follower>::empty(),
            r.next_user_id() == 1,
            r.next_post_id() == 1,
            r.next_comment_id() == 1,
    {
        Store {
            users: Vec::new(),
            posts: Vec::new(),
            comments: Vec::new(),
            followers: Vec::new(),
            next_user_id: 1,
            next_post_id: 1,
            next_comment_id: 1,
        }
    }

    fn user_position(&self, id: i32) -> (r: Option<usize>)
        ensures
            match r {
                Some(j) => j < self.users().len() && self.users()[j as int].id == id,
                None => !self.has_user(id),
            },
    {
        let mut i: usize = 0;
        while i < self.users.len()
            invariant
                i <= self.users@.len(),
                forall|k: int| 0 <= k < i ==> self.users@[k].id != id,
            decreases self.users@.len() - i,
        {
            if self.users[i].id == id {
                return Some(i);
            }
            i = i + 1;
        }
        None
    }

    fn post_position(&self, id: i32) -> (r: Option<usize>)
        ensures
            match r {
                Some(j) => j < self.posts().len() && self.posts()[j as int].id == id,
                None => !self.has_post(id),
            },
    {
        let mut i: usize = 0;
        while i < self.posts.len()
            invariant
                i <= self.posts@.len(),
                forall|k: int| 0 <= k < i ==> self.posts@[k].id != id,
            decreases self.posts@.len() - i,
        {
            if self.posts[i].id == id {
                return Some(i);
            }
            i = i + 1;
        }
        None
    }

    fn comment_position(&self, id: i32) -> (r: Option<usize>)
        ensures
            match r {
                Some(j) => j < self.comments().len() && self.comments()[j as int].id == id,
                None => !self.has_comment(id),
            },
    {
        let mut i: usize = 0;
        while i < self.comments.len()
            invariant
                i <= self.comments@.len(),
                forall|k: int| 0 <= k < i ==> self.comments@[k].id != id,
            decreases self.comments@.len() - i,
        {
            if self.comments[i].id == id {
                return Some(i);
            }
            i = i + 1;
        }
        None
    }

    /// The user with the given id, if there is one.
    pub fn get_user_by_id(&self, id: i32) -> (r: Option<User>)
        requires
            self.wf(),
        ensures
            r == self.lookup_user(id),
    {
        match self.user_position(id) {
            Some(j) => {
                proof {
                    self.lemma_user_row(j as int);
                }
                Some(self.users[j].clone())
            },
            None => None,
        }
    }

    /// The post with the given id, if there is one.
    pub fn get_post_by_id(&self, id: i32) -> (r: Option<Post>)
        requires
            self.wf(),
        ensures
            r == self.lookup_post(id),
    {
        match self.post_position(id) {
            Some(j) => {
                proof {
                    self.lemma_post_row(j as int);
                }
                Some(self.posts[j].clone())
            },
            None => None,
        }
    }

    /// The comment with the given id, if there is one.
    pub fn get_comment_by_id(&self, id: i32) -> (r: Option<Comment>)
        requires
            self.wf(),
        ensures
            r == self.lookup_comment(id),
    {
        match self.comment_position(id) {
            Some(j) => {
                proof {
                    self.lemma_comment_row(j as int);
                }
                Some(self.comments[j].clone())
            },
            None => None,
        }
    }

    /// Every user, in order of insertion.
    pub fn get_users(&self) -> (r: Vec<User>)
        ensures
            r@ == self.users(),
    {
        let mut out: Vec<User> = Vec::new();
        let mut i: usize = 0;
        while i < self.users.len()
            invariant
                i <= self.users@.len(),
                out@ == self.users@.take(i as int),
            decreases self.users@.len() - i,
        {
            out.push(self.users[i].clone());
            proof {
                assert(self.users@.take(i + 1) =~= self.users@.take(i as int).push(self.users@[i as int]));
            }
            i = i + 1;
        }
        proof {
            assert(self.users@.take(i as int) =~= self.users@);
        }
        out
    }

    fn edge_position(&self, follower: i32, followee: i32) -> (r: Option<usize>)
        ensures
            match r {
                Some(j) => j < self.edges().len() && self.edges()[j as int] == (Follower {
                    follower_id: follower,
                    followee_id: followee,
                }),
                None => !self.edges().contains(Follower { follower_id: follower, followee_id: followee }),
            },
    {
        let mut i: usize = 0;
        while i < self.followers.len()
            invariant
                i <= self.followers@.len(),
                forall|k: int|
                    0 <= k < i ==> !(#[trigger] self.followers@[k].follower_id == follower
                        && self.followers@[k].followee_id == followee),
            decreases self.followers@.len() - i,
        {
            if self.followers[i].follower_id == follower && self.followers[i].followee_id == followee {
                return Some(i);
            }
            i = i + 1;
        }
        proof {
            assert forall|k: int| 0 <= k < self.followers@.len() implies self.followers@[k] != (
            Follower { follower_id: follower, followee_id: followee }) by {
                assert(!(self.followers@[k].follower_id == follower && self.followers@[k].followee_id
                    == followee));
            }
        }
        None
    }

    /// Inserts a user with the next id of the users' sequence.
    pub fn create_user(&mut self, new_user: NewUser) -> (r: Result<User, DataError>)
        requires
            old(self).wf(),
        ensures
            final(self).wf(),
            created_user(*old(self), new_user, r, *final(self)),
    {
        if self.next_user_id > MAX_ID as i64 {
            return Err(DataError::IdsExhausted);
        }
        let ghost s0 = *self;
        let u = User { id: self.next_user_id as i32, email: new_user.email };
        self.users.push(u.clone());
        self.next_user_id = self.next_user_id + 1;
        proof {
            lemma_users_kept(s0, *self);
            lemma_posts_kept(s0, *self);
            lemma_refs_kept(s0, *self);
        }
        Ok(u)
    }

    /// Inserts a post of an existing user with the next id of
    /// the posts' sequence.
    pub fn create_post(&mut self, new_post: NewPost) -> (r: Result<Post, DataError>)
        requires
            old(self).wf(),
        ensures
            final(self).wf(),
            created_post(*old(self), new_post, r, *final(self)),
    {
        if self.user_position(new_post.user_id).is_none() {
            return Err(DataError::MissingReference);
        }
        if self.next_post_id > MAX_ID as i64 {
            return Err(DataError::IdsExhausted);
        }
        let ghost s0 = *self;
        let p = Post {
            id: self.next_post_id as i32,
            user_id: new_post.user_id,
            title: new_post.title,
            body: new_post.body,
        };
        self.posts.push(p.clone());
        self.next_post_id = self.next_post_id + 1;
        proof {
            lemma_users_kept(s0, *self);
            lemma_posts_kept(s0, *self);
            lemma_refs_kept(s0, *self);
            assert forall|i: int| 0 <= i < self.posts().len() implies self.has_user(
                #[trigger] self.posts()[i].user_id,
            ) by {
                if i < s0.posts().len() {
                    assert(s0.has_user(s0.posts()[i].user_id));
                }
            }
        }
        Ok(p)
    }

    /// Inserts a comment of an existing user on an existing
    /// post with the next id of the comments' sequence.
    pub fn create_comment(&mut self, new_comment: NewComment) -> (r: Result<Comment, DataError>)
        requires
            old(self).wf(),
        ensures
            final(self).wf(),
            created_comment(*old(self), new_comment, r, *final(self)),
    {
        if self.user_position(new_comment.user_id).is_none() || self.post_position(
            new_comment.post_id,
        ).is_none() {
            return Err(DataError::MissingReference);
        }
        if self.next_comment_id > MAX_ID as i64 {
            return Err(DataError::IdsExhausted);
        }
        let c = Comment {
            id: self.next_comment_id as i32,
            user_id: new_comment.user_id,
            post_id: new_comment.post_id,
            title: new_comment.title,
            body: new_comment.body,
        };
        let ghost s0 = *self;
        self.comments.push(c.clone());
        self.next_comment_id = self.next_comment_id + 1;
        proof {
            lemma_users_kept(s0, *self);
            lemma_posts_kept(s0, *self);
            lemma_refs_kept(s0, *self);
            assert forall|i: int| 0 <= i < self.comments().len() implies self.has_user(
                #[trigger] self.comments()[i].user_id,
            ) && self.has_post(self.comments()[i].post_id) by {
                if i < s0.comments().len() {
                    assert(s0.has_user(s0.comments()[i].user_id));
                    assert(s0.has_post(s0.comments()[i].post_id));
                }
            }
        }
        Ok(c)
    }

    /// `follow(follower, followee)`: inserts the edge between two existing
    /// users; a second insert of the same edge fails.
    pub fn follow(&mut self, follower: i32, followee: i32) -> (r: Result<bool, DataError>)
        requires
            old(self).wf(),
        ensures
            final(self).wf(),
            followed(*old(self), follower, followee, r, *final(self)),
    {
        if self.user_position(follower).is_none() || self.user_position(followee).is_none() {
            return Err(DataError::MissingReference);
        }
        if self.edge_position(follower, followee).is_some() {
            return Err(DataError::DuplicateFollow);
        }
        let ghost s0 = *self;
        let e = Follower { follower_id: follower, followee_id: followee };
        self.followers.push(e);
        proof {
            lemma_users_kept(s0, *self);
            lemma_posts_kept(s0, *self);
            lemma_refs_kept(s0, *self);
            assert forall|i: int| 0 <= i < self.edges().len() implies self.has_user(
                (#[trigger] self.edges()[i]).follower_id,
            ) && self.has_user(self.edges()[i].followee_id) by {
                if i < s0.edges().len() {
                    assert(s0.has_user(s0.edges()[i].follower_id));
                    assert(s0.has_user(s0.edges()[i].followee_id));
                }
            }
            assert forall|i: int, j: int|
                0 <= i < self.edges().len() && 0 <= j < self.edges().len() && i != j implies
                self.edges()[i] != self.edges()[j] by {
                if i < s0.edges().len() && j < s0.edges().len() {
                } else if i < s0.edges().len() {
                    assert(s0.edges().contains(s0.edges()[i]));
                } else {
                    assert(s0.edges().contains(s0.edges()[j]));
                }
            }
        }
        Ok(true)
    }

    /// The posts that `uid` wrote.
    pub fn list_posts_for_user(&self, uid: i32) -> (r: Vec<Post>)
        ensures
            r@ == self.posts_for_user(uid),
    {
        let mut out: Vec<Post> = Vec::new();
        let mut i: usize = 0;
        while i < self.posts.len()
            invariant
                i <= self.posts@.len(),
                out@ == self.posts@.take(i as int).filter(by_user(uid)),
            decreases self.posts@.len() - i,
        {
            proof {
                lemma_filter_take_step(self.posts@, by_user(uid), i as int);
            }
            if self.posts[i].user_id == uid {
                out.push(self.posts[i].clone());
            }
            i = i + 1;
        }
        proof {
            assert(self.posts@.take(i as int) =~= self.posts@);
        }
        out
    }

    /// The comments on the post `pid`.
    pub fn list_comments_for_post(&self, pid: i32) -> (r: Vec<Comment>)
        ensures
            r@ == self.comments_for_post(pid),
    {
        let mut out: Vec<Comment> = Vec::new();
        let mut i: usize = 0;
        while i < self.comments.len()
            invariant
                i <= self.comments@.len(),
                out@ == self.comments@.take(i as int).filter(on_post(pid)),
            decreases self.comments@.len() - i,
        {
            proof {
                lemma_filter_take_step(self.comments@, on_post(pid), i as int);
            }
            if self.comments[i].post_id == pid {
                out.push(self.comments[i].clone());
            }
            i = i + 1;
        }
        proof {
            assert(self.comments@.take(i as int) =~= self.comments@);
        }
        out
    }

    /// The users that follow `uid`, joined from the edges
    /// that end at `uid`.
    pub fn list_followers(&self, uid: i32) -> (r: Vec<User>)
        requires
            self.wf(),
        ensures
            r@ == self.followers_of(uid),
    {
        let ghost es = self.followers@;
        let mut out: Vec<User> = Vec::new();
        let mut i: usize = 0;
        while i < self.followers.len()
            invariant
                self.wf(),
                es == self.followers@,
                i <= es.len(),
                out@ == self.follower_users(es.take(i as int).filter(into_user(uid))),
            decreases es.len() - i,
        {
            proof {
                lemma_filter_take_step(es, into_user(uid), i as int);
            }
            let e = self.followers[i];
            if e.followee_id == uid {
                proof {
                    assert(self.has_user(self.edges()[i as int].follower_id));
                }
                let j = self.user_position(e.follower_id).unwrap();
                proof {
                    self.lemma_user_row(j as int);
                    let f = es.take(i as int).filter(into_user(uid));
                    assert(self.follower_users(f.push(e)) =~= self.follower_users(f).push(
                        self.user_row(e.follower_id),
                    ));
                }
                out.push(self.users[j].clone());
            }
            i = i + 1;
        }
        proof {
            assert(es.take(i as int) =~= es);
        }
        out
    }

    /// The users that `uid` follows, joined from the edges
    /// that start at `uid`.
    pub fn list_followees(&self, uid: i32) -> (r: Vec<User>)
        requires
            self.wf(),
        ensures
            r@ == self.followees_of(uid),
    {
        let ghost es = self.followers@;
        let mut out: Vec<User> = Vec::new();
        let mut i: usize = 0;
        while i < self.followers.len()
            invariant
                self.wf(),
                es == self.followers@,
                i <= es.len(),
                out@ == self.followee_users(es.take(i as int).filter(from_user(uid))),
            decreases es.len() - i,
        {
            proof {
                lemma_filter_take_step(es, from_user(uid), i as int);
            }
            let e = self.followers[i];
            if e.follower_id == uid {
                proof {
                    assert(self.has_user(self.edges()[i as int].followee_id));
                }
                let j = self.user_position(e.followee_id).unwrap();
                proof {
                    self.lemma_user_row(j as int);
                    let f = es.take(i as int).filter(from_user(uid));
                    assert(self.followee_users(f.push(e)) =~= self.followee_users(f).push(
                        self.user_row(e.followee_id),
                    ));
                }
                out.push(self.users[j].clone());
            }
            i = i + 1;
        }
        proof {
            assert(es.take(i as int) =~= es);
        }
        out
    }

    /// The user `follower`, where it follows
    /// `followee`.
    pub fn get_follower(&self, followee: i32, follower: i32) -> (r: Option<User>)
        requires
            self.wf(),
        ensures
            r == self.follower_of(followee, follower),
    {
        match self.edge_position(follower, followee) {
            Some(k) => {
                proof {
                    assert(self.has_user(self.edges()[k as int].follower_id));
                    assert(self.edges().contains(self.edges()[k as int]));
                }
                let j = self.user_position(follower).unwrap();
                proof {
                    self.lemma_user_row(j as int);
                }
                Some(self.users[j].clone())
            },
            None => None,
        }
    }

    /// The user `followee`, where
    /// `follower` follows it.
    pub fn get_followee(&self, follower: i32, followee: i32) -> (r: Option<User>)
        requires
            self.wf(),
        ensures
            r == self.followee_of(follower, followee),
    {
        match self.edge_position(follower, followee) {
            Some(k) => {
                proof {
                    assert(self.has_user(self.edges()[k as int].followee_id));
                    assert(self.edges().contains(self.edges()[k as int]));
                }
                let j = self.user_position(followee).unwrap();
                proof {
                    self.lemma_user_row(j as int);
                }
                Some(self.users[j].clone())
            },
            None => None,
        }
    }

    /// The comment `id`, where it is on the
    /// post `pid`.
    pub fn get_comment_for_post(&self, pid: i32, id: i32) -> (r: Option<Comment>)
        requires
            self.wf(),
        ensures
            r == self.comment_for_post(pid, id),
    {
        match self.get_comment_by_id(id) {
            Some(c) => if c.post_id == pid {
                Some(c)
            } else {
                None
            },
            None => None,
        }
    }

    /// The user who wrote `post`.
    pub fn user_for_post(&self, post: &Post) -> (r: Result<User, DataError>)
        requires
            self.wf(),
        ensures
            r == Store::required(self.lookup_user(post.user_id)),
            self.posts().contains(*post) ==> r is Ok,
    {
        proof {
            if self.posts().contains(*post) {
                let i = choose|i: int| 0 <= i < self.posts().len() && self.posts()[i] == *post;
                assert(self.has_user(self.posts()[i].user_id));
            }
        }
        match self.get_user_by_id(post.user_id) {
            Some(u) => Ok(u),
            None => Err(DataError::NotFound),
        }
    }

    /// The user who wrote `comment`.
    pub fn user_for_comment(&self, comment: &Comment) -> (r: Result<User, DataError>)
        requires
            self.wf(),
        ensures
            r == Store::required(self.lookup_user(comment.user_id)),
            self.comments().contains(*comment) ==> r is Ok,
    {
        proof {
            if self.comments().contains(*comment) {
                let i = choose|i: int| 0 <= i < self.comments().len() && self.comments()[i] == *comment;
                assert(self.has_user(self.comments()[i].user_id));
            }
        }
        match self.get_user_by_id(comment.user_id) {
            Some(u) => Ok(u),
            None => Err(DataError::NotFound),
        }
    }

    /// The post that `comment` is on.
    pub fn post_for_comment(&self, comment: &Comment) -> (r: Result<Post, DataError>)
        requires
            self.wf(),
        ensures
            r == Store::required(self.lookup_post(comment.post_id)),
            self.comments().contains(*comment) ==> r is Ok,
    {
        proof {
            if self.comments().contains(*comment) {
                let i = choose|i: int| 0 <= i < self.comments().len() && self.comments()[i] == *comment;
                assert(self.has_user(self.comments()[i].user_id));
                assert(self.has_post(self.comments()[i].post_id));
            }
        }
        match self.get_post_by_id(comment.post_id) {
            Some(p) => Ok(p),
            None => Err(DataError::NotFound),
        }
    }

    fn user_is_referenced(&self, id: i32) -> (r: bool)
        ensures
            r == self.user_referenced(id),
    {
        let mut i: usize = 0;
        while i < self.posts.len()
            invariant
                i <= self.posts@.len(),
                forall|k: int| 0 <= k < i ==> (#[trigger] self.posts@[k]).user_id != id,
            decreases self.posts@.len() - i,
        {
            if self.posts[i].user_id == id {
                proof {
                    assert(self.posts()[i as int].user_id == id);
                }
                return true;
            }
            i = i + 1;
        }
        let mut i: usize = 0;
        while i < self.comments.len()
            invariant
                i <= self.comments@.len(),
                forall|k: int| 0 <= k < i ==> (#[trigger] self.comments@[k]).user_id != id,
            decreases self.comments@.len() - i,
        {
            if self.comments[i].user_id == id {
                proof {
                    assert(self.comments()[i as int].user_id == id);
                }
                return true;
            }
            i = i + 1;
        }
        let mut i: usize = 0;
        while i < self.followers.len()
            invariant
                i <= self.followers@.len(),
                forall|k: int|
                    0 <= k < i ==> (#[trigger] self.followers@[k]).follower_id != id
                        && self.followers@[k].followee_id != id,
            decreases self.followers@.len() - i,
        {
            if self.followers[i].follower_id == id || self.followers[i].followee_id == id {
                proof {
                    assert(self.edges()[i as int].follower_id == id || self.edges()[i as int].followee_id == id);
                }
                return true;
            }
            i = i + 1;
        }
        proof {
            assert(self.posts@ == self.posts());
            assert(self.comments@ == self.comments());
            assert(self.followers@ == self.edges());
        }
        false
    }

    fn post_is_referenced(&self, id: i32) -> (r: bool)
        ensures
            r == self.post_referenced(id),
    {
        let mut i: usize = 0;
        while i < self.comments.len()
            invariant
                i <= self.comments@.len(),
                forall|k: int| 0 <= k < i ==> (#[trigger] self.comments@[k]).post_id != id,
            decreases self.comments@.len() - i,
        {
            if self.comments[i].post_id == id {
                proof {
                    assert(self.comments()[i as int].post_id == id);
                }
                return true;
            }
            i = i + 1;
        }
        false
    }

    /// Removes the user `id`, unless a post, comment or edge
    /// still names them; `Ok(false)` where there is no such user.
    pub fn delete_user(&mut self, id: i32) -> (r: Result<bool, DataError>)
        requires
            old(self).wf(),
        ensures
            final(self).wf(),
            deleted_user(*old(self), id, r, *final(self)),
    {
        let j = match self.user_position(id) {
            Some(j) => j,
            None => {
                return Ok(false);
            },
        };
        if self.user_is_referenced(id) {
            return Err(DataError::StillReferenced);
        }
        let ghost s0 = *self;
        proof {
            let k = s0.user_index(id);
            assert(s0.users()[k].id == s0.users()[j as int].id);
        }
        self.users.remove(j);
        proof {
            lemma_user_removed(s0, *self, j as int);
        }
        Ok(true)
    }

    /// Removes the post `id`, unless a comment still names it;
    /// `Ok(false)` where there is no such post.
    pub fn delete_post(&mut self, id: i32) -> (r: Result<bool, DataError>)
        requires
            old(self).wf(),
        ensures
            final(self).wf(),
            deleted_post(*old(self), id, r, *final(self)),
    {
        let j = match self.post_position(id) {
            Some(j) => j,
            None => {
                return Ok(false);
            },
        };
        if self.post_is_referenced(id) {
            return Err(DataError::StillReferenced);
        }
        let ghost s0 = *self;
        proof {
            let k = s0.post_index(id);
            assert(s0.posts()[k].id == s0.posts()[j as int].id);
        }
        self.posts.remove(j);
        proof {
            lemma_post_removed(s0, *self, j as int);
        }
        Ok(true)
    }

    /// Removes the comment `id`; `false` where there is no
    /// such comment.
    pub fn delete_comment(&mut self, id: i32) -> (r: bool)
        requires
            old(self).wf(),
        ensures
            final(self).wf(),
            deleted_comment(*old(self), id, r, *final(self)),
    {
        let j = match self.comment_position(id) {
            Some(j) => j,
            None => {
                return false;
            },
        };
        let ghost s0 = *self;
        proof {
            let k = s0.comment_index(id);
            assert(s0.comments()[k].id == s0.comments()[j as int].id);
        }
        self.comments.remove(j);
        proof {
            lemma_comment_removed(s0, *self, j as int);
        }
        true
    }

    /// `unfollow(follower, followee)`: removes that edge; `false` where there
    /// is no such edge.
    pub fn unfollow(&mut self, follower: i32, followee: i32) -> (r: bool)
        requires
            old(self).wf(),
        ensures
            final(self).wf(),
            unfollowed(*old(self), follower, followee, r, *final(self)),
    {
        let j = match self.edge_position(follower, followee) {
            Some(j) => j,
            None => {
                return false;
            },
        };
        let ghost s0 = *self;
        proof {
            let e = Follower { follower_id: follower, followee_id: followee };
            let k = s0.edge_index(e);
            assert(s0.edges()[k] == s0.edges()[j as int]);
        }
        self.followers.remove(j);
        proof {
            lemma_edge_removed(s0, *self, j as int);
        }
        true
    }
}

} // verus!
