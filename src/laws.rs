//! Properties that relate several operations of the store, proved from the
//! relations that the operations' contracts state.
use vstd::prelude::*;
use crate::models::{Follower, NewPost, NewUser, Post, User};
use crate::store::{
    by_user, created_post, created_user, deleted_user, followed, from_user, into_user,
    lemma_edge_removed, lemma_filter_no_duplicates, lemma_user_removed, unfollowed, DataError,
    Store,
};

verus! {

/// A filter over a sequence with one more element at its end keeps or drops
/// that element on its own.
pub proof fn lemma_filter_push<A>(s: Seq<A>, x: A, p: spec_fn(A) -> bool)
    ensures
        s.push(x).filter(p) == (if p(x) {
            s.filter(p).push(x)
        } else {
            s.filter(p)
        }),
{
    reveal(Seq::filter);
    assert(s.push(x).drop_last() =~= s);
}

/// A user that `create_user` returned is found again by its id, with the
/// email it was created with.
pub proof fn law_created_user_is_found(s0: Store, new_user: NewUser, u: User, s1: Store)
    requires
        s0.wf(),
        created_user(s0, new_user, Ok(u), s1),
    ensures
        s1.lookup_user(u.id) == Some(u),
        u.email == new_user.email,
{
    let last = s0.users().len() as int;
    assert(s1.users()[last] == u);
    assert(s1.has_user(u.id));
    s1.lemma_user_row_id(u.id);
    let k = choose|k: int| 0 <= k < s1.users().len() && s1.users()[k] == s1.user_row(u.id);
    if k != last {
        assert(s0.users()[k].id < s0.next_user_id());
    }
}

/// `delete_user(id)` returns `false` exactly where there is no user `id`; a
/// user whom no post, comment or edge names is removed, `true` comes back,
/// and a later lookup of `id` finds nothing.
pub proof fn law_deleted_user_is_gone(s0: Store, id: i32, r: Result<bool, DataError>, s1: Store)
    requires
        s0.wf(),
        deleted_user(s0, id, r, s1),
    ensures
        r == Ok::<bool, DataError>(false) <==> !s0.has_user(id),
        s0.has_user(id) && !s0.user_referenced(id) ==> r == Ok::<bool, DataError>(true)
            && s1.lookup_user(id) == None::<User> && s1.users().len() == s0.users().len() - 1,
{
    if s0.has_user(id) && !s0.user_referenced(id) {
        let j = s0.user_index(id);
        let i = choose|i: int| 0 <= i < s0.users().len() && #[trigger] s0.users()[i].id == id;
        assert(0 <= j < s0.users().len() && s0.users()[j].id == id);
        lemma_user_removed(s0, s1, j);
    }
}

/// `list_posts_for_user(uid)` holds exactly the posts of the store whose owner
/// is `uid`.
pub proof fn law_posts_for_user_are_theirs(s: Store, uid: i32)
    ensures
        forall|p: Post|
            s.posts_for_user(uid).contains(p) <==> s.posts().contains(p) && p.user_id == uid,
{
    assert forall|p: Post| s.posts_for_user(uid).contains(p) implies s.posts().contains(p)
        && p.user_id == uid by {
        s.posts().lemma_filter_contains_rev(by_user(uid), p);
        let i = choose|i: int| 0 <= i < s.posts_for_user(uid).len() && s.posts_for_user(uid)[i] == p;
        s.posts().lemma_filter_pred(by_user(uid), i);
    }
    assert forall|p: Post| s.posts().contains(p) && p.user_id == uid implies s.posts_for_user(
        uid,
    ).contains(p) by {
        let i = choose|i: int| 0 <= i < s.posts().len() && s.posts()[i] == p;
        s.posts().lemma_filter_contains(by_user(uid), i);
    }
}

/// A post that `create_post` returned joins the end of its owner's list of
/// posts, and no other user's list changes.
pub proof fn law_created_post_is_listed(s0: Store, new_post: NewPost, p: Post, s1: Store)
    requires
        created_post(s0, new_post, Ok(p), s1),
    ensures
        p.user_id == new_post.user_id,
        s1.posts_for_user(p.user_id) == s0.posts_for_user(p.user_id).push(p),
        forall|uid: i32| uid != p.user_id ==> s1.posts_for_user(uid) == s0.posts_for_user(uid),
{
    lemma_filter_push(s0.posts(), p, by_user(p.user_id));
    assert forall|uid: i32| uid != p.user_id implies s1.posts_for_user(uid) == s0.posts_for_user(
        uid,
    ) by {
        lemma_filter_push(s0.posts(), p, by_user(uid));
    }
}

/// In a well-formed store, the followers of `b` list the user `a` once for
/// each edge from `a` to `b`: once where the edge exists, never where not.
pub proof fn lemma_followers_count(s: Store, a: i32, b: i32)
    requires
        s.wf(),
    ensures
        s.edges().contains(Follower { follower_id: a, followee_id: b }) ==> exists|i: int|
            0 <= i < s.followers_of(b).len() && s.followers_of(b)[i].id == a,
        forall|i: int, j: int|
            0 <= i < s.followers_of(b).len() && 0 <= j < s.followers_of(b).len()
                && s.followers_of(b)[i].id == a && s.followers_of(b)[j].id == a ==> i == j,
        !s.edges().contains(Follower { follower_id: a, followee_id: b }) ==> forall|i: int|
            0 <= i < s.followers_of(b).len() ==> s.followers_of(b)[i].id != a,
{
    let e = Follower { follower_id: a, followee_id: b };
    let es = s.edges();
    let f = es.filter(into_user(b));
    lemma_filter_no_duplicates(es, into_user(b));
    assert forall|i: int| 0 <= i < f.len() implies s.followers_of(b)[i].id == f[i].follower_id
        && f[i].followee_id == b && es.contains(f[i]) by {
        es.lemma_filter_pred(into_user(b), i);
        assert(f.contains(f[i]));
        es.lemma_filter_contains_rev(into_user(b), f[i]);
        let k = choose|k: int| 0 <= k < es.len() && es[k] == f[i];
        assert(s.has_user(es[k].follower_id));
        s.lemma_user_row_id(f[i].follower_id);
    }
    if es.contains(e) {
        let k = choose|k: int| 0 <= k < es.len() && es[k] == e;
        es.lemma_filter_contains(into_user(b), k);
        let i = choose|i: int| 0 <= i < f.len() && f[i] == e;
        assert(s.followers_of(b)[i].id == a);
    }
    assert forall|i: int, j: int|
        0 <= i < s.followers_of(b).len() && 0 <= j < s.followers_of(b).len()
            && s.followers_of(b)[i].id == a && s.followers_of(b)[j].id == a implies i == j by {
        assert(f[i] == e);
        assert(f[j] == e);
    }
}

/// After `follow(a, b)` succeeds, the followers of `b` list `a` exactly once.
pub proof fn law_follow_lists_once(s0: Store, a: i32, b: i32, s1: Store)
    requires
        s0.wf(),
        s1.wf(),
        followed(s0, a, b, Ok(true), s1),
    ensures
        exists|i: int| 0 <= i < s1.followers_of(b).len() && s1.followers_of(b)[i].id == a,
        forall|i: int, j: int|
            0 <= i < s1.followers_of(b).len() && 0 <= j < s1.followers_of(b).len()
                && s1.followers_of(b)[i].id == a && s1.followers_of(b)[j].id == a ==> i == j,
{
    let e = Follower { follower_id: a, followee_id: b };
    assert(s1.edges()[s0.edges().len() as int] == e);
    assert(s1.edges().contains(e));
    lemma_followers_count(s1, a, b);
}

/// `unfollow(a, b)` returns whether the edge existed, and afterwards the
/// followers of `b` no longer list `a`.
pub proof fn law_unfollow_unlists(s0: Store, a: i32, b: i32, r: bool, s1: Store)
    requires
        s0.wf(),
        unfollowed(s0, a, b, r, s1),
    ensures
        r == s0.edges().contains(Follower { follower_id: a, followee_id: b }),
        forall|i: int| 0 <= i < s1.followers_of(b).len() ==> s1.followers_of(b)[i].id != a,
{
    let e = Follower { follower_id: a, followee_id: b };
    if s0.edges().contains(e) {
        let j = s0.edge_index(e);
        lemma_edge_removed(s0, s1, j);
    }
    lemma_followers_count(s1, a, b);
}

/// `follow(a, b)` adds `a` to the followers of `b` and `b` to the followees
/// of `a`, and changes no other list of followers or followees: the edge is
/// never read the other way round.
pub proof fn law_follow_direction(s0: Store, a: i32, b: i32, s1: Store)
    requires
        followed(s0, a, b, Ok(true), s1),
    ensures
        s1.followers_of(b) == s0.followers_of(b).push(s0.user_row(a)),
        s1.followees_of(a) == s0.followees_of(a).push(s0.user_row(b)),
        forall|x: i32| x != b ==> s1.followers_of(x) == s0.followers_of(x),
        forall|x: i32| x != a ==> s1.followees_of(x) == s0.followees_of(x),
{
    let e = Follower { follower_id: a, followee_id: b };
    assert forall|x: i32| true implies s1.followers_of(x) == (if x == b {
        s0.followers_of(x).push(s0.user_row(a))
    } else {
        s0.followers_of(x)
    }) by {
        lemma_filter_push(s0.edges(), e, into_user(x));
        let f = s0.edges().filter(into_user(x));
        assert(s1.follower_users(f) =~= s0.follower_users(f));
        assert(s1.follower_users(f.push(e)) =~= s0.follower_users(f).push(s0.user_row(a)));
    }
    assert forall|x: i32| true implies s1.followees_of(x) == (if x == a {
        s0.followees_of(x).push(s0.user_row(b))
    } else {
        s0.followees_of(x)
    }) by {
        lemma_filter_push(s0.edges(), e, from_user(x));
        let f = s0.edges().filter(from_user(x));
        assert(s1.followee_users(f) =~= s0.followee_users(f));
        assert(s1.followee_users(f.push(e)) =~= s0.followee_users(f).push(s0.user_row(b)));
    }
}

} // verus!
