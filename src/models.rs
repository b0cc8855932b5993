//! Plain records for the four relations: a readable row type per table and,
//! where the table has a generated id, an insertable type without it.
use vstd::prelude::*;

verus! {

/// A row of `users`.
#[derive(Debug, PartialEq, Eq)]
pub struct User {
    pub id: i32,
    pub email: String,
}

/// The fields of a user to be inserted; the id is generated by the store.
#[derive(Debug, PartialEq, Eq)]
pub struct NewUser {
    pub email: String,
}

/// A row of `posts`, owned by the user `user_id`.
#[derive(Debug, PartialEq, Eq)]
pub struct Post {
    pub id: i32,
    pub user_id: i32,
    pub title: String,
    pub body: String,
}

/// The fields of a post to be inserted.
#[derive(Debug, PartialEq, Eq)]
pub struct NewPost {
    pub user_id: i32,
    pub title: String,
    pub body: String,
}

/// A row of `comments`, written by `user_id` on the post `post_id`.
#[derive(Debug, PartialEq, Eq)]
pub struct Comment {
    pub id: i32,
    pub user_id: i32,
    pub post_id: i32,
    pub title: String,
    pub body: String,
}

/// The fields of a comment to be inserted.
#[derive(Debug, PartialEq, Eq)]
pub struct NewComment {
    pub user_id: i32,
    pub post_id: i32,
    pub title: String,
    pub body: String,
}

/// A row of `followers`: the user `follower_id` follows the user `followee_id`.
/// The pair is the row's key.
#[derive(Clone, Copy, Debug, PartialEq, Eq, Structural)]
pub struct Follower {
    pub follower_id: i32,
    pub followee_id: i32,
}

impl Clone for User {
    fn clone(&self) -> (r: Self)
        ensures
            r == *self,
    {
        User { id: self.id, email: self.email.clone() }
    }
}

impl Clone for NewUser {
    fn clone(&self) -> (r: Self)
        ensures
            r == *self,
    {
        NewUser { email: self.email.clone() }
    }
}

impl Clone for Post {
    fn clone(&self) -> (r: Self)
        ensures
            r == *self,
    {
        Post { id: self.id, user_id: self.user_id, title: self.title.clone(), body: self.body.clone() }
    }
}

impl Clone for NewPost {
    fn clone(&self) -> (r: Self)
        ensures
            r == *self,
    {
        NewPost { user_id: self.user_id, title: self.title.clone(), body: self.body.clone() }
    }
}

impl Clone for Comment {
    fn clone(&self) -> (r: Self)
        ensures
            r == *self,
    {
        Comment {
            id: self.id,
            user_id: self.user_id,
            post_id: self.post_id,
            title: self.title.clone(),
            body: self.body.clone(),
        }
    }
}

impl Clone for NewComment {
    fn clone(&self) -> (r: Self)
        ensures
            r == *self,
    {
        NewComment {
            user_id: self.user_id,
            post_id: self.post_id,
            title: self.title.clone(),
            body: self.body.clone(),
        }
    }
}

} // verus!
