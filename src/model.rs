use vstd::prelude::*;

verus! {

/// A registered account as listed to clients; the password hash is not part of it.
#[derive(Debug)]
pub struct User {
    pub id: i64,
    pub email: String,
    pub username: String,
    pub name: String,
}

/// The public face of an account, shown in follow and like listings.
#[derive(Debug)]
pub struct UserPublic {
    pub id: i64,
    pub username: String,
    pub name: String,
}

/// The answer to a successful login.
#[derive(Debug)]
pub struct LoginResponse {
    pub id: i64,
    pub token: String,
}

/// A list of users.
#[derive(Debug)]
pub struct UserVec<T> {
    pub users: Vec<T>,
}

/// A post as shown to clients. Instants are Unix seconds.
#[derive(Debug)]
pub struct Post {
    pub id: i64,
    pub content: String,
    pub user_id: i64,
    pub edited: bool,
    pub created_at: i64,
    pub last_updated_at: i64,
}

/// A list of posts.
#[derive(Debug)]
pub struct PostVec {
    pub posts: Vec<Post>,
}

/// The content a post had just before one of its updates.
#[derive(Debug)]
pub struct PostVersion {
    pub id: i64,
    pub content: String,
    pub version: i64,
    pub post_id: i64,
}

/// The edit history of a post, oldest version first.
#[derive(Debug)]
pub struct PostVersionVec {
    pub post_versions: Vec<PostVersion>,
}

impl User {
    pub fn copy(&self) -> (r: User)
        ensures
            r == *self,
    {
        User {
            id: self.id,
            email: self.email.clone(),
            username: self.username.clone(),
            name: self.name.clone(),
        }
    }

    pub open spec fn public(self) -> UserPublic {
        UserPublic { id: self.id, username: self.username, name: self.name }
    }

    pub fn to_public(&self) -> (r: UserPublic)
        ensures
            r == self.public(),
    {
        UserPublic { id: self.id, username: self.username.clone(), name: self.name.clone() }
    }
}

impl Post {
    pub fn copy(&self) -> (r: Post)
        ensures
            r == *self,
    {
        Post {
            id: self.id,
            content: self.content.clone(),
            user_id: self.user_id,
            edited: self.edited,
            created_at: self.created_at,
            last_updated_at: self.last_updated_at,
        }
    }
}

impl PostVersion {
    pub fn copy(&self) -> (r: PostVersion)
        ensures
            r == *self,
    {
        PostVersion {
            id: self.id,
            content: self.content.clone(),
            version: self.version,
            post_id: self.post_id,
        }
    }
}

} // verus!
