use crate::error::Error;
use crate::jwt::{claims_map, token_fields, Claims, TOKEN_LIFETIME};
use crate::model::{LoginResponse, Post, PostVec, PostVersion, PostVersionVec, User, UserPublic, UserVec};
use crate::password::{hash_password, password_check, verify_outcome, verify_password};
use vstd::prelude::*;

verus! {

/// A stored account: the fields that are listed, and the password hash.
pub struct UserRow {
    pub user: User,
    pub hash_password: String,
}

/// A stored post, with its soft-delete mark.
pub struct PostRow {
    pub post: Post,
    pub deleted: bool,
}

/// The relations of the store, as sequences in insertion order.
pub ghost struct StoreView {
    pub users: Seq<UserRow>,
    pub posts: Seq<PostRow>,
    pub versions: Seq<PostVersion>,
    /// (following user, followed user)
    pub follows: Seq<(i64, i64)>,
    /// (liking user, liked post)
    pub likes: Seq<(i64, i64)>,
    pub next_id: i64,
}

/// The service's persistent state: accounts, posts with their archived versions,
/// and the follow and like relations.
pub struct Store {
    users: Vec<UserRow>,
    posts: Vec<PostRow>,
    versions: Vec<PostVersion>,
    follows: Vec<(i64, i64)>,
    likes: Vec<(i64, i64)>,
    next_id: i64,
}

impl View for Store {
    type V = StoreView;

    closed spec fn view(&self) -> StoreView {
        StoreView {
            users: self.users@,
            posts: self.posts@,
            versions: self.versions@,
            follows: self.follows@,
            likes: self.likes@,
            next_id: self.next_id,
        }
    }
}

/// The elements of `s` that `keep` accepts, each mapped by `f`, in order.
pub open spec fn select<A, B>(s: Seq<A>, keep: spec_fn(A) -> bool, f: spec_fn(A) -> B) -> Seq<B>
    decreases s.len(),
{
    if s.len() == 0 {
        Seq::empty()
    } else {
        let rest = select(s.drop_last(), keep, f);
        if keep(s.last()) {
            rest.push(f(s.last()))
        } else {
            rest
        }
    }
}

proof fn lemma_select_step<A, B>(s: Seq<A>, i: int, keep: spec_fn(A) -> bool, f: spec_fn(A) -> B)
    requires
        0 <= i < s.len(),
    ensures
        select(s.take(i + 1), keep, f) == (if keep(s[i]) {
            select(s.take(i), keep, f).push(f(s[i]))
        } else {
            select(s.take(i), keep, f)
        }),
{
    assert(s.take(i + 1).drop_last() =~= s.take(i));
}

/// The index of the first element of `s` that `p` accepts.
pub open spec fn first_index<A>(s: Seq<A>, p: spec_fn(A) -> bool) -> Option<int> {
    if exists|k: int| is_first(s, p, k) {
        Some(choose|k: int| is_first(s, p, k))
    } else {
        None
    }
}

pub open spec fn is_first<A>(s: Seq<A>, p: spec_fn(A) -> bool, k: int) -> bool {
    &&& 0 <= k < s.len()
    &&& p(s[k])
    &&& forall|j: int| 0 <= j < k ==> !p(s[j])
}

proof fn lemma_first_index_at<A>(s: Seq<A>, p: spec_fn(A) -> bool, k: int)
    requires
        is_first(s, p, k),
    ensures
        first_index(s, p) == Some(k),
{
    let c = choose|c: int| is_first(s, p, c);
    assert(is_first(s, p, c));
    if c < k {
        assert(!p(s[c]));
    } else if c > k {
        assert(!p(s[k]));
    }
}

proof fn lemma_first_index_none<A>(s: Seq<A>, p: spec_fn(A) -> bool)
    requires
        forall|k: int| 0 <= k < s.len() ==> !p(s[k]),
    ensures
        first_index(s, p) is None,
{
    if exists|k: int| is_first(s, p, k) {
        let c = choose|c: int| is_first(s, p, c);
        assert(!p(s[c]));
    }
}

/// Rows of the post `id`, deleted or not.
pub open spec fn post_is(id: i64) -> spec_fn(PostRow) -> bool {
    |r: PostRow| r.post.id == id
}

/// Rows of the post `id` that belong to `user_id` and are not deleted.
pub open spec fn own_visible_post(user_id: i64, id: i64) -> spec_fn(PostRow) -> bool {
    |r: PostRow| r.post.id == id && r.post.user_id == user_id && !r.deleted
}

/// Rows of the posts of `user_id` that are not deleted.
pub open spec fn own_visible(user_id: i64) -> spec_fn(PostRow) -> bool {
    |r: PostRow| r.post.user_id == user_id && !r.deleted
}

pub open spec fn row_post() -> spec_fn(PostRow) -> Post {
    |r: PostRow| r.post
}

/// Archived versions of the post `id`.
pub open spec fn version_of(id: i64) -> spec_fn(PostVersion) -> bool {
    |v: PostVersion| v.post_id == id
}

pub open spec fn same_version() -> spec_fn(PostVersion) -> PostVersion {
    |v: PostVersion| v
}

/// The edit history of the post `id`, oldest version first.
pub open spec fn history(s: StoreView, id: i64) -> Seq<PostVersion> {
    select(s.versions, version_of(id), same_version())
}

/// What creating a post returns, and the store after it.
pub open spec fn insert_post_result(s: StoreView, user_id: i64, content: String, now: i64) -> (
    Result<bool, Error>,
    StoreView,
) {
    if s.next_id == i64::MAX {
        (Err(Error::ServerError), s)
    } else {
        let post = Post {
            id: s.next_id,
            content,
            user_id,
            edited: false,
            created_at: now,
            last_updated_at: now,
        };
        (
            Ok(true),
            StoreView {
                posts: s.posts.push(PostRow { post, deleted: false }),
                next_id: (s.next_id + 1) as i64,
                ..s
            },
        )
    }
}

/// What updating the post `id` to `content` at `now` returns, and the store after
/// it: the content it had is archived as a new version, then replaced.
pub open spec fn update_result(s: StoreView, id: i64, content: String, now: i64) -> (
    Result<Post, Error>,
    StoreView,
) {
    match first_index(s.posts, post_is(id)) {
        None => (Err(Error::NotFound), s),
        Some(k) => {
            if s.next_id == i64::MAX {
                (Err(Error::ServerError), s)
            } else {
                let row = s.posts[k];
                let version = PostVersion {
                    id: s.next_id,
                    content: row.post.content,
                    version: now,
                    post_id: id,
                };
                let post = Post { content, edited: true, last_updated_at: now, ..row.post };
                (
                    Ok(post),
                    StoreView {
                        posts: s.posts.update(k, PostRow { post, deleted: row.deleted }),
                        versions: s.versions.push(version),
                        next_id: (s.next_id + 1) as i64,
                        ..s
                    },
                )
            }
        },
    }
}

/// What deleting the post `id` at `now` returns, and the store after it: the row
/// stays, marked deleted.
pub open spec fn delete_result(s: StoreView, id: i64, now: i64) -> (bool, StoreView) {
    match first_index(s.posts, post_is(id)) {
        None => (false, s),
        Some(k) => {
            let row = s.posts[k];
            let post = Post { last_updated_at: now, ..row.post };
            (true, StoreView { posts: s.posts.update(k, PostRow { post, deleted: true }), ..s })
        },
    }
}

/// Two updates of a post with no history leave exactly two archived versions,
/// the original content then the first update's, and the second update's content
/// as the post's own.
pub proof fn lemma_two_updates(s: StoreView, id: i64, c2: String, c3: String, t1: i64, t2: i64)
    requires
        first_index(s.posts, post_is(id)) is Some,
        history(s, id).len() == 0,
        s.next_id < i64::MAX - 1,
    ensures
        ({
            let c1 = s.posts[first_index(s.posts, post_is(id))->0].post.content;
            let s1 = update_result(s, id, c2, t1).1;
            let (r2, s2) = update_result(s1, id, c3, t2);
            let k = first_index(s2.posts, post_is(id))->0;
            &&& history(s2, id).len() == 2
            &&& history(s2, id)[0].content == c1
            &&& history(s2, id)[1].content == c2
            &&& r2 is Ok && r2->Ok_0.content == c3 && r2->Ok_0.edited
            &&& s2.posts[k].post == r2->Ok_0
        }),
{
    let k = first_index(s.posts, post_is(id))->0;
    let s1 = update_result(s, id, c2, t1).1;
    assert(is_first(s.posts, post_is(id), k));
    assert(is_first(s1.posts, post_is(id), k));
    lemma_first_index_at(s1.posts, post_is(id), k);
    let s2 = update_result(s1, id, c3, t2).1;
    assert(is_first(s2.posts, post_is(id), k));
    lemma_first_index_at(s2.posts, post_is(id), k);
    assert(s1.versions.drop_last() =~= s.versions);
    assert(s2.versions.drop_last() =~= s1.versions);
    assert(history(s1, id) == history(s, id).push(s1.versions.last()));
    assert(history(s2, id) == history(s1, id).push(s2.versions.last()));
}

/// Accounts whose username or email is already taken by `username` or `email`.
pub open spec fn name_taken(s: StoreView, username: Seq<char>, email: Seq<char>) -> bool {
    exists|k: int|
        0 <= k < s.users.len() && (s.users[k].user.username@ == username || s.users[k].user.email@
            == email)
}

/// What registering an account with an already derived password hash returns,
/// and the store after it.
pub open spec fn register_result(
    s: StoreView,
    username: String,
    email: String,
    name: String,
    hash_password: String,
) -> (Result<bool, Error>, StoreView) {
    if name_taken(s, username@, email@) {
        (Err(Error::Conflict), s)
    } else if s.next_id == i64::MAX {
        (Err(Error::ServerError), s)
    } else {
        let user = User { id: s.next_id, email, username, name };
        (
            Ok(true),
            StoreView {
                users: s.users.push(UserRow { user, hash_password }),
                next_id: (s.next_id + 1) as i64,
                ..s
            },
        )
    }
}

/// Accounts that a login names, by email or by username.
pub open spec fn login_match(username: Option<String>, email: Option<String>) -> spec_fn(
    UserRow,
) -> bool {
    |r: UserRow|
        (email matches Some(e) && r.user.email@ == e@) || (username matches Some(u)
            && r.user.username@ == u@)
}

/// The account a login is owed a token for, or the error it ends in. A wrong
/// password is reported as a missing account.
pub open spec fn login_outcome(
    s: StoreView,
    username: Option<String>,
    email: Option<String>,
    password: Seq<char>,
    now: i64,
) -> Result<i64, Error> {
    match first_index(s.users, login_match(username, email)) {
        None => Err(Error::NotFound),
        Some(k) => match verify_outcome(s.users[k].hash_password@, password) {
            Err(e) => Err(e),
            Ok(false) => Err(Error::NotFound),
            Ok(true) => {
                if now > i64::MAX - TOKEN_LIFETIME {
                    Err(Error::ServerError)
                } else {
                    Ok(s.users[k].user.id)
                }
            },
        },
    }
}

pub open spec fn user_is(id: i64) -> spec_fn(UserRow) -> bool {
    |r: UserRow| r.user.id == id
}

pub open spec fn any_user() -> spec_fn(UserRow) -> bool {
    |r: UserRow| true
}

pub open spec fn row_user() -> spec_fn(UserRow) -> User {
    |r: UserRow| r.user
}

pub open spec fn row_public() -> spec_fn(UserRow) -> UserPublic {
    |r: UserRow| r.user.public()
}

/// Accounts that `user_id` follows.
pub open spec fn followed_by(s: StoreView, user_id: i64) -> spec_fn(UserRow) -> bool {
    |r: UserRow| s.follows.contains((user_id, r.user.id))
}

/// Accounts that follow `user_id`.
pub open spec fn following(s: StoreView, user_id: i64) -> spec_fn(UserRow) -> bool {
    |r: UserRow| s.follows.contains((r.user.id, user_id))
}

/// Accounts that like the post `post_id`.
pub open spec fn liking(s: StoreView, post_id: i64) -> spec_fn(UserRow) -> bool {
    |r: UserRow| s.likes.contains((r.user.id, post_id))
}

/// Post rows that `user_id` likes, deleted or not.
pub open spec fn liked_by(s: StoreView, user_id: i64) -> spec_fn(PostRow) -> bool {
    |r: PostRow| s.likes.contains((user_id, r.post.id))
}

/// Post rows written by an account that `user_id` follows, deleted or not.
pub open spec fn in_feed(s: StoreView, user_id: i64) -> spec_fn(PostRow) -> bool {
    |r: PostRow| s.follows.contains((user_id, r.post.user_id))
}

/// Newest first: creation instants never increase along the sequence.
pub open spec fn newest_first(p: Seq<Post>) -> bool {
    forall|i: int, j: int| 0 <= i < j < p.len() ==> p[i].created_at >= p[j].created_at
}

/// `out` is a feed of `user_id`: the posts written by the accounts it follows, each
/// as often as it is stored, newest first.
pub open spec fn is_feed(s: StoreView, user_id: i64, out: Seq<Post>) -> bool {
    &&& out.to_multiset() == select(s.posts, in_feed(s, user_id), row_post()).to_multiset()
    &&& newest_first(out)
}

proof fn lemma_select_contains<A, B>(s: Seq<A>, keep: spec_fn(A) -> bool, f: spec_fn(A) -> B, y: B)
    ensures
        select(s, keep, f).contains(y) <==> exists|k: int| 0 <= k < s.len() && keep(s[k]) && f(s[k]) == y,
    decreases s.len(),
{
    if s.len() > 0 {
        let init = s.drop_last();
        lemma_select_contains(init, keep, f, y);
        let rest = select(init, keep, f);
        if exists|k: int| 0 <= k < s.len() && keep(s[k]) && f(s[k]) == y {
            let k = choose|k: int| 0 <= k < s.len() && keep(s[k]) && f(s[k]) == y;
            if k < s.len() - 1 {
                assert(init[k] == s[k]);
                let j = choose|j: int| 0 <= j < rest.len() && rest[j] == y;
                if keep(s.last()) {
                    assert(select(s, keep, f)[j] == y);
                }
            } else {
                assert(s.last() == s[k]);
                assert(select(s, keep, f)[select(s, keep, f).len() - 1] == y);
            }
        }
        if select(s, keep, f).contains(y) {
            let j = choose|j: int| 0 <= j < select(s, keep, f).len() && select(s, keep, f)[j] == y;
            if j < rest.len() {
                assert(rest[j] == y);
                let k = choose|k: int| 0 <= k < init.len() && keep(init[k]) && f(init[k]) == y;
                assert(s[k] == init[k]);
            } else {
                assert(s[s.len() - 1] == s.last());
            }
        }
    }
}

/// A feed holds exactly the posts written by followed accounts, newest first: a
/// post by an account that is not followed never appears.
pub proof fn lemma_feed_members(s: StoreView, user_id: i64, out: Seq<Post>, p: Post)
    requires
        is_feed(s, user_id, out),
    ensures
        out.contains(p) <==> (s.follows.contains((user_id, p.user_id)) && exists|k: int|
            0 <= k < s.posts.len() && s.posts[k].post == p),
        !s.follows.contains((user_id, p.user_id)) ==> !out.contains(p),
        newest_first(out),
{
    let sel = select(s.posts, in_feed(s, user_id), row_post());
    vstd::seq_lib::to_multiset_contains(out, p);
    vstd::seq_lib::to_multiset_contains(sel, p);
    lemma_select_contains(s.posts, in_feed(s, user_id), row_post(), p);
    if s.follows.contains((user_id, p.user_id)) && exists|k: int|
        0 <= k < s.posts.len() && s.posts[k].post == p {
        let k = choose|k: int| 0 <= k < s.posts.len() && s.posts[k].post == p;
        assert(in_feed(s, user_id)(s.posts[k]));
    }
}

/// No account appears twice in a listing.
pub open spec fn distinct_ids(users: Seq<UserPublic>) -> bool {
    forall|i: int, j: int| 0 <= i < j < users.len() ==> users[i].id != users[j].id
}

proof fn lemma_listing_distinct(users: Seq<UserRow>, keep: spec_fn(UserRow) -> bool)
    requires
        forall|i: int, j: int| 0 <= i < j < users.len() ==> users[i].user.id != users[j].user.id,
    ensures
        distinct_ids(select(users, keep, row_public())),
    decreases users.len(),
{
    if users.len() > 0 {
        let init = users.drop_last();
        assert forall|i: int, j: int| 0 <= i < j < init.len() implies init[i].user.id
            != init[j].user.id by {
            assert(init[i] == users[i] && init[j] == users[j]);
        }
        lemma_listing_distinct(init, keep);
        let rest = select(init, keep, row_public());
        if keep(users.last()) {
            let out = select(users, keep, row_public());
            assert forall|a: int, b: int| 0 <= a < b < out.len() implies out[a].id != out[b].id by {
                if b == out.len() - 1 {
                    assert(out[a] == rest[a]);
                    assert(rest.contains(rest[a]));
                    lemma_select_contains(init, keep, row_public(), rest[a]);
                    let k = choose|k: int|
                        0 <= k < init.len() && keep(init[k]) && row_public()(init[k]) == rest[a];
                    assert(init[k] == users[k]);
                    assert(users.last() == users[users.len() - 1]);
                } else {
                    assert(out[a] == rest[a] && out[b] == rest[b]);
                }
            }
        }
    }
}

impl StoreView {
    /// Each relation holds each edge at most once; account ids are distinct, post ids
    /// are distinct, and both stay below the next fresh id, which is positive.
    pub open spec fn wf(self) -> bool {
        &&& self.follows.no_duplicates()
        &&& self.likes.no_duplicates()
        &&& self.next_id >= 1
        &&& forall|i: int, j: int|
            0 <= i < j < self.users.len() ==> self.users[i].user.id != self.users[j].user.id
        &&& forall|k: int| 0 <= k < self.users.len() ==> self.users[k].user.id < self.next_id
        &&& forall|i: int, j: int|
            0 <= i < j < self.posts.len() ==> self.posts[i].post.id != self.posts[j].post.id
        &&& forall|k: int| 0 <= k < self.posts.len() ==> self.posts[k].post.id < self.next_id
    }

    pub open spec fn has_user(self, id: i64) -> bool {
        exists|k: int| 0 <= k < self.users.len() && self.users[k].user.id == id
    }

    pub open spec fn has_post(self, id: i64) -> bool {
        exists|k: int| 0 <= k < self.posts.len() && self.posts[k].post.id == id
    }

    /// The same store with a different follow relation.
    pub open spec fn with_follows(self, follows: Seq<(i64, i64)>) -> StoreView {
        StoreView { follows, ..self }
    }

    /// The same store with a different like relation.
    pub open spec fn with_likes(self, likes: Seq<(i64, i64)>) -> StoreView {
        StoreView { likes, ..self }
    }
}

/// How many times `e` stands in `s`.
pub open spec fn edge_count(s: Seq<(i64, i64)>, e: (i64, i64)) -> nat
    decreases s.len(),
{
    if s.len() == 0 {
        0
    } else {
        edge_count(s.drop_last(), e) + if s.last() == e {
            1nat
        } else {
            0nat
        }
    }
}

/// What following `id` on behalf of `user_id` returns, and the store after it.
pub open spec fn follow_result(s: StoreView, user_id: i64, id: i64) -> (Result<bool, Error>, StoreView) {
    if !s.has_user(id) {
        (Err(Error::NotFound), s)
    } else if s.follows.contains((user_id, id)) {
        (Err(Error::Conflict), s)
    } else {
        (Ok(true), s.with_follows(s.follows.push((user_id, id))))
    }
}

/// What liking the post `id` on behalf of `user_id` returns, and the store after it.
pub open spec fn like_result(s: StoreView, user_id: i64, id: i64) -> (Result<bool, Error>, StoreView) {
    if !s.has_post(id) {
        (Err(Error::NotFound), s)
    } else if s.likes.contains((user_id, id)) {
        (Err(Error::Conflict), s)
    } else {
        (Ok(true), s.with_likes(s.likes.push((user_id, id))))
    }
}

proof fn lemma_count_absent(s: Seq<(i64, i64)>, e: (i64, i64))
    requires
        !s.contains(e),
    ensures
        edge_count(s, e) == 0,
    decreases s.len(),
{
    if s.len() > 0 {
        let init = s.drop_last();
        assert(!init.contains(e)) by {
            if init.contains(e) {
                let k = choose|k: int| 0 <= k < init.len() && init[k] == e;
                assert(s[k] == e);
            }
        }
        assert(s.last() != e) by {
            assert(s[s.len() - 1] == s.last());
        }
        lemma_count_absent(init, e);
    }
}

proof fn lemma_count_once(s: Seq<(i64, i64)>, e: (i64, i64))
    requires
        s.no_duplicates(),
        s.contains(e),
    ensures
        edge_count(s, e) == 1,
    decreases s.len(),
{
    let init = s.drop_last();
    assert(init.no_duplicates()) by {
        assert forall|a: int, b: int| 0 <= a < init.len() && 0 <= b < init.len() && a != b implies init[a] != init[b] by {
            assert(init[a] == s[a] && init[b] == s[b]);
        }
    }
    if s.last() == e {
        assert(!init.contains(e)) by {
            if init.contains(e) {
                let k = choose|k: int| 0 <= k < init.len() && init[k] == e;
                assert(s[k] == s[s.len() - 1]);
            }
        }
        lemma_count_absent(init, e);
    } else {
        let k = choose|k: int| 0 <= k < s.len() && s[k] == e;
        assert(k != s.len() - 1);
        assert(init[k] == e);
        lemma_count_once(init, e);
    }
}

proof fn lemma_count_push(s: Seq<(i64, i64)>, e: (i64, i64))
    requires
        !s.contains(e),
    ensures
        edge_count(s.push(e), e) == 1,
{
    assert(s.push(e).drop_last() =~= s);
    lemma_count_absent(s, e);
}

/// Following an account twice leaves exactly one follow edge: the second attempt
/// is refused as a conflict and changes nothing.
pub proof fn lemma_follow_twice(s: StoreView, user_id: i64, id: i64)
    requires
        s.wf(),
        s.has_user(id),
    ensures
        ({
            let s1 = follow_result(s, user_id, id).1;
            let (r2, s2) = follow_result(s1, user_id, id);
            &&& r2 == Err::<bool, Error>(Error::Conflict)
            &&& s2 == s1
            &&& edge_count(s2.follows, (user_id, id)) == 1
        }),
{
    let e = (user_id, id);
    let s1 = follow_result(s, user_id, id).1;
    if s.follows.contains(e) {
        lemma_count_once(s.follows, e);
    } else {
        assert(s1.follows.last() == e);
        assert(s1.follows[s1.follows.len() - 1] == e);
        lemma_count_push(s.follows, e);
    }
}

/// Liking a post twice leaves exactly one like edge: the second attempt is refused
/// as a conflict and changes nothing.
pub proof fn lemma_like_twice(s: StoreView, user_id: i64, id: i64)
    requires
        s.wf(),
        s.has_post(id),
    ensures
        ({
            let s1 = like_result(s, user_id, id).1;
            let (r2, s2) = like_result(s1, user_id, id);
            &&& r2 == Err::<bool, Error>(Error::Conflict)
            &&& s2 == s1
            &&& edge_count(s2.likes, (user_id, id)) == 1
        }),
{
    let e = (user_id, id);
    let s1 = like_result(s, user_id, id).1;
    if s.likes.contains(e) {
        lemma_count_once(s.likes, e);
    } else {
        assert(s1.likes[s1.likes.len() - 1] == e);
        lemma_count_push(s.likes, e);
    }
}

/// The index of `e` in `edges`, if it is there.
fn edge_index(edges: &Vec<(i64, i64)>, e: (i64, i64)) -> (r: Option<usize>)
    ensures
        r is Some ==> r->0 < edges@.len() && edges@[r->0 as int] == e,
        r is None ==> !edges@.contains(e),
{
    let mut i: usize = 0;
    while i < edges.len()
        invariant
            i <= edges@.len(),
            forall|k: int| 0 <= k < i ==> edges@[k] != e,
        decreases edges.len() - i,
    {
        if edges[i].0 == e.0 && edges[i].1 == e.1 {
            return Some(i);
        }
        i += 1;
    }
    None
}

/// Adds `e` to `edges` unless it is there already.
fn insert_edge(edges: &mut Vec<(i64, i64)>, e: (i64, i64)) -> (r: bool)
    ensures
        r == !old(edges)@.contains(e),
        r ==> final(edges)@ == old(edges)@.push(e),
        !r ==> final(edges)@ == old(edges)@,
        old(edges)@.no_duplicates() ==> final(edges)@.no_duplicates(),
{
    match edge_index(edges, e) {
        Some(_) => false,
        None => {
            edges.push(e);
            proof {
                let s = final(edges)@;
                assert forall|a: int, b: int| 0 <= a < s.len() && 0 <= b < s.len() && a != b
                    && old(edges)@.no_duplicates() implies s[a] != s[b] by {
                    if a == s.len() - 1 {
                        assert(old(edges)@[b] == s[b]);
                    } else if b == s.len() - 1 {
                        assert(old(edges)@[a] == s[a]);
                    }
                }
            }
            true
        },
    }
}

/// Takes `e` out of `edges` if it is there.
fn remove_edge(edges: &mut Vec<(i64, i64)>, e: (i64, i64)) -> (r: bool)
    ensures
        r == old(edges)@.contains(e),
        r ==> exists|k: int|
            0 <= k < old(edges)@.len() && old(edges)@[k] == e && final(edges)@ == old(edges)@.remove(k),
        !r ==> final(edges)@ == old(edges)@,
        old(edges)@.no_duplicates() ==> final(edges)@.no_duplicates() && !final(edges)@.contains(e),
{
    match edge_index(edges, e) {
        Some(k) => {
            edges.remove(k);
            proof {
                let o = old(edges)@;
                let s = final(edges)@;
                assert(s == o.remove(k as int));
                if o.no_duplicates() {
                    assert forall|a: int, b: int| 0 <= a < s.len() && 0 <= b < s.len() && a != b implies s[a] != s[b] by {
                        let oa = if a < k { a } else { a + 1 };
                        let ob = if b < k { b } else { b + 1 };
                        assert(s[a] == o[oa] && s[b] == o[ob]);
                    }
                    assert forall|a: int| 0 <= a < s.len() implies s[a] != e by {
                        let oa = if a < k { a } else { a + 1 };
                        assert(s[a] == o[oa]);
                    }
                }
            }
            true
        },
        None => false,
    }
}

impl Store {
    /// An empty store.
    pub fn new() -> (r: Store)
        ensures
            r@.wf(),
            r@.next_id == 1,
            r@.users.len() == 0,
            r@.posts.len() == 0,
            r@.versions.len() == 0,
            r@.follows.len() == 0,
            r@.likes.len() == 0,
    {
        Store {
            users: Vec::new(),
            posts: Vec::new(),
            versions: Vec::new(),
            follows: Vec::new(),
            likes: Vec::new(),
            next_id: 1,
        }
    }

    /// The index of the first account with this id.
    fn find_user(&self, id: i64) -> (r: Option<usize>)
        ensures
            r is Some ==> r->0 < self@.users.len() && self@.users[r->0 as int].user.id == id
                && forall|k: int| 0 <= k < r->0 ==> self@.users[k].user.id != id,
            r is None <==> !self@.has_user(id),
    {
        let mut i: usize = 0;
        while i < self.users.len()
            invariant
                i <= self.users@.len(),
                forall|k: int| 0 <= k < i ==> self.users@[k].user.id != id,
            decreases self.users.len() - i,
        {
            if self.users[i].user.id == id {
                assert(self@.users[i as int].user.id == id);
                return Some(i);
            }
            i += 1;
        }
        None
    }

    /// The index of the first post row with this id, deleted or not.
    fn find_post(&self, id: i64) -> (r: Option<usize>)
        ensures
            r is Some ==> r->0 < self@.posts.len() && self@.posts[r->0 as int].post.id == id
                && forall|k: int| 0 <= k < r->0 ==> self@.posts[k].post.id != id,
            r is None <==> !self@.has_post(id),
    {
        let mut i: usize = 0;
        while i < self.posts.len()
            invariant
                i <= self.posts@.len(),
                forall|k: int| 0 <= k < i ==> self.posts@[k].post.id != id,
            decreases self.posts.len() - i,
        {
            if self.posts[i].post.id == id {
                assert(self@.posts[i as int].post.id == id);
                return Some(i);
            }
            i += 1;
        }
        None
    }

    /// `user_id` starts following the account `id`.
    pub fn follow_user(&mut self, user_id: i64, id: i64) -> (r: Result<bool, Error>)
        requires
            old(self)@.wf(),
        ensures
            final(self)@.wf(),
            (r, final(self)@) == follow_result(old(self)@, user_id, id),
    {
        if self.find_user(id).is_none() {
            return Err(Error::NotFound);
        }
        let added = insert_edge(&mut self.follows, (user_id, id));
        assert(self@.users == old(self)@.users && self@.posts == old(self)@.posts);
        if added {
            Ok(true)
        } else {
            Err(Error::Conflict)
        }
    }

    /// `user_id` stops following the account `id`; true when it followed it.
    pub fn unfollow_user(&mut self, user_id: i64, id: i64) -> (r: Result<bool, Error>)
        requires
            old(self)@.wf(),
        ensures
            final(self)@.wf(),
            r == Ok::<bool, Error>(old(self)@.follows.contains((user_id, id))),
            !final(self)@.follows.contains((user_id, id)),
            r == Ok::<bool, Error>(false) ==> final(self)@ == old(self)@,
            r == Ok::<bool, Error>(true) ==> exists|k: int|
                0 <= k < old(self)@.follows.len() && old(self)@.follows[k] == (user_id, id)
                    && final(self)@ == old(self)@.with_follows(old(self)@.follows.remove(k)),
    {
        let removed = remove_edge(&mut self.follows, (user_id, id));
        assert(self@.users == old(self)@.users && self@.posts == old(self)@.posts);
        Ok(removed)
    }

    /// `user_id` likes the post `id`.
    pub fn like_post(&mut self, user_id: i64, id: i64) -> (r: Result<bool, Error>)
        requires
            old(self)@.wf(),
        ensures
            final(self)@.wf(),
            (r, final(self)@) == like_result(old(self)@, user_id, id),
    {
        if self.find_post(id).is_none() {
            return Err(Error::NotFound);
        }
        let added = insert_edge(&mut self.likes, (user_id, id));
        assert(self@.users == old(self)@.users && self@.posts == old(self)@.posts);
        if added {
            Ok(true)
        } else {
            Err(Error::Conflict)
        }
    }

    /// `user_id` takes back a like of the post `id`; true when it had liked it.
    pub fn unlike_post(&mut self, user_id: i64, id: i64) -> (r: Result<bool, Error>)
        requires
            old(self)@.wf(),
        ensures
            final(self)@.wf(),
            r == Ok::<bool, Error>(old(self)@.likes.contains((user_id, id))),
            !final(self)@.likes.contains((user_id, id)),
            r == Ok::<bool, Error>(false) ==> final(self)@ == old(self)@,
            r == Ok::<bool, Error>(true) ==> exists|k: int|
                0 <= k < old(self)@.likes.len() && old(self)@.likes[k] == (user_id, id)
                    && final(self)@ == old(self)@.with_likes(old(self)@.likes.remove(k)),
    {
        let removed = remove_edge(&mut self.likes, (user_id, id));
        assert(self@.users == old(self)@.users && self@.posts == old(self)@.posts);
        Ok(removed)
    }

    /// A fresh id, or `None` when ids are exhausted.
    fn fresh_id(&mut self) -> (r: Option<i64>)
        ensures
            old(self)@.next_id == i64::MAX ==> r is None && final(self)@ == old(self)@,
            old(self)@.next_id < i64::MAX ==> r == Some(old(self)@.next_id) && final(self)@ == (
            StoreView { next_id: (old(self)@.next_id + 1) as i64, ..old(self)@ }),
    {
        if self.next_id == i64::MAX {
            None
        } else {
            let id = self.next_id;
            self.next_id = id + 1;
            Some(id)
        }
    }

    /// The index of the first row of the post `id`.
    fn post_index(&self, id: i64) -> (r: Option<usize>)
        ensures
            r is Some ==> r->0 < self@.posts.len(),
            r matches Some(k) ==> first_index(self@.posts, post_is(id)) == Some(k as int),
            r is None ==> first_index(self@.posts, post_is(id)) is None,
    {
        let r = self.find_post(id);
        proof {
            match r {
                Some(k) => {
                    assert(is_first(self@.posts, post_is(id), k as int));
                    lemma_first_index_at(self@.posts, post_is(id), k as int);
                },
                None => {
                    assert forall|k: int| 0 <= k < self@.posts.len() implies !post_is(id)(
                        self@.posts[k],
                    ) by {
                        if self@.posts[k].post.id == id {
                            assert(self@.has_post(id));
                        }
                    }
                    lemma_first_index_none(self@.posts, post_is(id));
                },
            }
        }
        r
    }

    /// `user_id` publishes a post with `content` at `now`.
    pub fn insert_post(&mut self, user_id: i64, content: String, now: i64) -> (r: Result<bool, Error>)
        requires
            old(self)@.wf(),
        ensures
            final(self)@.wf(),
            (r, final(self)@) == insert_post_result(old(self)@, user_id, content, now),
    {
        let id = match self.fresh_id() {
            Some(id) => id,
            None => return Err(Error::ServerError),
        };
        let post = Post {
            id,
            content,
            user_id,
            edited: false,
            created_at: now,
            last_updated_at: now,
        };
        self.posts.push(PostRow { post, deleted: false });
        Ok(true)
    }

    /// Replaces the content of the post `id`, archiving the content it had first.
    /// Archive and update happen together or not at all.
    pub fn update_post(&mut self, id: i64, content: String, now: i64) -> (r: Result<Post, Error>)
        requires
            old(self)@.wf(),
        ensures
            final(self)@.wf(),
            (r, final(self)@) == update_result(old(self)@, id, content, now),
    {
        let k = match self.post_index(id) {
            Some(k) => k,
            None => return Err(Error::NotFound),
        };
        let version_id = match self.fresh_id() {
            Some(v) => v,
            None => return Err(Error::ServerError),
        };
        let old_post = self.posts[k].post.copy();
        let deleted = self.posts[k].deleted;
        let version = PostVersion {
            id: version_id,
            content: old_post.content.clone(),
            version: now,
            post_id: id,
        };
        self.versions.push(version);
        let post = Post {
            id: old_post.id,
            content,
            user_id: old_post.user_id,
            edited: true,
            created_at: old_post.created_at,
            last_updated_at: now,
        };
        let answer = post.copy();
        self.posts.set(k, PostRow { post, deleted });
        Ok(answer)
    }

    /// Marks the post `id` deleted at `now`; true when the post exists.
    pub fn delete_post(&mut self, id: i64, now: i64) -> (r: bool)
        requires
            old(self)@.wf(),
        ensures
            final(self)@.wf(),
            (r, final(self)@) == delete_result(old(self)@, id, now),
    {
        let k = match self.post_index(id) {
            Some(k) => k,
            None => return false,
        };
        let old_post = self.posts[k].post.copy();
        let post = Post { last_updated_at: now, ..old_post };
        self.posts.set(k, PostRow { post, deleted: true });
        proof {
            let o = old(self)@.posts;
            let n = self@.posts;
            assert forall|i: int, j: int| 0 <= i < j < n.len() implies n[i].post.id != n[j].post.id by {
                assert(n[i].post.id == o[i].post.id && n[j].post.id == o[j].post.id);
            }
            assert forall|i: int| 0 <= i < n.len() implies n[i].post.id < self@.next_id by {
                assert(n[i].post.id == o[i].post.id);
            }
            assert(self@.users == old(self)@.users);
        }
        true
    }

    /// The post `id` of `user_id`, unless it is deleted.
    pub fn get_post(&self, user_id: i64, id: i64) -> (r: Result<Post, Error>)
        ensures
            r == (match first_index(self@.posts, own_visible_post(user_id, id)) {
                Some(k) => Ok::<Post, Error>(self@.posts[k].post),
                None => Err(Error::NotFound),
            }),
    {
        let mut i: usize = 0;
        while i < self.posts.len()
            invariant
                i <= self.posts@.len(),
                forall|j: int| 0 <= j < i ==> !own_visible_post(user_id, id)(self@.posts[j]),
            decreases self.posts.len() - i,
        {
            let row = &self.posts[i];
            if row.post.id == id && row.post.user_id == user_id && !row.deleted {
                proof {
                    assert(is_first(self@.posts, own_visible_post(user_id, id), i as int));
                    lemma_first_index_at(self@.posts, own_visible_post(user_id, id), i as int);
                }
                return Ok(row.post.copy());
            }
            i += 1;
        }
        proof { lemma_first_index_none(self@.posts, own_visible_post(user_id, id)); }
        Err(Error::NotFound)
    }

    /// The posts of `user_id` that are not deleted.
    pub fn get_user_posts(&self, user_id: i64) -> (r: PostVec)
        ensures
            r.posts@ == select(self@.posts, own_visible(user_id), row_post()),
    {
        let mut out: Vec<Post> = Vec::new();
        let mut i: usize = 0;
        while i < self.posts.len()
            invariant
                i <= self.posts@.len(),
                out@ == select(self@.posts.take(i as int), own_visible(user_id), row_post()),
            decreases self.posts.len() - i,
        {
            proof { lemma_select_step(self@.posts, i as int, own_visible(user_id), row_post()); }
            let row = &self.posts[i];
            if row.post.user_id == user_id && !row.deleted {
                out.push(row.post.copy());
            }
            i += 1;
        }
        assert(self@.posts.take(self@.posts.len() as int) =~= self@.posts);
        PostVec { posts: out }
    }

    /// The edit history of the post `id`, oldest version first.
    pub fn get_post_history(&self, id: i64) -> (r: PostVersionVec)
        ensures
            r.post_versions@ == history(self@, id),
    {
        let mut out: Vec<PostVersion> = Vec::new();
        let mut i: usize = 0;
        while i < self.versions.len()
            invariant
                i <= self.versions@.len(),
                out@ == select(self@.versions.take(i as int), version_of(id), same_version()),
            decreases self.versions.len() - i,
        {
            proof { lemma_select_step(self@.versions, i as int, version_of(id), same_version()); }
            if self.versions[i].post_id == id {
                out.push(self.versions[i].copy());
            }
            i += 1;
        }
        assert(self@.versions.take(self@.versions.len() as int) =~= self@.versions);
        PostVersionVec { post_versions: out }
    }

    /// Registers an account whose password hash is already derived. Username and
    /// email must each be unused.
    pub fn insert_user_hashed(
        &mut self,
        username: String,
        email: String,
        name: String,
        hash_password: String,
    ) -> (r: Result<bool, Error>)
        requires
            old(self)@.wf(),
        ensures
            final(self)@.wf(),
            (r, final(self)@) == register_result(old(self)@, username, email, name, hash_password),
    {
        let mut i: usize = 0;
        while i < self.users.len()
            invariant
                i <= self.users@.len(),
                self@ == old(self)@,
                self@.wf(),
                forall|k: int|
                    0 <= k < i ==> !(self@.users[k].user.username@ == username@
                        || self@.users[k].user.email@ == email@),
            decreases self.users.len() - i,
        {
            if self.users[i].user.username == username || self.users[i].user.email == email {
                assert(self@.users[i as int].user.username@ == username@
                    || self@.users[i as int].user.email@ == email@);
                return Err(Error::Conflict);
            }
            i += 1;
        }
        let id = match self.fresh_id() {
            Some(id) => id,
            None => return Err(Error::ServerError),
        };
        let user = User { id, email, username, name };
        self.users.push(UserRow { user, hash_password });
        Ok(true)
    }

    /// Registers an account, storing a salted hash of `password`.
    pub fn insert_user(
        &mut self,
        username: String,
        email: String,
        name: String,
        password: &str,
    ) -> (r: Result<bool, Error>)
        requires
            old(self)@.wf(),
        ensures
            final(self)@.wf(),
            exists|h: String|
                password_check(h@, password@) == Some(true) && (r, final(self)@)
                    == register_result(old(self)@, username, email, name, h),
    {
        let hashed = match hash_password(password) {
            Ok(h) => h,
            Err(e) => return Err(e),
        };
        let ghost h = hashed;
        let r = self.insert_user_hashed(username, email, name, hashed);
        assert(password_check(h@, password@) == Some(true));
        r
    }

    /// Every account, in registration order.
    pub fn get_users(&self) -> (r: UserVec<User>)
        ensures
            r.users@ == select(self@.users, any_user(), row_user()),
    {
        let mut out: Vec<User> = Vec::new();
        let mut i: usize = 0;
        while i < self.users.len()
            invariant
                i <= self.users@.len(),
                out@ == select(self@.users.take(i as int), any_user(), row_user()),
            decreases self.users.len() - i,
        {
            proof { lemma_select_step(self@.users, i as int, any_user(), row_user()); }
            out.push(self.users[i].user.copy());
            i += 1;
        }
        assert(self@.users.take(self@.users.len() as int) =~= self@.users);
        UserVec { users: out }
    }

    /// The account `id`.
    pub fn get_user(&self, id: i64) -> (r: Result<User, Error>)
        ensures
            r == (match first_index(self@.users, user_is(id)) {
                Some(k) => Ok::<User, Error>(self@.users[k].user),
                None => Err(Error::NotFound),
            }),
    {
        match self.find_user(id) {
            Some(k) => {
                proof {
                    assert(is_first(self@.users, user_is(id), k as int));
                    lemma_first_index_at(self@.users, user_is(id), k as int);
                }
                Ok(self.users[k].user.copy())
            },
            None => {
                proof {
                    assert forall|k: int| 0 <= k < self@.users.len() implies !user_is(id)(
                        self@.users[k],
                    ) by {
                        if self@.users[k].user.id == id {
                            assert(self@.has_user(id));
                        }
                    }
                    lemma_first_index_none(self@.users, user_is(id));
                }
                Err(Error::NotFound)
            },
        }
    }

    /// Checks a login by email or username and password, and issues a token that
    /// expires `TOKEN_LIFETIME` seconds after `now`.
    pub fn login_user(
        &self,
        username: Option<String>,
        email: Option<String>,
        password: &str,
        secret: &Vec<u8>,
        now: i64,
    ) -> (r: Result<LoginResponse, Error>)
        ensures
            login_outcome(self@, username, email, password@, now) is Err ==> r == Err::<
                LoginResponse,
                Error,
            >(login_outcome(self@, username, email, password@, now)->Err_0),
            login_outcome(self@, username, email, password@, now) matches Ok(id) ==> (r matches Ok(
                resp,
            ) && resp.id == id && token_fields(resp.token@, secret@) == Some(
                claims_map(Claims { user_id: id, exp: (now + TOKEN_LIFETIME) as i64 }),
            )),
    {
        let mut i: usize = 0;
        while i < self.users.len()
            invariant
                i <= self.users@.len(),
                forall|j: int| 0 <= j < i ==> !login_match(username, email)(self@.users[j]),
            decreases self.users.len() - i,
        {
            let row = &self.users[i];
            let by_email = match &email {
                Some(e) => row.user.email == *e,
                None => false,
            };
            let by_username = match &username {
                Some(u) => row.user.username == *u,
                None => false,
            };
            if by_email || by_username {
                proof {
                    assert(is_first(self@.users, login_match(username, email), i as int));
                    lemma_first_index_at(self@.users, login_match(username, email), i as int);
                }
                let matched = match verify_password(row.hash_password.as_str(), password) {
                    Ok(b) => b,
                    Err(e) => return Err(e),
                };
                if !matched {
                    return Err(Error::NotFound);
                }
                if now > i64::MAX - TOKEN_LIFETIME {
                    return Err(Error::ServerError);
                }
                let claims = Claims::new(row.user.id, now);
                let token = match claims.to_jwt(secret) {
                    Ok(t) => t,
                    Err(e) => return Err(e),
                };
                return Ok(LoginResponse { id: row.user.id, token });
            }
            i += 1;
        }
        proof { lemma_first_index_none(self@.users, login_match(username, email)); }
        Err(Error::NotFound)
    }

    /// The accounts that `user_id` follows.
    pub fn get_following(&self, user_id: i64) -> (r: UserVec<UserPublic>)
        ensures
            r.users@ == select(self@.users, followed_by(self@, user_id), row_public()),
            self@.wf() ==> distinct_ids(r.users@),
    {
        let mut out: Vec<UserPublic> = Vec::new();
        let mut i: usize = 0;
        while i < self.users.len()
            invariant
                i <= self.users@.len(),
                out@ == select(self@.users.take(i as int), followed_by(self@, user_id), row_public()),
            decreases self.users.len() - i,
        {
            proof { lemma_select_step(self@.users, i as int, followed_by(self@, user_id), row_public()); }
            if edge_index(&self.follows, (user_id, self.users[i].user.id)).is_some() {
                out.push(self.users[i].user.to_public());
            }
            i += 1;
        }
        assert(self@.users.take(self@.users.len() as int) =~= self@.users);
        proof {
            if self@.wf() {
                lemma_listing_distinct(self@.users, followed_by(self@, user_id));
            }
        }
        UserVec { users: out }
    }

    /// The accounts that follow `user_id`.
    pub fn get_followers(&self, user_id: i64) -> (r: UserVec<UserPublic>)
        ensures
            r.users@ == select(self@.users, following(self@, user_id), row_public()),
            self@.wf() ==> distinct_ids(r.users@),
    {
        let mut out: Vec<UserPublic> = Vec::new();
        let mut i: usize = 0;
        while i < self.users.len()
            invariant
                i <= self.users@.len(),
                out@ == select(self@.users.take(i as int), following(self@, user_id), row_public()),
            decreases self.users.len() - i,
        {
            proof { lemma_select_step(self@.users, i as int, following(self@, user_id), row_public()); }
            if edge_index(&self.follows, (self.users[i].user.id, user_id)).is_some() {
                out.push(self.users[i].user.to_public());
            }
            i += 1;
        }
        assert(self@.users.take(self@.users.len() as int) =~= self@.users);
        proof {
            if self@.wf() {
                lemma_listing_distinct(self@.users, following(self@, user_id));
            }
        }
        UserVec { users: out }
    }

    /// The accounts that like the post `post_id`.
    pub fn get_users_liked(&self, post_id: i64) -> (r: UserVec<UserPublic>)
        ensures
            r.users@ == select(self@.users, liking(self@, post_id), row_public()),
            self@.wf() ==> distinct_ids(r.users@),
    {
        let mut out: Vec<UserPublic> = Vec::new();
        let mut i: usize = 0;
        while i < self.users.len()
            invariant
                i <= self.users@.len(),
                out@ == select(self@.users.take(i as int), liking(self@, post_id), row_public()),
            decreases self.users.len() - i,
        {
            proof { lemma_select_step(self@.users, i as int, liking(self@, post_id), row_public()); }
            if edge_index(&self.likes, (self.users[i].user.id, post_id)).is_some() {
                out.push(self.users[i].user.to_public());
            }
            i += 1;
        }
        assert(self@.users.take(self@.users.len() as int) =~= self@.users);
        proof {
            if self@.wf() {
                lemma_listing_distinct(self@.users, liking(self@, post_id));
            }
        }
        UserVec { users: out }
    }

    /// The posts that `user_id` likes, deleted ones included.
    pub fn get_user_likes(&self, user_id: i64) -> (r: PostVec)
        ensures
            r.posts@ == select(self@.posts, liked_by(self@, user_id), row_post()),
    {
        let mut out: Vec<Post> = Vec::new();
        let mut i: usize = 0;
        while i < self.posts.len()
            invariant
                i <= self.posts@.len(),
                out@ == select(self@.posts.take(i as int), liked_by(self@, user_id), row_post()),
            decreases self.posts.len() - i,
        {
            proof { lemma_select_step(self@.posts, i as int, liked_by(self@, user_id), row_post()); }
            if edge_index(&self.likes, (user_id, self.posts[i].post.id)).is_some() {
                out.push(self.posts[i].post.copy());
            }
            i += 1;
        }
        assert(self@.posts.take(self@.posts.len() as int) =~= self@.posts);
        PostVec { posts: out }
    }

    /// The feed of `user_id`: the posts of the accounts it follows, deleted ones
    /// included, newest first.
    pub fn get_user_feed(&self, user_id: i64) -> (r: PostVec)
        ensures
            is_feed(self@, user_id, r.posts@),
    {
        let mut chosen: Vec<Post> = Vec::new();
        let mut i: usize = 0;
        while i < self.posts.len()
            invariant
                i <= self.posts@.len(),
                chosen@ == select(self@.posts.take(i as int), in_feed(self@, user_id), row_post()),
            decreases self.posts.len() - i,
        {
            proof { lemma_select_step(self@.posts, i as int, in_feed(self@, user_id), row_post()); }
            if edge_index(&self.follows, (user_id, self.posts[i].post.user_id)).is_some() {
                chosen.push(self.posts[i].post.copy());
            }
            i += 1;
        }
        assert(self@.posts.take(self@.posts.len() as int) =~= self@.posts);
        let mut out: Vec<Post> = Vec::new();
        let mut n: usize = 0;
        assert(out@ =~= chosen@.take(0));
        while n < chosen.len()
            invariant
                n <= chosen@.len(),
                out@.to_multiset() == chosen@.take(n as int).to_multiset(),
                newest_first(out@),
            decreases chosen.len() - n,
        {
            let p = chosen[n].copy();
            let mut k: usize = 0;
            while k < out.len() && out[k].created_at >= p.created_at
                invariant
                    k <= out@.len(),
                    forall|j: int| 0 <= j < k ==> out@[j].created_at >= p.created_at,
                decreases out.len() - k,
            {
                k += 1;
            }
            let ghost before = out@;
            out.insert(k, p);
            proof {
                assert(chosen@.take(n + 1) =~= chosen@.take(n as int).push(chosen@[n as int]));
                vstd::seq_lib::to_multiset_build(chosen@.take(n as int), chosen@[n as int]);
                vstd::seq_lib::to_multiset_insert(before, k as int, p);
                assert forall|a: int, b: int| 0 <= a < b < out@.len() implies out@[a].created_at
                    >= out@[b].created_at by {
                    if k < before.len() {
                        assert(before[k as int].created_at < p.created_at);
                    }
                    if a < k && b == k {
                    } else if a < k && b > k {
                        assert(out@[b] == before[b - 1]);
                    } else if a == k {
                        assert(out@[b] == before[b - 1]);
                        assert(before[k as int].created_at >= before[b - 1].created_at || b - 1 == k);
                    } else if a > k {
                        assert(out@[a] == before[a - 1] && out@[b] == before[b - 1]);
                    }
                }
            }
            n += 1;
        }
        assert(chosen@.take(chosen@.len() as int) =~= chosen@);
        PostVec { posts: out }
    }
}

} // verus!
