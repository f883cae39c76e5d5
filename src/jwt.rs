use crate::error::Error;
use crate::utils::current_time;
use std::collections::BTreeMap;
use vstd::prelude::*;

verus! {

/// How long an issued token stays valid, in seconds.
pub const TOKEN_LIFETIME: i64 = 48 * 60 * 60;

/// The claims that a token carries once its signature has been checked against
/// `secret`, each claim name with its integer value; `None` when it does not verify.
pub uninterp spec fn token_fields(token: Seq<char>, secret: Seq<u8>) -> Option<Map<Seq<char>, i64>>;

/// No two entries share a claim name.
pub open spec fn distinct_names(fields: Seq<(String, i64)>) -> bool {
    forall|i: int, j: int|
        0 <= i < fields.len() && 0 <= j < fields.len() && i != j ==> fields[i].0@ != fields[j].0@
}

/// The claim names of `fields` with their values.
pub open spec fn fields_map(fields: Seq<(String, i64)>) -> Map<Seq<char>, i64>
    decreases fields.len(),
{
    if fields.len() == 0 {
        Map::empty()
    } else {
        fields_map(fields.drop_last()).insert(fields.last().0@, fields.last().1)
    }
}

/// Relies on jsonwebtoken::encode with the default (HS256) header and a key made
/// from `secret`: it always succeeds here (the key and header are both HMAC, and a
/// map of strings to integers always serializes), and the token carries exactly the
/// given claims, which jsonwebtoken::decode under the same secret gives back.
#[verifier::external_body]
fn sign_fields(fields: &Vec<(String, i64)>, secret: &Vec<u8>) -> (r: Option<String>)
    requires
        distinct_names(fields@),
    ensures
        r is Some,
        r is Some ==> token_fields(r->0@, secret@) == Some(fields_map(fields@)),
{
    let claims: BTreeMap<String, i64> = fields.iter().cloned().collect();
    jsonwebtoken::encode(
        &jsonwebtoken::Header::default(),
        &claims,
        &jsonwebtoken::EncodingKey::from_secret(secret),
    ).ok()
}

/// Relies on jsonwebtoken::decode with HS256, no time-based checks and no required
/// claims: it yields the integer claims of a token whose signature matches `secret`,
/// and fails otherwise.
#[verifier::external_body]
fn read_fields(token: &str, secret: &Vec<u8>) -> (r: Option<Vec<(String, i64)>>)
    ensures
        r is Some <==> token_fields(token@, secret@) is Some,
        r is Some ==> distinct_names(r->0@) && token_fields(token@, secret@) == Some(
            fields_map(r->0@),
        ),
{
    let mut validation = jsonwebtoken::Validation::new(jsonwebtoken::Algorithm::HS256);
    validation.validate_exp = false;
    validation.required_spec_claims.clear();
    let key = jsonwebtoken::DecodingKey::from_secret(secret);
    let data = jsonwebtoken::decode::<BTreeMap<String, i64>>(token, &key, &validation);
    data.ok().map(|d| d.claims.into_iter().collect())
}

/// The identity asserted by a session token.
#[derive(Debug, Clone, Copy, PartialEq, Eq, Structural)]
pub struct Claims {
    pub user_id: i64,
    /// Expiry instant, in Unix seconds.
    pub exp: i64,
}

pub open spec fn user_id_name() -> Seq<char> {
    "user_id"@
}

pub open spec fn exp_name() -> Seq<char> {
    "exp"@
}

/// The claim map that a token for `c` carries.
pub open spec fn claims_map(c: Claims) -> Map<Seq<char>, i64> {
    Map::empty().insert(user_id_name(), c.user_id).insert(exp_name(), c.exp)
}

/// What verification makes of the claims read from a token at instant `now`.
pub open spec fn claims_at(fields: Option<Map<Seq<char>, i64>>, now: i64) -> Result<Claims, Error> {
    match fields {
        None => Err(Error::InvalidToken),
        Some(m) => {
            if m.contains_key(user_id_name()) && m.contains_key(exp_name()) && now <= m[exp_name()] {
                Ok(Claims { user_id: m[user_id_name()], exp: m[exp_name()] })
            } else {
                Err(Error::InvalidToken)
            }
        },
    }
}

/// The outcome of verifying `token` under `secret` at instant `now`.
pub open spec fn verify_spec(token: Seq<char>, secret: Seq<u8>, now: i64) -> Result<Claims, Error> {
    claims_at(token_fields(token, secret), now)
}

/// The token carried by an authorization header value of the bearer scheme.
pub open spec fn bearer_of(header: Seq<char>) -> Option<Seq<char>> {
    if header.len() >= 7 && header.subrange(0, 7) == "Bearer "@ {
        Some(header.subrange(7, header.len() as int))
    } else {
        None
    }
}

/// What the guard makes of an authorization header at instant `now`.
pub open spec fn request_claims(header: Option<&str>, secret: Seq<u8>, now: i64) -> Result<Claims, Error> {
    match header {
        None => Err(Error::InvalidToken),
        Some(h) => match bearer_of(h@) {
            None => Err(Error::InvalidToken),
            Some(t) => verify_spec(t, secret, now),
        },
    }
}

/// Looks up a claim by name in a list with distinct names.
fn find_field(fields: &Vec<(String, i64)>, name: &String) -> (r: Option<i64>)
    requires
        distinct_names(fields@),
    ensures
        r is Some <==> fields_map(fields@).contains_key(name@),
        r is Some ==> fields_map(fields@)[name@] == r->0,
{
    let mut i: usize = 0;
    while i < fields.len()
        invariant
            i <= fields@.len(),
            distinct_names(fields@),
            forall|k: int| 0 <= k < i ==> fields@[k].0@ != name@,
        decreases fields.len() - i,
    {
        if fields[i].0 == *name {
            proof { lemma_fields_map_at(fields@, i as int); }
            return Some(fields[i].1);
        }
        i += 1;
    }
    proof { lemma_fields_map_absent(fields@, name@); }
    None
}

proof fn lemma_fields_map_at(fields: Seq<(String, i64)>, i: int)
    requires
        distinct_names(fields),
        0 <= i < fields.len(),
    ensures
        fields_map(fields).contains_key(fields[i].0@),
        fields_map(fields)[fields[i].0@] == fields[i].1,
    decreases fields.len(),
{
    let init = fields.drop_last();
    if i < fields.len() - 1 {
        assert(init[i] == fields[i]);
        assert(distinct_names(init)) by {
            assert forall|a: int, b: int|
                0 <= a < init.len() && 0 <= b < init.len() && a != b implies init[a].0@ != init[b].0@ by {
                assert(init[a] == fields[a] && init[b] == fields[b]);
            }
        }
        lemma_fields_map_at(init, i);
        assert(fields[i].0@ != fields.last().0@);
    }
}

proof fn lemma_fields_map_absent(fields: Seq<(String, i64)>, name: Seq<char>)
    requires
        forall|k: int| 0 <= k < fields.len() ==> fields[k].0@ != name,
    ensures
        !fields_map(fields).contains_key(name),
    decreases fields.len(),
{
    if fields.len() > 0 {
        let init = fields.drop_last();
        assert forall|k: int| 0 <= k < init.len() implies init[k].0@ != name by {
            assert(init[k] == fields[k]);
        }
        lemma_fields_map_absent(init, name);
    }
}

impl Claims {
    /// Claims for `user_id` that expire `TOKEN_LIFETIME` seconds after `now`.
    pub fn new(user_id: i64, now: i64) -> (r: Claims)
        requires
            now <= i64::MAX - TOKEN_LIFETIME,
        ensures
            r == (Claims { user_id, exp: (now + TOKEN_LIFETIME) as i64 }),
    {
        Claims { user_id, exp: now + TOKEN_LIFETIME }
    }

    /// A signed token carrying these claims.
    pub fn to_jwt(&self, secret: &Vec<u8>) -> (r: Result<String, Error>)
        ensures
            r is Ok,
            r is Ok ==> token_fields(r->Ok_0@, secret@) == Some(claims_map(*self)),
    {
        let user_id_key = String::from_str("user_id");
        let exp_key = String::from_str("exp");
        proof {
            reveal_strlit("user_id");
            reveal_strlit("exp");
        }
        let fields: Vec<(String, i64)> = vec![(user_id_key, self.user_id), (exp_key, self.exp)];
        assert(fields@[0].0@ == user_id_name() && fields@[1].0@ == exp_name());
        assert(fields@[0].0@.len() != fields@[1].0@.len());
        match sign_fields(&fields, secret) {
            Some(token) => {
                proof {
                    let first = fields@.drop_last();
                    assert(first.drop_last() =~= Seq::<(String, i64)>::empty());
                    assert(first.last() == fields@[0]);
                    assert(first.len() == 1);
                    assert(fields_map(first.drop_last()) == Map::<Seq<char>, i64>::empty());
                    assert(fields_map(first) =~= Map::<Seq<char>, i64>::empty().insert(
                        user_id_name(),
                        self.user_id,
                    ));
                    assert(fields_map(fields@) =~= claims_map(*self));
                }
                Ok(token)
            },
            None => Err(Error::JWTError),
        }
    }

    /// The claims of `token` when it verifies under `secret` and has not expired now.
    pub fn verify(token: &str, secret: &Vec<u8>) -> (r: Result<Claims, Error>)
        ensures
            exists|now: i64| r == verify_spec(token@, secret@, now),
    {
        let now = current_time();
        Claims::verify_at(token, secret, now)
    }

    /// The claims of `token` when it verifies under `secret` and has not expired at `now`.
    pub fn verify_at(token: &str, secret: &Vec<u8>, now: i64) -> (r: Result<Claims, Error>)
        ensures
            r == verify_spec(token@, secret@, now),
    {
        let fields = match read_fields(token, secret) {
            Some(f) => f,
            None => return Err(Error::InvalidToken),
        };
        let user_id = find_field(&fields, &String::from_str("user_id"));
        let exp = find_field(&fields, &String::from_str("exp"));
        match (user_id, exp) {
            (Some(u), Some(e)) => {
                if now <= e {
                    Ok(Claims { user_id: u, exp: e })
                } else {
                    Err(Error::InvalidToken)
                }
            },
            _ => Err(Error::InvalidToken),
        }
    }

    /// The authenticated identity of a request, from its authorization header, as
    /// of now.
    pub fn from_request(header: Option<&str>, secret: &Vec<u8>) -> (r: Result<Claims, Error>)
        ensures
            exists|now: i64| r == request_claims(header, secret@, now),
    {
        let now = current_time();
        Claims::from_request_at(header, secret, now)
    }

    /// The authenticated identity of a request, from its authorization header, at
    /// instant `now`. A missing or malformed header is rejected like a bad token.
    pub fn from_request_at(header: Option<&str>, secret: &Vec<u8>, now: i64) -> (r: Result<Claims, Error>)
        ensures
            r == request_claims(header, secret@, now),
    {
        let h = match header {
            Some(h) => h,
            None => return Err(Error::InvalidToken),
        };
        let len = h.unicode_len();
        proof { reveal_strlit("Bearer "); }
        if len < 7 {
            return Err(Error::InvalidToken);
        }
        let scheme = String::from_str(h.substring_char(0, 7));
        if scheme != String::from_str("Bearer ") {
            return Err(Error::InvalidToken);
        }
        let token = h.substring_char(7, len);
        Claims::verify_at(token, secret, now)
    }
}

/// A token issued for a user verifies to that user's claims at every instant up
/// to its expiry, and fails at every instant after it.
pub proof fn lemma_issued_token_verifies(token: Seq<char>, secret: Seq<u8>, c: Claims, now: i64)
    requires
        token_fields(token, secret) == Some(claims_map(c)),
    ensures
        now <= c.exp ==> verify_spec(token, secret, now) == Ok::<Claims, Error>(c),
        now > c.exp ==> verify_spec(token, secret, now) == Err::<Claims, Error>(Error::InvalidToken),
{
    reveal_strlit("user_id");
    reveal_strlit("exp");
    let m = claims_map(c);
    assert(user_id_name() != exp_name()) by {
        assert(user_id_name().len() != exp_name().len());
    }
    assert(m[user_id_name()] == c.user_id);
    assert(m[exp_name()] == c.exp);
}

} // verus!
