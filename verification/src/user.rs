//! Users and their content-addressed identity.
//!
//! A user's id is derived from the normalized e-mail address alone, so
//! registering the same address twice always addresses the same record.

use vstd::prelude::*;

verus! {

use vstd::string::StringSliceAdditionalSpecFns;
use crate::hashing::{spec_content_id, content_id};
use crate::codec::{
    enc_bytes,
    enc_bool,
    sparse_bytes,
    sparse_bool,
    lemma_bytes_rt,
    lemma_bool_rt,
    parse_bytes,
    parse_bool,
    emit_bytes,
    emit_bool,
};
use crate::bytes::{bytes_of, concat_bytes};

/// A registration request: the identifying content of a user.
pub struct PartialUser {
    pub nickname: Vec<u8>,
    pub email: Vec<u8>,
}

/// A stored user record.
#[derive(Debug, PartialEq, Eq)]
pub struct User {
    pub id: Vec<u8>,
    pub nickname: Vec<u8>,
    pub is_verified: bool,
}

#[verifier::ext_equal]
pub struct UserView {
    pub id: Seq<u8>,
    pub nickname: Seq<u8>,
    pub is_verified: bool,
}

impl View for User {
    type V = UserView;

    open spec fn view(&self) -> UserView {
        UserView { id: self.id@, nickname: self.nickname@, is_verified: self.is_verified }
    }
}

/// The id derived from an e-mail address.
pub open spec fn spec_user_id(email: Seq<u8>) -> Seq<u8> {
    spec_content_id("email:".spec_bytes() + email)
}

/// Derives the content-addressed id of the user owning `email`.
pub fn user_id_of(email: &[u8]) -> (r: Vec<u8>)
    ensures
        r@ == spec_user_id(email@),
{
    let prefix = bytes_of("email:");
    let cat = concat_bytes(prefix.as_slice(), email);
    content_id(cat.as_slice())
}

impl User {
    /// A fresh, not yet verified user for `email`, named `nickname`.
    pub fn new(nickname: Vec<u8>, email: &[u8]) -> (r: User)
        ensures
            r@.id == spec_user_id(email@),
            r@.nickname == nickname@,
            !r@.is_verified,
    {
        let id = user_id_of(email);
        User { id, nickname, is_verified: false }
    }
}

/// The canonical encoding of a user record.
pub open spec fn enc_user(v: UserView) -> Seq<u8> {
    enc_bytes(v.id) + enc_bytes(v.nickname) + enc_bool(v.is_verified)
}

/// The parse of a whole byte string as a user record.
pub open spec fn parse_user_bytes(s: Seq<u8>) -> Option<UserView> {
    match sparse_bytes(s) {
        Option::Some((id, r1)) => match sparse_bytes(r1) {
            Option::Some((nickname, r2)) => match sparse_bool(r2) {
                Option::Some((is_verified, r3)) => {
                    if r3.len() == 0 {
                        Option::Some(UserView { id, nickname, is_verified })
                    } else {
                        Option::None
                    }
                },
                Option::None => Option::None,
            },
            Option::None => Option::None,
        },
        Option::None => Option::None,
    }
}

/// A user record parses back to exactly the value it encoded.
pub proof fn lemma_user_rt(v: UserView)
    requires
        v.id.len() <= u64::MAX,
        v.nickname.len() <= u64::MAX,
    ensures
        parse_user_bytes(enc_user(v)) == Option::Some(v),
{
    let s = enc_user(v);
    assert(s =~= enc_bytes(v.id) + (enc_bytes(v.nickname) + enc_bool(v.is_verified)));
    lemma_bytes_rt(v.id, enc_bytes(v.nickname) + enc_bool(v.is_verified));
    assert(enc_bytes(v.nickname) + enc_bool(v.is_verified) =~= enc_bytes(v.nickname) + (enc_bool(
        v.is_verified,
    ) + Seq::<u8>::empty()));
    lemma_bytes_rt(v.nickname, enc_bool(v.is_verified) + Seq::<u8>::empty());
    lemma_bool_rt(v.is_verified, Seq::<u8>::empty());
    assert(enc_bool(v.is_verified) + Seq::<u8>::empty() =~= enc_bool(v.is_verified));
}

impl User {
    /// The canonical bytes of this record.
    pub fn encode(&self) -> (r: Vec<u8>)
        ensures
            r@ == enc_user(self@),
    {
        let mut out: Vec<u8> = Vec::new();
        emit_bytes(&mut out, self.id.as_slice());
        emit_bytes(&mut out, self.nickname.as_slice());
        emit_bool(&mut out, self.is_verified);
        proof {
            assert(out@ =~= enc_user(self@));
        }
        out
    }

    /// Parses a stored byte string as a user record.
    pub fn decode(data: &[u8]) -> (r: Option<User>)
        ensures
            match r {
                Option::Some(u) => parse_user_bytes(data@) == Option::Some(u@),
                Option::None => parse_user_bytes(data@) is None,
            },
    {
        proof {
            assert(data@.skip(0) =~= data@);
        }
        let (id, p1) = match parse_bytes(data, 0) {
            Option::Some(x) => x,
            Option::None => {
                return Option::None;
            },
        };
        let (nickname, p2) = match parse_bytes(data, p1) {
            Option::Some(x) => x,
            Option::None => {
                return Option::None;
            },
        };
        let (is_verified, p3) = match parse_bool(data, p2) {
            Option::Some(x) => x,
            Option::None => {
                return Option::None;
            },
        };
        if p3 != data.len() {
            return Option::None;
        }
        assert(data@.skip(p3 as int).len() == 0);
        Option::Some(User { id, nickname, is_verified })
    }
}


impl crate::keyed::Settable for User {
    open spec fn spec_domain_prefix() -> Seq<u8> {
        "user".spec_bytes()
    }

    fn domain_prefix() -> (r: Vec<u8>) {
        bytes_of("user")
    }

    open spec fn spec_id(&self) -> Seq<u8> {
        self.id@
    }

    fn id(&self) -> (r: Vec<u8>) {
        vstd::slice::slice_to_vec(self.id.as_slice())
    }

    open spec fn spec_list_item(&self) -> Seq<u8> {
        crate::codec::enc_pair(self.id@, self.nickname@)
    }

    fn list_item(&self) -> (r: Vec<u8>) {
        crate::codec::encode_pair(self.id.as_slice(), self.nickname.as_slice())
    }

    open spec fn spec_encoded(&self) -> Seq<u8> {
        enc_user(self@)
    }

    fn encoded(&self) -> (r: Vec<u8>) {
        self.encode()
    }
}

} // verus!
