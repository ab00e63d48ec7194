//! Registry authentication headers.
//!
//! Pull and push operations authenticate against an image registry by
//! sending a JSON object — either username/password credentials or an
//! identity token — base64-encoded in the `X-Registry-Auth` request
//! header. This encoding is the layer's own concern: every byte of the
//! JSON document is pinned by [`auth_json`].

use vstd::prelude::*;
use vstd::string::StringSliceAdditionalSpecFns;
use vstd::utf8::encode_utf8;

use crate::json::{json_string, push_json_string};

verus! {

/// Credentials for an image registry.
#[derive(Clone, Debug)]
pub enum RegistryAuth {
    /// Username and password, with optional e-mail and registry address.
    Password {
        username: String,
        password: String,
        email: Option<String>,
        server_address: Option<String>,
    },
    /// An identity token obtained from a prior login.
    Token { identity_token: String },
}

/// The JSON document for `a`, field by field, in declaration order;
/// absent optional fields leave no trace.
pub open spec fn auth_json(a: RegistryAuth) -> Seq<u8> {
    match a {
        RegistryAuth::Token { identity_token } => encode_utf8("{\"identitytoken\":"@)
            + json_string(encode_utf8(identity_token@)) + encode_utf8("}"@),
        RegistryAuth::Password { username, password, email, server_address } => encode_utf8(
            "{\"username\":"@,
        ) + json_string(encode_utf8(username@)) + encode_utf8(",\"password\":"@) + json_string(
            encode_utf8(password@),
        ) + (match email {
            Some(e) => encode_utf8(",\"email\":"@) + json_string(encode_utf8(e@)),
            None => Seq::empty(),
        }) + (match server_address {
            Some(s) => encode_utf8(",\"serveraddress\":"@) + json_string(encode_utf8(s@)),
            None => Seq::empty(),
        }) + encode_utf8("}"@),
    }
}

/// What base64 with the URL-safe alphabet and `=` padding makes of a
/// byte sequence. The encoding is a pure function of the bytes.
pub uninterp spec fn base64_url_of(b: Seq<u8>) -> Seq<char>;

/// Relies on base64::encode_config with base64::URL_SAFE: the URL-safe
/// alphabet with padding, a pure function of the input; it sizes its
/// buffer as four thirds of the input, whence the length bound.
#[verifier::external_body]
fn base64_url(b: &Vec<u8>) -> (r: String)
    requires
        b@.len() <= usize::MAX as int / 4,
    ensures
        r@ == base64_url_of(b@),
        b@.len() == 0 ==> r@.len() == 0,
{
    base64::encode_config(b, base64::URL_SAFE)
}

/// Append the UTF-8 bytes of `s` to `out`.
fn push_str_bytes(out: &mut Vec<u8>, s: &str)
    ensures
        final(out)@ == old(out)@ + s.spec_bytes(),
{
    out.extend_from_slice(s.as_bytes());
}

impl RegistryAuth {
    /// Token authentication with the given identity token.
    pub fn token(token: &str) -> (r: RegistryAuth)
        ensures
            r matches RegistryAuth::Token { identity_token } && identity_token@ == token@,
    {
        RegistryAuth::Token { identity_token: token.to_owned() }
    }

    /// A builder for password authentication.
    pub fn builder() -> (r: RegistryAuthBuilder)
        ensures
            r.username is None,
            r.password is None,
            r.email is None,
            r.server_address is None,
    {
        RegistryAuthBuilder {
            username: None,
            password: None,
            email: None,
            server_address: None,
        }
    }

    /// The JSON bytes of these credentials, exactly [`auth_json`].
    pub fn to_json(&self) -> (r: Vec<u8>)
        ensures
            r@ == auth_json(*self),
    {
        let mut out: Vec<u8> = Vec::new();
        match self {
            RegistryAuth::Token { identity_token } => {
                push_str_bytes(&mut out, "{\"identitytoken\":");
                push_json_string(&mut out, identity_token.as_str());
                push_str_bytes(&mut out, "}");
            },
            RegistryAuth::Password { username, password, email, server_address } => {
                push_str_bytes(&mut out, "{\"username\":");
                push_json_string(&mut out, username.as_str());
                push_str_bytes(&mut out, ",\"password\":");
                push_json_string(&mut out, password.as_str());
                match email {
                    Some(e) => {
                        push_str_bytes(&mut out, ",\"email\":");
                        push_json_string(&mut out, e.as_str());
                    },
                    None => {},
                }
                match server_address {
                    Some(s) => {
                        push_str_bytes(&mut out, ",\"serveraddress\":");
                        push_json_string(&mut out, s.as_str());
                    },
                    None => {},
                }
                push_str_bytes(&mut out, "}");
            },
        }
        proof {
            assert(out@ =~= auth_json(*self));
        }
        out
    }

    /// The base64 form of the JSON document, as sent in the
    /// `X-Registry-Auth` header.
    pub fn serialize(&self) -> (r: String)
        requires
            auth_json(*self).len() <= usize::MAX as int / 4,
        ensures
            r@ == base64_url_of(auth_json(*self)),
    {
        let json = self.to_json();
        base64_url(&json)
    }
}

/// Accumulates the optional fields of password authentication.
#[derive(Clone, Debug)]
pub struct RegistryAuthBuilder {
    pub username: Option<String>,
    pub password: Option<String>,
    pub email: Option<String>,
    pub server_address: Option<String>,
}

impl RegistryAuthBuilder {
    /// Set the user name.
    pub fn username(&mut self, username: &str) -> (ret: &mut Self)
        ensures
            ret.username matches Some(u) && u@ == username@,
            ret.password == old(self).password,
            ret.email == old(self).email,
            ret.server_address == old(self).server_address,
            *final(self) == *final(ret),
    {
        self.username = Some(username.to_owned());
        self
    }

    /// Set the password.
    pub fn password(&mut self, password: &str) -> (ret: &mut Self)
        ensures
            ret.password matches Some(p) && p@ == password@,
            ret.username == old(self).username,
            ret.email == old(self).email,
            ret.server_address == old(self).server_address,
            *final(self) == *final(ret),
    {
        self.password = Some(password.to_owned());
        self
    }

    /// Set the e-mail address.
    pub fn email(&mut self, email: &str) -> (ret: &mut Self)
        ensures
            ret.email matches Some(e) && e@ == email@,
            ret.username == old(self).username,
            ret.password == old(self).password,
            ret.server_address == old(self).server_address,
            *final(self) == *final(ret),
    {
        self.email = Some(email.to_owned());
        self
    }

    /// Set the registry address.
    pub fn server_address(&mut self, server_address: &str) -> (ret: &mut Self)
        ensures
            ret.server_address matches Some(s) && s@ == server_address@,
            ret.username == old(self).username,
            ret.password == old(self).password,
            ret.email == old(self).email,
            *final(self) == *final(ret),
    {
        self.server_address = Some(server_address.to_owned());
        self
    }

    /// Password credentials from what was set; a missing user name or
    /// password becomes empty, missing optional fields stay absent.
    pub fn build(&self) -> (r: RegistryAuth)
        ensures
            r matches RegistryAuth::Password { username, password, email, server_address } && {
                &&& username@ == (match self.username {
                    Some(u) => u@,
                    None => Seq::<char>::empty(),
                })
                &&& password@ == (match self.password {
                    Some(p) => p@,
                    None => Seq::<char>::empty(),
                })
                &&& email == self.email
                &&& server_address == self.server_address
            },
    {
        RegistryAuth::Password {
            username: match &self.username {
                Some(u) => u.clone(),
                None => String::new(),
            },
            password: match &self.password {
                Some(p) => p.clone(),
                None => String::new(),
            },
            email: self.email.clone(),
            server_address: self.server_address.clone(),
        }
    }
}

} // verus!
