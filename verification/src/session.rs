//! A session store: names with values, and a secret with which values are
//! encoded for the client.

use crate::error::Error;
use crate::string_map::StringMap;
use crate::text::{lowercased, to_lowercase};
use short_crypt::ShortCrypt;
use vstd::prelude::*;
use vstd::utf8::*;

verus! {

/// Prefix used on the session cookie.
pub const PREFIX: &'static str = "__vial_";

/// What `ShortCrypt::encrypt_to_url_component` makes of a text under the
/// key that `ShortCrypt::new` makes of a secret.
pub uninterp spec fn url_cipher(secret: Seq<char>, plain: Seq<char>) -> Seq<char>;

/// What `ShortCrypt::decrypt_url_component` reads from a text under the key
/// that `ShortCrypt::new` makes of a secret, if it reads anything.
pub uninterp spec fn url_plain(secret: Seq<char>, cipher: Seq<char>) -> Option<Seq<u8>>;

/// What `String::from_utf8_lossy` makes of bytes.
pub uninterp spec fn lossy_text(bytes: Seq<u8>) -> Seq<char>;

/// `ShortCrypt::encrypt_to_url_component`, under the key of `secret`. Not
/// verified: the cipher is a function of the secret and the text, and the
/// contract only gives it a name.
#[verifier::external_body]
fn encrypt_url_component(secret: &str, plain: &str) -> (cipher: String)
    ensures
        cipher@ == url_cipher(secret@, plain@),
{
    ShortCrypt::new(secret).encrypt_to_url_component(plain)
}

/// `ShortCrypt::decrypt_url_component`, under the key of `secret`, with its
/// error dropped. Not verified: what is read is a function of the secret and
/// the text, and the contract only gives it a name.
#[verifier::external_body]
fn decrypt_url_component(secret: &str, cipher: &str) -> (plain: Option<Vec<u8>>)
    ensures
        match url_plain(secret@, cipher@) {
            Some(bytes) => plain matches Some(v) && v@ == bytes,
            None => plain is None,
        },
{
    ShortCrypt::new(secret).decrypt_url_component(cipher).ok()
}

/// `String::from_utf8_lossy`. Not verified: the contract names the result,
/// and restates from the documentation of the standard library that valid
/// UTF-8 is read as it is.
#[verifier::external_body]
fn utf8_lossy(bytes: &[u8]) -> (text: String)
    ensures
        text@ == lossy_text(bytes@),
        valid_utf8(bytes@) ==> text@ == decode_utf8(bytes@),
{
    String::from_utf8_lossy(bytes).into_owned()
}

/// A session store that can encode its values.
pub struct Session {
    store: StringMap,
    secret: String,
}

impl Session {
    /// The values of the session, by their names in lower case.
    pub closed spec fn values(&self) -> Map<Seq<char>, Seq<char>> {
        self.store@
    }

    /// The secret of the session.
    pub closed spec fn secret(&self) -> Seq<char> {
        self.secret@
    }

    /// An empty session store with the given secret.
    pub fn new(secret: &str) -> (session: Session)
        ensures
            session.values() == Map::<Seq<char>, Seq<char>>::empty(),
            session.secret() == secret@,
    {
        Session { store: StringMap::new(), secret: secret.to_owned() }
    }

    /// Sets a value. The case of the name does not matter.
    pub fn set(&mut self, name: &str, val: &str)
        ensures
            final(self).values() == old(self).values().insert(lowercased(name@), val@),
            final(self).secret() == old(self).secret(),
    {
        self.store.insert(to_lowercase(name), val.to_owned());
    }

    /// The value under a name.
    pub fn get(&self, name: &str) -> (value: Option<&str>)
        ensures
            match value {
                Some(v) => self.values().contains_key(lowercased(name@)) && self.values()[lowercased(
                    name@,
                )] == v@,
                None => !self.values().contains_key(lowercased(name@)),
            },
    {
        let key = to_lowercase(name);
        self.store.get(key.as_str())
    }

    /// Removes a value: the name is left with the empty value.
    pub fn remove(&mut self, name: &str)
        ensures
            final(self).values() == old(self).values().insert(lowercased(name@), Seq::empty()),
            final(self).secret() == old(self).secret(),
    {
        self.store.insert(to_lowercase(name), String::new());
    }

    /// Encodes a value under the secret of the session.
    pub fn encode(&self, val: &str) -> (cipher: String)
        ensures
            cipher@ == url_cipher(self.secret(), val@),
    {
        encrypt_url_component(self.secret.as_str(), val)
    }

    /// The text of what was read from an encoded value; the error where
    /// nothing was read.
    pub fn read_plain(plain: Option<Vec<u8>>) -> (value: Result<String, Error>)
        ensures
            match plain {
                Some(bytes) => value matches Ok(text) && text@ == lossy_text(bytes@) && (valid_utf8(
                    bytes@,
                ) ==> text@ == decode_utf8(bytes@)),
                None => value matches Err(e) && e is SessionDecode,
            },
    {
        match plain {
            Some(bytes) => Ok(utf8_lossy(bytes.as_slice())),
            None => Err(Error::SessionDecode),
        }
    }

    /// Decodes a value under the secret of the session.
    pub fn decode(&self, val: &str) -> (value: Result<String, Error>)
        ensures
            match url_plain(self.secret(), val@) {
                Some(bytes) => value matches Ok(text) && text@ == lossy_text(bytes),
                None => value matches Err(e) && e is SessionDecode,
            },
    {
        Session::read_plain(decrypt_url_component(self.secret.as_str(), val))
    }
}

} // verus!
