//! Network keys and the text token that carries them.
//!
//! A token is the base64 text of the access key, followed, where the key holds
//! a secret key, by `:` and the base64 text of the secret key.

use crate::outside::{
    decode_url_safe, encode_url_safe, is_url_safe_symbol, max_decodable_len, max_encodable_len,
    url_safe_bytes, url_safe_text,
};
use crate::text::{
    chars_of, is_free_of, lemma_split_joined, lemma_split_whole, split, split_spans,
};
use vstd::prelude::*;
use vstd::string::*;

verus! {

/// The separator between the two parts of a token.
pub open spec fn separator() -> char {
    ':'
}

/// What a network key holds: the bytes of its access key and, for the owner of
/// a network, those of its secret key.
pub struct KeyMaterial {
    pub access_key: Seq<u8>,
    pub secret_key: Option<Seq<u8>>,
}

impl KeyMaterial {
    /// The key is short enough for its token to be written: the length of the
    /// base64 text of each of its parts fits in `usize`.
    pub open spec fn encodable(self) -> bool {
        &&& self.access_key.len() <= max_encodable_len()
        &&& self.secret_key matches Some(secret) ==> secret.len() <= max_encodable_len()
    }
}

/// A text is short enough to be read as a token.
pub open spec fn is_token_size(text: Seq<char>) -> bool {
    text.len() <= max_decodable_len()
}

/// A network key is used to connect to or control a network.
#[derive(Debug, Clone, PartialEq, Eq)]
pub struct NetworkKey {
    /// The access key allows you to access the network.
    pub access_key: Vec<u8>,
    /// The secret key allows you to control the network.
    pub secret_key: Option<Vec<u8>>,
}

impl View for NetworkKey {
    type V = KeyMaterial;

    open spec fn view(&self) -> KeyMaterial {
        KeyMaterial {
            access_key: self.access_key@,
            secret_key: match self.secret_key {
                Some(secret) => Some(secret@),
                None => None,
            },
        }
    }
}

/// Why a token could not be read.
#[derive(Debug, Clone, Copy, PartialEq, Eq)]
pub enum DecodeError {
    /// The token holds no key: no part of it is base64 text, or, where every
    /// part has to be, one of them is not.
    Malformed,
}

/// What to do with a part of a token that is not base64 text.
#[derive(Debug, Clone, Copy, PartialEq, Eq)]
pub enum DecodePolicy {
    /// Pass over it: the keys are the first two parts that are base64 text.
    SkipMalformed,
    /// Refuse the token.
    RejectMalformed,
}

/// The token of a key.
pub open spec fn token_text(key: KeyMaterial) -> Seq<char> {
    match key.secret_key {
        Some(secret) => url_safe_text(key.access_key) + seq![separator()] + url_safe_text(secret),
        None => url_safe_text(key.access_key),
    }
}

/// The byte strings of those `parts` that are base64 text, in order.
pub open spec fn decoded_parts(parts: Seq<Seq<char>>) -> Seq<Seq<u8>>
    decreases parts.len(),
{
    if parts.len() == 0 {
        Seq::empty()
    } else {
        let before = decoded_parts(parts.drop_last());
        match url_safe_bytes(parts.last()) {
            Some(bytes) => before.push(bytes),
            None => before,
        }
    }
}

/// Every one of `parts` is base64 text.
pub open spec fn all_decodable(parts: Seq<Seq<char>>) -> bool {
    forall|i: int| 0 <= i < parts.len() ==> (#[trigger] url_safe_bytes(parts[i])) is Some
}

/// The key made of the first one or two of `keys`, or the error where there is
/// none.
pub open spec fn key_of(keys: Seq<Seq<u8>>) -> Result<KeyMaterial, DecodeError> {
    if keys.len() == 0 {
        Err(DecodeError::Malformed)
    } else {
        Ok(
            KeyMaterial {
                access_key: keys[0],
                secret_key: if keys.len() > 1 {
                    Some(keys[1])
                } else {
                    None
                },
            },
        )
    }
}

/// The key that a token stands for. The token is cut at each `:`. The first
/// part that is base64 text is the access key, the second one, if any, the
/// secret key; further parts are not looked at. Under
/// `DecodePolicy::RejectMalformed` a token with a part that is not base64 text
/// stands for no key.
pub open spec fn token_key(text: Seq<char>, policy: DecodePolicy) -> Result<
    KeyMaterial,
    DecodeError,
> {
    let parts = split(text, separator());
    if policy == DecodePolicy::RejectMalformed && !all_decodable(parts) {
        Err(DecodeError::Malformed)
    } else {
        key_of(decoded_parts(parts))
    }
}

/// No symbol of the base64 alphabet is the separator.
pub proof fn lemma_symbols_hold_no_separator(text: Seq<char>)
    requires
        forall|i: int| 0 <= i < text.len() ==> is_url_safe_symbol(#[trigger] text[i]),
    ensures
        is_free_of(text, separator()),
{
}

/// A token made of one or two base64 texts that hold no separator is read,
/// under either policy, as the key whose bytes those texts decode to.
pub proof fn lemma_token_reads_back(
    access: Seq<char>,
    secret: Option<Seq<char>>,
    key: KeyMaterial,
    policy: DecodePolicy,
)
    requires
        is_free_of(access, separator()),
        url_safe_bytes(access) == Some(key.access_key),
        secret is Some <==> key.secret_key is Some,
        secret matches Some(text) ==> url_safe_bytes(text) == key.secret_key && is_free_of(
            text,
            separator(),
        ),
    ensures
        token_key(
            match secret {
                Some(text) => access + seq![separator()] + text,
                None => access,
            },
            policy,
        ) == Ok::<KeyMaterial, DecodeError>(key),
{
    let none: Seq<Seq<char>> = Seq::empty();
    assert(decoded_parts(none) == Seq::<Seq<u8>>::empty());
    assert(seq![access].drop_last() == none);
    assert(seq![access].last() == access);
    assert(decoded_parts(seq![access]) == seq![key.access_key]);
    match secret {
        Some(text) => {
            let parts = seq![access, text];
            lemma_split_whole(text, separator());
            lemma_split_joined(access, text, separator());
            assert(seq![access] + seq![text] == parts);
            assert(parts.drop_last() == seq![access]);
            assert(parts.last() == text);
            assert(decoded_parts(parts) == seq![key.access_key, key.secret_key->0]);
        },
        None => {
            lemma_split_whole(access, separator());
        },
    }
}

/// The base64 texts among the first `upto` parts come first among those of
/// all the parts.
pub proof fn lemma_decoded_parts_grow(parts: Seq<Seq<char>>, upto: int)
    requires
        0 <= upto <= parts.len(),
    ensures
        decoded_parts(parts.take(upto)).len() <= decoded_parts(parts).len(),
        forall|i: int|
            0 <= i < decoded_parts(parts.take(upto)).len() ==> decoded_parts(parts.take(upto))[i]
                == decoded_parts(parts)[i],
    decreases parts.len(),
{
    if upto == parts.len() {
        assert(parts.take(upto) == parts);
    } else {
        assert(parts.drop_last().take(upto) == parts.take(upto));
        lemma_decoded_parts_grow(parts.drop_last(), upto);
    }
}

/// No byte string comes out of `parts` exactly where none of them is base64
/// text.
pub proof fn lemma_no_key_without_text(parts: Seq<Seq<char>>)
    ensures
        decoded_parts(parts).len() == 0 <==> forall|i: int|
            0 <= i < parts.len() ==> (#[trigger] url_safe_bytes(parts[i])) is None,
    decreases parts.len(),
{
    if parts.len() > 0 {
        let before = parts.drop_last();
        lemma_no_key_without_text(before);
        if decoded_parts(parts).len() == 0 {
            assert forall|i: int| 0 <= i < parts.len() implies (#[trigger] url_safe_bytes(
                parts[i],
            )) is None by {
                if i < before.len() {
                    assert(url_safe_bytes(before[i]) is None);
                }
            }
        } else if url_safe_bytes(parts.last()) is None {
            let found = choose|i: int|
                0 <= i < before.len() && (#[trigger] url_safe_bytes(before[i])) is Some;
            assert(url_safe_bytes(parts[found]) is Some);
        } else {
            assert(url_safe_bytes(parts[parts.len() - 1]) is Some);
        }
    }
}

/// Read with parts passed over, a token is malformed only where not one of
/// its parts is base64 text.
pub proof fn lemma_malformed_without_text(text: Seq<char>)
    ensures
        token_key(text, DecodePolicy::SkipMalformed) is Err <==> forall|i: int|
            0 <= i < split(text, separator()).len() ==> (#[trigger] url_safe_bytes(
                split(text, separator())[i],
            )) is None,
{
    lemma_no_key_without_text(split(text, separator()));
}

/// A key that is read where malformed parts are refused is the key that is
/// read where they are passed over.
pub proof fn lemma_strict_agrees_with_lenient(text: Seq<char>)
    ensures
        token_key(text, DecodePolicy::RejectMalformed) is Ok ==> token_key(
            text,
            DecodePolicy::RejectMalformed,
        ) == token_key(text, DecodePolicy::SkipMalformed),
{
}

/// The result of reading a token, as the key material it holds or the error.
pub open spec fn read_view(read: Result<NetworkKey, DecodeError>) -> Result<
    KeyMaterial,
    DecodeError,
> {
    match read {
        Ok(key) => Ok(key@),
        Err(error) => Err(error),
    }
}

impl NetworkKey {
    /// Whether the key is short enough for `to_string`.
    pub fn is_encodable(&self) -> (yes: bool)
        ensures
            yes == self@.encodable(),
    {
        let limit: usize = usize::MAX / 4 * 3;
        self.access_key.len() <= limit && match &self.secret_key {
            Some(secret) => secret.len() <= limit,
            None => true,
        }
    }

    /// Whether a text is short enough for `from_str`.
    pub fn is_token_size(s: &str) -> (yes: bool)
        ensures
            yes == is_token_size(s@),
    {
        s.unicode_len() <= (usize::MAX - 7) / 4
    }

    /// Reads a token, passing over the parts that are not base64 text.
    pub fn from_str(s: &str) -> (read: Result<NetworkKey, DecodeError>)
        requires
            is_token_size(s@),
        ensures
            read_view(read) == token_key(s@, DecodePolicy::SkipMalformed),
    {
        Self::from_str_with(s, DecodePolicy::SkipMalformed)
    }

    /// Reads a token under the given policy.
    pub fn from_str_with(s: &str, policy: DecodePolicy) -> (read: Result<NetworkKey, DecodeError>)
        requires
            is_token_size(s@),
        ensures
            read_view(read) == token_key(s@, policy),
    {
        let reject = match policy {
            DecodePolicy::RejectMalformed => true,
            DecodePolicy::SkipMalformed => false,
        };
        let chars = chars_of(s);
        let spans = split_spans(chars.as_slice(), ':');
        let ghost parts = split(s@, separator());
        let mut access: Option<Vec<u8>> = None;
        let mut secret: Option<Vec<u8>> = None;
        let ghost mut keys: Seq<Seq<u8>> = Seq::empty();
        let mut i: usize = 0;
        assert(parts.take(0) == Seq::<Seq<char>>::empty());
        while i < spans.len() && (reject || secret.is_none())
            invariant
                i <= spans@.len() == parts.len(),
                parts == split(s@, separator()),
                chars@ == s@,
                s@.len() <= max_decodable_len(),
                reject == (policy == DecodePolicy::RejectMalformed),
                forall|j: int|
                    0 <= j < spans@.len() ==> (#[trigger] spans@[j]).fits(chars@.len())
                        && spans@[j].of(chars@) == parts[j],
                keys == decoded_parts(parts.take(i as int)),
                reject ==> all_decodable(parts.take(i as int)),
                access is None <==> keys.len() == 0,
                access matches Some(bytes) ==> bytes@ == keys[0],
                secret is None <==> keys.len() <= 1,
                secret matches Some(bytes) ==> bytes@ == keys[1],
            decreases spans@.len() - i,
        {
            let span = spans[i];
            let part = s.substring_char(span.start, span.end);
            let decoded = decode_url_safe(part);
            proof {
                assert(part@ == parts[i as int]);
                assert(parts.take(i + 1).drop_last() == parts.take(i as int));
                assert(parts.take(i + 1).last() == parts[i as int]);
            }
            match decoded {
                Some(bytes) => {
                    proof {
                        keys = keys.push(bytes@);
                        if reject {
                            assert forall|j: int| 0 <= j < i + 1 implies (
                            #[trigger] url_safe_bytes(parts.take(i + 1)[j])) is Some by {
                                if j < i {
                                    assert(url_safe_bytes(parts.take(i as int)[j]) is Some);
                                }
                            }
                        }
                    }
                    if access.is_none() {
                        access = Some(bytes);
                    } else if secret.is_none() {
                        secret = Some(bytes);
                    }
                },
                None => {
                    if reject {
                        return Err(DecodeError::Malformed);
                    }
                },
            }
            i += 1;
        }
        proof {
            lemma_decoded_parts_grow(parts, i as int);
            if i == spans@.len() {
                assert(parts.take(i as int) == parts);
            }
        }
        match access {
            Some(access_key) => Ok(NetworkKey { access_key, secret_key: secret }),
            None => Err(DecodeError::Malformed),
        }
    }

    /// The token of the key. Reading the token again gives the key back,
    /// whatever the policy.
    pub fn to_string(&self) -> (token: String)
        requires
            self@.encodable(),
        ensures
            token@ == token_text(self@),
            forall|policy: DecodePolicy|
                #[trigger] token_key(token@, policy) == Ok::<KeyMaterial, DecodeError>(self@),
    {
        let mut token = encode_url_safe(self.access_key.as_slice());
        let ghost access = token@;
        proof {
            lemma_symbols_hold_no_separator(access);
        }
        match &self.secret_key {
            Some(secret) => {
                let secret_text = encode_url_safe(secret.as_slice());
                proof {
                    reveal_strlit(":");
                    lemma_symbols_hold_no_separator(secret_text@);
                    assert(":"@ == seq![separator()]);
                    assert forall|policy: DecodePolicy|
                        #[trigger] token_key(access + seq![separator()] + secret_text@, policy)
                            == Ok::<KeyMaterial, DecodeError>(self@) by {
                        lemma_token_reads_back(access, Some(secret_text@), self@, policy);
                    }
                }
                token.append(":");
                token.append(secret_text.as_str());
            },
            None => {
                proof {
                    assert forall|policy: DecodePolicy| #[trigger]
                        token_key(access, policy) == Ok::<KeyMaterial, DecodeError>(self@) by {
                        lemma_token_reads_back(access, None, self@, policy);
                    }
                }
            },
        }
        token
    }
}

} // verus!
