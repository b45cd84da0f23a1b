use vstd::prelude::*;

use crate::text::{
    chars_of, has_prefix, hex_digit, hex_lower, is_hex_digit, lemma_hex_lower_len, push_hex_lower,
    push_str, starts_with, string_of,
};
use vstd::string::*;

verus! {

/// The text every contract SHA begins with.
pub open spec fn sha_prefix() -> Seq<char> {
    seq!['s', 'h', 'a', '2', '5', '6', ':']
}

/// A well-formed contract SHA: `sha256:` followed by exactly 64 ASCII
/// hexadecimal digits.
pub open spec fn valid_sha(s: Seq<char>) -> bool {
    &&& has_prefix(s, sha_prefix())
    &&& s.len() == 71
    &&& forall|i: int| 7 <= i < 71 ==> is_hex_digit(#[trigger] s[i])
}

/// The full text `ContractSha::new` works on: the argument, with `sha256:`
/// put in front when it does not begin with it.
pub open spec fn with_sha_prefix(s: Seq<char>) -> Seq<char> {
    if has_prefix(s, sha_prefix()) {
        s
    } else {
        sha_prefix() + s
    }
}

/// Content address of a stored contract: `sha256:` and 64 hex digits.
#[derive(Debug, PartialEq, Eq, Hash, PartialOrd, Ord)]
pub struct ContractSha(String);

/// A text that is not a well-formed contract SHA.
#[derive(Debug, PartialEq, Eq)]
pub struct ContractShaParseError {
    value: String,
}

impl View for ContractSha {
    type V = Seq<char>;

    closed spec fn view(&self) -> Seq<char> {
        self.0@
    }
}

impl ContractSha {
    #[verifier::type_invariant]
    closed spec fn well_formed(self) -> bool {
        valid_sha(self.0@)
    }

    /// Builds a SHA from its hex digits, with or without the `sha256:` prefix.
    pub fn new(hex: String) -> (r: Result<Self, ContractShaParseError>)
        ensures
            r is Ok <==> valid_sha(with_sha_prefix(hex@)),
            match r {
                Ok(sha) => sha@ == with_sha_prefix(hex@),
                Err(e) => e@ == with_sha_prefix(hex@),
            },
    {
        let prefix = "sha256:";
        proof {
            reveal_strlit("sha256:");
            assert(prefix@ =~= sha_prefix());
        }
        let value = if starts_with(hex.as_str(), prefix) {
            hex
        } else {
            let mut v = string_of(prefix);
            push_str(&mut v, hex.as_str());
            v
        };
        match validate(value.as_str()) {
            Ok(()) => Ok(ContractSha(value)),
            Err(e) => Err(e),
        }
    }

    /// Reads a full SHA text; unlike `new`, the prefix is required.
    pub fn parse(value: &str) -> (r: Result<Self, ContractShaParseError>)
        ensures
            r is Ok <==> valid_sha(value@),
            match r {
                Ok(sha) => sha@ == value@,
                Err(e) => e@ == value@,
            },
    {
        validate(value)?;
        Ok(ContractSha(string_of(value)))
    }

    /// The SHA whose digits are the lowercase hex form of a 32-byte digest.
    pub fn from_digest(digest: &[u8]) -> (r: Self)
        requires
            digest@.len() == 32,
        ensures
            r@ == sha_prefix() + hex_lower(digest@),
    {
        let prefix = "sha256:";
        proof {
            reveal_strlit("sha256:");
            assert(prefix@ =~= sha_prefix());
            lemma_hex_lower_len(digest@);
        }
        let mut value = string_of(prefix);
        push_hex_lower(&mut value, digest);
        proof {
            let v = value@;
            assert(v.subrange(0, 7) =~= sha_prefix());
            assert forall|i: int| 7 <= i < 71 implies is_hex_digit(#[trigger] v[i]) by {
                assert(v[i] == hex_lower(digest@)[i - 7]);
            }
        }
        ContractSha(value)
    }

    /// The full text, `sha256:` and the hex digits; always well formed.
    pub fn as_str(&self) -> (r: &str)
        ensures
            r@ == self@,
            valid_sha(self@),
    {
        proof {
            use_type_invariant(self);
        }
        self.0.as_str()
    }

    /// The 64 hex digits, without the prefix.
    pub fn hex(&self) -> (r: &str)
        ensures
            r@ == self@.subrange(7, 71),
            valid_sha(self@),
    {
        proof {
            use_type_invariant(self);
        }
        self.0.as_str().substring_char(7, 71)
    }

    /// A copy of this SHA.
    pub fn copy(&self) -> (r: Self)
        ensures
            r@ == self@,
    {
        proof {
            use_type_invariant(self);
        }
        ContractSha(self.0.clone())
    }
}

impl Clone for ContractSha {
    fn clone(&self) -> (r: Self)
        ensures
            r@ == self@,
    {
        self.copy()
    }
}

impl View for ContractShaParseError {
    type V = Seq<char>;

    /// The text that was refused.
    closed spec fn view(&self) -> Seq<char> {
        self.value@
    }
}

impl ContractShaParseError {
    /// `invalid contract sha: <value>`
    pub fn message(&self) -> (r: String)
        ensures
            r@ == "invalid contract sha: "@ + self@,
    {
        let mut r = string_of("invalid contract sha: ");
        push_str(&mut r, self.value.as_str());
        r
    }
}

impl Clone for ContractShaParseError {
    fn clone(&self) -> (r: Self)
        ensures
            r@ == self@,
    {
        ContractShaParseError { value: self.value.clone() }
    }
}

/// Checks that `value` is `sha256:` followed by exactly 64 hex digits.
pub fn validate(value: &str) -> (r: Result<(), ContractShaParseError>)
    ensures
        r is Ok <==> valid_sha(value@),
        match r {
            Ok(_) => true,
            Err(e) => e@ == value@,
        },
{
    let prefix = "sha256:";
    proof {
        reveal_strlit("sha256:");
        assert(prefix@ =~= sha_prefix());
    }
    if !starts_with(value, prefix) {
        return Err(ContractShaParseError { value: string_of(value) });
    }
    let cs = chars_of(value);
    if cs.len() != 71 {
        return Err(ContractShaParseError { value: string_of(value) });
    }
    let mut i: usize = 7;
    while i < 71
        invariant
            7 <= i <= 71,
            cs@ == value@,
            cs@.len() == 71,
            forall|j: int| 7 <= j < i ==> is_hex_digit(#[trigger] value@[j]),
        decreases 71 - i,
    {
        if !hex_digit(cs[i]) {
            return Err(ContractShaParseError { value: string_of(value) });
        }
        i = i + 1;
    }
    Ok(())
}

impl std::str::FromStr for ContractSha {
    type Err = ContractShaParseError;

    fn from_str(value: &str) -> (r: Result<Self, Self::Err>)
        ensures
            r is Ok <==> valid_sha(value@),
            match r {
                Ok(sha) => sha@ == value@,
                Err(e) => e@ == value@,
            },
    {
        ContractSha::parse(value)
    }
}

} // verus!
