//! The presentation string: a signed token, a tilde, and an optional
//! key-binding token.

use crate::csd::csd_error::{CsdError, CsdResult};
use crate::text::{chars_of, string_of};
use vstd::prelude::*;

verus! {

/// A presentation of the format `<signed token>~<optional key-binding token>`.
#[derive(Debug, Clone, Eq, PartialEq)]
pub struct CsdJwt {
    /// The signed token.
    pub jwt: String,
    /// The optional key-binding token.
    pub key_binding_jwt: Option<String>,
}

/// Whether `i` is the place of the first tilde of `s`.
pub open spec fn is_first_tilde(s: Seq<char>, i: int) -> bool {
    &&& 0 <= i < s.len()
    &&& s[i] == '~'
    &&& forall|j: int| 0 <= j < i ==> s[j] != '~'
}

/// Whether `i` is the place of the last tilde of `s`.
pub open spec fn is_last_tilde(s: Seq<char>, i: int) -> bool {
    &&& 0 <= i < s.len()
    &&& s[i] == '~'
    &&& forall|j: int| i < j < s.len() ==> s[j] != '~'
}

/// The place of the first tilde of a string that holds one.
pub open spec fn first_tilde(s: Seq<char>) -> int {
    choose|i: int| is_first_tilde(s, i)
}

/// The place of the last tilde of a string that holds one.
pub open spec fn last_tilde(s: Seq<char>) -> int {
    choose|i: int| is_last_tilde(s, i)
}

/// Whether a presentation ends in a key-binding token: it is not empty and
/// its last character is no tilde.
pub open spec fn ends_in_key_binding(s: Seq<char>) -> bool {
    s.len() > 0 && s.last() != '~'
}

/// Whether a presentation has too few segments: it holds no tilde at all, or
/// it ends in a key-binding token and holds a single tilde.
pub open spec fn too_few_segments(s: Seq<char>) -> bool {
    !s.contains('~') || (ends_in_key_binding(s) && first_tilde(s) == last_tilde(s))
}

/// The key-binding token of a presentation with enough segments.
pub open spec fn key_binding_of(s: Seq<char>) -> Option<Seq<char>> {
    if ends_in_key_binding(s) {
        Some(s.subrange(last_tilde(s) + 1, s.len() as int))
    } else {
        None
    }
}

impl CsdJwt {
    /// The key-binding token as characters; none when it is absent.
    pub open spec fn spec_key_binding(self) -> Option<Seq<char>> {
        match self.key_binding_jwt {
            Some(k) => Some(k@),
            None => None,
        }
    }

    /// The presentation string: the token, a tilde, the key-binding token if
    /// there is one.
    pub open spec fn spec_presentation(self) -> Seq<char> {
        match self.key_binding_jwt {
            Some(k) => self.jwt@.push('~') + k@,
            None => self.jwt@.push('~'),
        }
    }

    /// Creates a new [`CsdJwt`] from its components.
    pub fn new(jwt: String, key_binding_jwt: Option<String>) -> (r: Self)
        ensures
            r.jwt == jwt,
            r.key_binding_jwt == key_binding_jwt,
    {
        Self { jwt, key_binding_jwt }
    }

    /// Serializes the components into the final presentation.
    pub fn presentation(&self) -> (r: String)
        ensures
            r@ == self.spec_presentation(),
    {
        let mut out = self.jwt.clone();
        out.push('~');
        match &self.key_binding_jwt {
            Some(k) => {
                out.append(k.as_str());
            },
            None => {},
        }
        out
    }

    /// Parses a presentation into its components.
    pub fn parse(sd_jwt: &str) -> (r: CsdResult<Self>)
        ensures
            r is Err <==> too_few_segments(sd_jwt@),
            r matches Ok(v) ==> v.jwt@ == sd_jwt@.subrange(0, first_tilde(sd_jwt@))
                && v.spec_key_binding() == key_binding_of(sd_jwt@),
            r matches Err(e) ==> (e matches CsdError::DeserializationError(m) && m@ == (
            if !sd_jwt@.contains('~') {
                "SD-JWT format is invalid, less than 2 segments"@
            } else {
                "SD-JWT format is invalid, less than 3 segments with key binding jwt"@
            })),
    {
        let chars = chars_of(sd_jwt);
        let n = chars.len();
        let mut first: usize = 0;
        while first < n && chars[first] != '~'
            invariant
                first <= n == chars@.len(),
                forall|j: int| 0 <= j < first ==> chars@[j] != '~',
            decreases n - first,
        {
            first = first + 1;
        }
        if first == n {
            return Err(
                CsdError::DeserializationError(
                    "SD-JWT format is invalid, less than 2 segments".to_owned(),
                ),
            );
        }
        assert(is_first_tilde(sd_jwt@, first as int));
        let mut last: usize = n - 1;
        while chars[last] != '~'
            invariant
                first <= last < n == chars@.len(),
                chars@[first as int] == '~',
                forall|j: int| last < j < n ==> chars@[j] != '~',
            decreases last,
        {
            last = last - 1;
        }
        assert(is_last_tilde(sd_jwt@, last as int));
        let includes_key_binding = chars[n - 1] != '~';
        if includes_key_binding && first == last {
            let sentence = "SD-JWT format is invalid, less than 3 segments with key binding jwt";
            return Err(CsdError::DeserializationError(sentence.to_owned()));
        }
        let jwt = string_of(&chars, 0, first);
        let key_binding = if includes_key_binding {
            Some(string_of(&chars, last + 1, n))
        } else {
            None
        };
        Ok(Self { jwt, key_binding_jwt: key_binding })
    }
}

impl std::str::FromStr for CsdJwt {
    type Err = CsdError;

    fn from_str(s: &str) -> (r: Result<Self, CsdError>)
        ensures
            r is Err <==> too_few_segments(s@),
            r matches Ok(v) ==> v.jwt@ == s@.subrange(0, first_tilde(s@)) && v.spec_key_binding()
                == key_binding_of(s@),
    {
        Self::parse(s)
    }
}

} // verus!
