//! The record of a concealed field: its name, its value, and the encoded form
//! of both.

use crate::csd::csd_error::CsdError;
use crate::json::{
    json_parsed_bytes, json_text, read_json_bytes, write_json, JsonValue, ValueView,
};
use crate::text::{decimal, decimal_string, joined};
use vstd::prelude::*;

verus! {

/// The base64url text of `bytes`, unpadded, as `multibase` writes it.
pub uninterp spec fn base64url_text(bytes: Seq<u8>) -> Seq<char>;

/// The bytes that a base64url text stands for, as `multibase` reads it; none
/// where it refuses the text.
pub uninterp spec fn base64url_bytes(text: Seq<char>) -> Option<Seq<u8>>;

/// `multibase::Base::Base64Url.encode`. The contract names the text.
#[verifier::external_body]
fn encode_base64url(bytes: &[u8]) -> (r: String)
    ensures
        r@ == base64url_text(bytes@),
{
    multibase::Base::Base64Url.encode(bytes)
}

/// `multibase::Base::Base64Url.decode`. The contract names the bytes; none
/// where the text is refused.
#[verifier::external_body]
fn decode_base64url(text: &str) -> (r: Option<Vec<u8>>)
    ensures
        match r {
            Some(v) => base64url_bytes(text@) == Some(v@),
            None => base64url_bytes(text@) is None,
        },
{
    multibase::Base::Base64Url.decode(text).ok()
}

/// The record of a concealed field.
#[derive(Debug)]
pub struct CsdDisclosure {
    /// The claim name, optional for array elements.
    pub claim_name: Option<String>,
    /// The claim value, which can be of any type.
    pub claim_value: JsonValue,
    /// The base64url-encoded string.
    pub disclosure: String,
}

/// What a [`CsdDisclosure`] is, as a mathematical value.
pub struct DisclosureView {
    pub claim_name: Option<Seq<char>>,
    pub claim_value: ValueView,
    pub disclosure: Seq<char>,
}

impl View for CsdDisclosure {
    type V = DisclosureView;

    open spec fn view(&self) -> DisclosureView {
        DisclosureView {
            claim_name: match self.claim_name {
                Some(n) => Some(n@),
                None => None,
            },
            claim_value: self.claim_value@,
            disclosure: self.disclosure@,
        }
    }
}

/// The text that is encoded for a field: a bracket, the name in quotes if
/// there is one, the JSON text of the value, a bracket.
pub open spec fn disclosure_input(name: Option<Seq<char>>, value: ValueView) -> Seq<char> {
    match name {
        Some(n) => "[ \""@ + n + "\", "@ + json_text(value) + "]"@,
        None => "["@ + json_text(value) + "]"@,
    }
}

/// The record that the elements of a decoded array make, with `text` as its
/// encoded form: of two elements the second is the value; of three the second
/// is the name and the third the value. The error is its sentence.
pub open spec fn disclosure_of(elements: Seq<ValueView>, text: Seq<char>) -> Result<
    DisclosureView,
    Seq<char>,
> {
    if elements.len() == 2 {
        Ok(DisclosureView { claim_name: None, claim_value: elements[1], disclosure: text })
    } else if elements.len() == 3 {
        match elements[1] {
            ValueView::Text(name) => Ok(
                DisclosureView {
                    claim_name: Some(name),
                    claim_value: elements[2],
                    disclosure: text,
                },
            ),
            _ => Err("claim name could not be parsed as a string"@),
        }
    } else {
        Err("deserialized array has an invalid length of "@ + decimal(elements.len()))
    }
}

/// The record that an encoded disclosure stands for: its text is decoded,
/// the bytes are read as a JSON array, and the array's elements make the
/// record. The error is its sentence.
pub open spec fn parsed_disclosure(text: Seq<char>) -> Result<DisclosureView, Seq<char>> {
    match base64url_bytes(text) {
        None => Err("Base64 decoding of the disclosure was not possible "@ + text),
        Some(bytes) => match json_parsed_bytes(bytes) {
            Some(ValueView::Array(elements)) => disclosure_of(elements, text),
            _ => Err("decoded disclosure could not be serialized as an array "@ + text),
        },
    }
}

impl CsdDisclosure {
    /// Creates the record of a field and encodes it.
    pub fn new(claim_name: Option<String>, claim_value: JsonValue) -> (r: Self)
        ensures
            r@.claim_name == (match claim_name {
                Some(n) => Some(n@),
                None => None,
            }),
            r@.claim_value == claim_value@,
            r@.disclosure == base64url_text(
                vstd::utf8::encode_utf8(disclosure_input(r@.claim_name, claim_value@)),
            ),
    {
        let value_text = write_json(&claim_value);
        let input = match &claim_name {
            Some(name) => {
                let a = joined("[ \"", name.as_str());
                let b = joined(a.as_str(), "\", ");
                let c = joined(b.as_str(), value_text.as_str());
                joined(c.as_str(), "]")
            },
            None => {
                let a = joined("[", value_text.as_str());
                joined(a.as_str(), "]")
            },
        };
        let encoded = encode_base64url(input.as_str().as_bytes());
        Self { claim_name, claim_value, disclosure: encoded }
    }

    /// Makes the record of the elements of a decoded array.
    pub fn from_array(elements: Vec<JsonValue>, disclosure: String) -> (r: Result<Self, CsdError>)
        ensures
            match r {
                Ok(d) => disclosure_of(values(elements@), disclosure@) == Ok::<
                    DisclosureView,
                    Seq<char>,
                >(d@),
                Err(e) => disclosure_of(values(elements@), disclosure@) matches Err(m) && (
                e matches CsdError::InvalidDisclosure(s) && s@ == m),
            },
    {
        if elements.len() == 2 {
            Ok(Self { claim_name: None, claim_value: elements[1].duplicate(), disclosure })
        } else if elements.len() == 3 {
            match &elements[1] {
                JsonValue::Text(name) => Ok(
                    Self {
                        claim_name: Some(name.clone()),
                        claim_value: elements[2].duplicate(),
                        disclosure,
                    },
                ),
                _ => Err(
                    CsdError::InvalidDisclosure(
                        "claim name could not be parsed as a string".to_owned(),
                    ),
                ),
            }
        } else {
            let count = decimal_string(elements.len() as u64);
            Err(
                CsdError::InvalidDisclosure(
                    joined("deserialized array has an invalid length of ", count.as_str()),
                ),
            )
        }
    }

    /// Parses an encoded disclosure into its record.
    pub fn parse(disclosure: String) -> (r: Result<Self, CsdError>)
        ensures
            match r {
                Ok(d) => parsed_disclosure(disclosure@) == Ok::<DisclosureView, Seq<char>>(d@),
                Err(e) => parsed_disclosure(disclosure@) matches Err(m) && (
                e matches CsdError::InvalidDisclosure(s) && s@ == m),
            },
    {
        let bytes = match decode_base64url(disclosure.as_str()) {
            Some(bytes) => bytes,
            None => {
                return Err(
                    CsdError::InvalidDisclosure(
                        joined(
                            "Base64 decoding of the disclosure was not possible ",
                            disclosure.as_str(),
                        ),
                    ),
                );
            },
        };
        match read_json_bytes(&bytes) {
            Ok(JsonValue::Array(elements)) => {
                assert(JsonValue::Array(elements)@->Array_0 =~= values(elements@));
                Self::from_array(elements, disclosure)
            },
            _ => Err(
                CsdError::InvalidDisclosure(
                    joined(
                        "decoded disclosure could not be serialized as an array ",
                        disclosure.as_str(),
                    ),
                ),
            ),
        }
    }

    /// Reference the actual disclosure.
    pub fn as_str(&self) -> (r: &str)
        ensures
            r@ == self@.disclosure,
    {
        self.disclosure.as_str()
    }

    /// Convert this object into the actual disclosure.
    pub fn into_string(self) -> (r: String)
        ensures
            r@ == self@.disclosure,
    {
        self.disclosure
    }
}

/// The values of a list, as mathematical values.
pub open spec fn values(list: Seq<JsonValue>) -> Seq<ValueView> {
    Seq::new(list.len(), |i: int| list[i]@)
}

impl Clone for CsdDisclosure {
    fn clone(&self) -> (r: Self)
        ensures
            r@ == self@,
    {
        CsdDisclosure {
            claim_name: match &self.claim_name {
                Some(n) => Some(n.clone()),
                None => None,
            },
            claim_value: self.claim_value.duplicate(),
            disclosure: self.disclosure.clone(),
        }
    }
}

} // verus!
