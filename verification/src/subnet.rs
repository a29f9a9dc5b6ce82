//! Subnets written as an address, `/` and a prefix length, such as
//! `192.168.1.1/24` or `fe80::1/64`.

use crate::ip_address::{
    address_of_text, address_text, lemma_address_text_reads_back, lemma_address_text_shape,
    AddressValue, IpAddress,
};
use crate::numeral::{decimal_text, decimal_value, is_decimal, lemma_decimal_text, parse_decimal};
use crate::text::{chars_of, find_from, first_index, lemma_first_index};
use vstd::prelude::*;
use vstd::slice::slice_subrange;

verus! {

/// Why a text is no subnet.
#[derive(Debug, Clone, Copy, PartialEq, Eq)]
pub enum ParseError {
    /// The text holds no `/`, so the prefix length is missing.
    MissingField,
    /// What stands before the first `/` is no IP address.
    InvalidAddress,
    /// What stands after the first `/` is no number from 0 to 255.
    InvalidPrefix,
    /// The prefix length is above 30 for an IPv4 address or above 126 for an
    /// IPv6 address.
    PrefixOutOfRange,
}

/// The longest prefix that a subnet of the address's family may have.
pub open spec fn max_prefix(address: AddressValue) -> u8 {
    match address {
        AddressValue::V4(_) => 30,
        AddressValue::V6(_) => 126,
    }
}

/// The prefix length that a text stands for: a decimal numeral for at most
/// 255, which a `+` may precede and which may begin with zeros.
pub open spec fn prefix_of_text(text: Seq<char>) -> Option<u8> {
    let digits = if text.len() > 0 && text[0] == '+' {
        text.skip(1)
    } else {
        text
    };
    if is_decimal(digits) && decimal_value(digits) <= 255 {
        Some(decimal_value(digits) as u8)
    } else {
        None
    }
}

/// The subnet that a text stands for. The empty text stands for none, which
/// is no error. Any other text is cut at its first `/`. The part before it
/// has to be an address; then there has to be a `/`; then the part after it
/// has to be a prefix length; and that length has to be in the range of the
/// address's family. The first of these that fails is the error.
pub open spec fn subnet_of_text(text: Seq<char>) -> Result<Option<(AddressValue, u8)>, ParseError> {
    let cut = first_index(text, '/') as int;
    if text.len() == 0 {
        Ok(None)
    } else {
        match address_of_text(text.take(cut)) {
            None => Err(ParseError::InvalidAddress),
            Some(address) => if cut >= text.len() {
                Err(ParseError::MissingField)
            } else {
                match prefix_of_text(text.skip(cut + 1)) {
                    None => Err(ParseError::InvalidPrefix),
                    Some(prefix) => if prefix > max_prefix(address) {
                        Err(ParseError::PrefixOutOfRange)
                    } else {
                        Ok(Some((address, prefix)))
                    },
                }
            },
        }
    }
}

/// The text of a subnet: the address, `/`, and the prefix length as a decimal
/// numeral.
pub open spec fn subnet_text(address: AddressValue, prefix: u8) -> Seq<char> {
    address_text(address) + seq!['/'] + decimal_text(prefix as nat)
}

/// Reading the text of a subnet gives the subnet back, where its prefix
/// length is in the range of the address's family.
pub proof fn lemma_subnet_text_reads_back(address: AddressValue, prefix: u8)
    requires
        address.wf(),
        prefix <= max_prefix(address),
    ensures
        subnet_of_text(subnet_text(address, prefix)) == Ok::<
            Option<(AddressValue, u8)>,
            ParseError,
        >(Some((address, prefix))),
{
    let before = address_text(address);
    let after = decimal_text(prefix as nat);
    let text = subnet_text(address, prefix);
    lemma_address_text_shape(address);
    lemma_address_text_reads_back(address);
    lemma_decimal_text(prefix as nat);
    assert forall|i: int| 0 <= i < before.len() implies text[i] != '/' by {
        assert(text[i] == before[i]);
    }
    lemma_first_index(text, '/', before.len() as int);
    assert(text.take(before.len() as int) == before);
    assert(text.skip(before.len() as int + 1) == after);
}

/// A subnet that was read has a prefix length in the range of its address's
/// family: at most 30 for IPv4 and at most 126 for IPv6.
pub proof fn lemma_subnet_prefix_in_range(text: Seq<char>)
    ensures
        subnet_of_text(text) matches Ok(Some((address, prefix))) ==> prefix <= max_prefix(address),
{
}

/// The view of the outcome of reading a subnet.
pub open spec fn subnet_view(read: Result<Option<(IpAddress, u8)>, ParseError>) -> Result<
    Option<(AddressValue, u8)>,
    ParseError,
> {
    match read {
        Ok(Some((address, prefix))) => Ok(Some((address@, prefix))),
        Ok(None) => Ok(None),
        Err(error) => Err(error),
    }
}

/// Reads a prefix length.
pub fn parse_prefix(text: &[char]) -> (prefix: Option<u8>)
    ensures
        prefix == prefix_of_text(text@),
{
    let digits = if text.len() > 0 && text[0] == '+' {
        slice_subrange(text, 1, text.len())
    } else {
        text
    };
    assert(text@.subrange(1, text@.len() as int) == text@.skip(1));
    match parse_decimal(digits, 255) {
        Some(value) => Some(value as u8),
        None => None,
    }
}

/// Convert a string to an IP/CIDR pair.
///
/// Returns a `Result` for input errors, and an `Option` for empty input.
/// The option can be used to set a default subnet if one is not provided.
pub fn string_to_ip_cidr(input: &str) -> (read: Result<Option<(IpAddress, u8)>, ParseError>)
    ensures
        subnet_view(read) == subnet_of_text(input@),
        read matches Ok(Some((address, prefix))) ==> prefix <= max_prefix(address@),
{
    let chars = chars_of(input);
    let text = chars.as_slice();
    if text.len() == 0 {
        return Ok(None);
    }
    assert(text@.skip(0) == text@);
    let cut = find_from(text, 0, '/');
    let before = slice_subrange(text, 0, cut);
    assert(before@ == text@.take(cut as int));
    let address = match IpAddress::from_chars(before) {
        Some(address) => address,
        None => {
            return Err(ParseError::InvalidAddress);
        },
    };
    if cut >= text.len() {
        return Err(ParseError::MissingField);
    }
    let after = slice_subrange(text, cut + 1, text.len());
    assert(after@ == text@.skip(cut + 1));
    let prefix = match parse_prefix(after) {
        Some(prefix) => prefix,
        None => {
            return Err(ParseError::InvalidPrefix);
        },
    };
    if (address.is_ipv4() && prefix > 30) || (address.is_ipv6() && prefix > 126) {
        return Err(ParseError::PrefixOutOfRange);
    }
    Ok(Some((address, prefix)))
}

} // verus!
