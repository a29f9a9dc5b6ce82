//! IP addresses of either family, read from and written as text.

use crate::ipv4::{
    ipv4_of_text, ipv4_text, lemma_ipv4_text_reads_back, lemma_ipv4_text_shape, parse_ipv4,
    push_ipv4,
};
use crate::ipv6::{ipv6_of_text, ipv6_text, parse_ipv6, push_ipv6};
use crate::ipv6_lemmas::{lemma_ipv6_text_reads_back, lemma_ipv6_text_shape};
use crate::numeral::is_hex_digit;
use crate::text::chars_of;
use vstd::prelude::*;

verus! {

/// What an IP address holds: the four octets of an IPv4 address, or the eight
/// groups of an IPv6 address.
pub enum AddressValue {
    V4(Seq<u8>),
    V6(Seq<u16>),
}

/// An IP address.
#[derive(Debug, Clone, Copy, PartialEq, Eq)]
pub enum IpAddress {
    /// An IPv4 address, as its four octets.
    V4([u8; 4]),
    /// An IPv6 address, as its eight groups of 16 bits.
    V6([u16; 8]),
}

impl View for IpAddress {
    type V = AddressValue;

    open spec fn view(&self) -> AddressValue {
        match *self {
            IpAddress::V4(octets) => AddressValue::V4(octets@),
            IpAddress::V6(groups) => AddressValue::V6(groups@),
        }
    }
}

impl AddressValue {
    /// An address has four octets or eight groups.
    pub open spec fn wf(self) -> bool {
        match self {
            AddressValue::V4(octets) => octets.len() == 4,
            AddressValue::V6(groups) => groups.len() == 8,
        }
    }
}

/// The address that a text stands for, if it is an address of either family.
pub open spec fn address_of_text(text: Seq<char>) -> Option<AddressValue> {
    match ipv4_of_text(text) {
        Some(octets) => Some(AddressValue::V4(octets)),
        None => match ipv6_of_text(text) {
            Some(groups) => Some(AddressValue::V6(groups)),
            None => None,
        },
    }
}

/// The text of an address.
pub open spec fn address_text(address: AddressValue) -> Seq<char> {
    match address {
        AddressValue::V4(octets) => ipv4_text(octets),
        AddressValue::V6(groups) => ipv6_text(groups),
    }
}

/// The view of an address that may be missing.
pub open spec fn found_view(found: Option<IpAddress>) -> Option<AddressValue> {
    match found {
        Some(address) => Some(address@),
        None => None,
    }
}

/// Reading the text of an address gives the address back.
pub proof fn lemma_address_text_reads_back(address: AddressValue)
    requires
        address.wf(),
    ensures
        address_of_text(address_text(address)) == Some(address),
{
    match address {
        AddressValue::V4(octets) => {
            lemma_ipv4_text_reads_back(octets);
        },
        AddressValue::V6(groups) => {
            lemma_ipv6_text_reads_back(groups);
        },
    }
}

/// The text of an address is not empty and holds hexadecimal digits, `:` and
/// `.` only.
pub proof fn lemma_address_text_shape(address: AddressValue)
    requires
        address.wf(),
    ensures
        address_text(address).len() > 0,
        forall|i: int|
            0 <= i < address_text(address).len() ==> is_hex_digit(
                #[trigger] address_text(address)[i],
            ) || address_text(address)[i] == ':' || address_text(address)[i] == '.',
{
    match address {
        AddressValue::V4(octets) => {
            lemma_ipv4_text_shape(octets);
        },
        AddressValue::V6(groups) => {
            lemma_ipv6_text_shape(groups);
        },
    }
}

/// Two addresses that hold the same octets or groups are the same address.
pub proof fn lemma_same_view_same_address(first: IpAddress, second: IpAddress)
    requires
        first@ == second@,
    ensures
        first == second,
{
    match (first, second) {
        (IpAddress::V4(a), IpAddress::V4(b)) => {
            assert(a@ =~= b@);
            assert(a =~= b);
        },
        (IpAddress::V6(a), IpAddress::V6(b)) => {
            assert(a@ =~= b@);
            assert(a =~= b);
        },
        _ => {},
    }
}

impl IpAddress {
    /// Whether this is an IPv4 address.
    pub fn is_ipv4(&self) -> (yes: bool)
        ensures
            yes == (self@ is V4),
    {
        match self {
            IpAddress::V4(_) => true,
            IpAddress::V6(_) => false,
        }
    }

    /// Whether this is an IPv6 address.
    pub fn is_ipv6(&self) -> (yes: bool)
        ensures
            yes == (self@ is V6),
    {
        match self {
            IpAddress::V4(_) => false,
            IpAddress::V6(_) => true,
        }
    }

    /// Reads an address from its characters.
    pub fn from_chars(text: &[char]) -> (found: Option<IpAddress>)
        ensures
            found_view(found) == address_of_text(text@),
    {
        match parse_ipv4(text) {
            Some(octets) => Some(IpAddress::V4(octets)),
            None => match parse_ipv6(text) {
                Some(groups) => Some(IpAddress::V6(groups)),
                None => None,
            },
        }
    }

    /// Reads an address from text.
    pub fn parse(s: &str) -> (found: Option<IpAddress>)
        ensures
            found_view(found) == address_of_text(s@),
    {
        let chars = chars_of(s);
        Self::from_chars(chars.as_slice())
    }

    /// The text of the address. Reading the text again gives the address back.
    pub fn to_string(&self) -> (text: String)
        ensures
            text@ == address_text(self@),
            address_of_text(text@) == Some(self@),
    {
        proof {
            lemma_address_text_reads_back(self@);
        }
        let mut text = String::new();
        match self {
            IpAddress::V4(octets) => {
                push_ipv4(&mut text, octets);
            },
            IpAddress::V6(groups) => {
                push_ipv6(&mut text, groups);
            },
        }
        text
    }
}

} // verus!
