//! The version of the protocol that engines speak with each other.

use vstd::prelude::*;
use crate::text::{
    char_at, chars_of, decimal, find_char, is_digit, lemma_char_at, lemma_decimal_value,
    number_value, numbers_are_read_back, parse_unsigned, slice_text, unsigned_value,
};

verus! {

/// The version that this engine speaks.
pub const PROTOCOL_VERSION: &'static str = "1.0";

/// The major part of the version that this engine speaks.
pub const PROTOCOL_MAJOR: u64 = 1;

/// The minor part of the version that this engine speaks.
pub const PROTOCOL_MINOR: u64 = 0;

/// How a peer's version relates to ours.
#[derive(Debug, Clone, Copy, PartialEq, Eq, Structural)]
pub enum Compatibility {
    /// The same version.
    Compatible,
    /// The same major version with another minor one: accepted.
    MinorMismatch,
    /// Another major version, or no version at all: refused.
    Incompatible,
}

/// The major and the minor part of a version text.
pub open spec fn version_parts(version: Seq<char>) -> Option<(nat, nat)> {
    match char_at(version, '.', 0) {
        None => None,
        Some(i) => match (
            unsigned_value(version.take(i), u64::MAX as nat),
            unsigned_value(version.skip(i + 1), u64::MAX as nat),
        ) {
            (Some(major), Some(minor)) => Some((major, minor)),
            _ => None,
        },
    }
}

/// How a peer's version relates to ours.
pub open spec fn compatibility(version: Seq<char>) -> Compatibility {
    match version_parts(version) {
        None => Compatibility::Incompatible,
        Some((major, minor)) => if major != PROTOCOL_MAJOR {
            Compatibility::Incompatible
        } else if minor != PROTOCOL_MINOR {
            Compatibility::MinorMismatch
        } else {
            Compatibility::Compatible
        },
    }
}

/// Holds a peer's version against ours.
pub fn check_compatibility(version: &str) -> (r: Compatibility)
    ensures
        r == compatibility(version@),
{
    let v = chars_of(version);
    match find_char(&v, '.') {
        None => Compatibility::Incompatible,
        Some(i) => {
            let major = slice_text(&v, 0, i);
            let minor = slice_text(&v, i + 1, v.len());
            assert(v@.subrange(0, i as int) =~= v@.take(i as int));
            assert(v@.subrange(i + 1, v@.len() as int) =~= v@.skip(i + 1));
            match (
                parse_unsigned(major.as_str(), u64::MAX),
                parse_unsigned(minor.as_str(), u64::MAX),
            ) {
                (Some(a), Some(b)) => if a != PROTOCOL_MAJOR {
                    Compatibility::Incompatible
                } else if b != PROTOCOL_MINOR {
                    Compatibility::MinorMismatch
                } else {
                    Compatibility::Compatible
                },
                _ => Compatibility::Incompatible,
            }
        },
    }
}

/// Two engines that speak the version of this one understand each other.
pub proof fn own_version_is_compatible()
    ensures
        compatibility(PROTOCOL_VERSION@) == Compatibility::Compatible,
{
    reveal_strlit("1.0");
    let s = "1.0"@;
    reveal_with_fuel(char_at, 3);
    assert(char_at(s, '.', 0) == Some(1int));
    let one = s.take(1);
    let zero = s.skip(2);
    assert(one =~= seq!['1']);
    assert(zero =~= seq!['0']);
    assert(one.drop_last() =~= Seq::<char>::empty());
    assert(zero.drop_last() =~= Seq::<char>::empty());
    assert(number_value(Seq::<char>::empty()) == 0);
    assert(number_value(one) == 1);
    assert(number_value(zero) == 0);
}

/// A version with another major part is refused, whatever its minor part.
pub proof fn other_majors_are_refused(version: Seq<char>)
    requires
        version_parts(version) is Some,
        (version_parts(version)->0).0 != PROTOCOL_MAJOR,
    ensures
        compatibility(version) == Compatibility::Incompatible,
{
}

/// A version of two numbers with a dot between is accepted exactly where the
/// first is our major one, and is the same version exactly where the second is
/// our minor one too.
pub proof fn majors_decide(major: nat, minor: nat)
    requires
        major <= u64::MAX,
        minor <= u64::MAX,
    ensures
        ({
            let version = decimal(major) + seq!['.'] + decimal(minor);
            &&& version_parts(version) == Some((major, minor))
            &&& compatibility(version) is Incompatible <==> major != PROTOCOL_MAJOR
            &&& compatibility(version) is Compatible <==> major == PROTOCOL_MAJOR && minor
                == PROTOCOL_MINOR
        }),
{
    let version = decimal(major) + seq!['.'] + decimal(minor);
    let n = decimal(major).len() as int;
    lemma_char_at(version, '.', 0);
    lemma_decimal_value(major);
    lemma_decimal_value(minor);
    numbers_are_read_back(major, u64::MAX as nat);
    numbers_are_read_back(minor, u64::MAX as nat);
    assert(version[n] == '.');
    let i = char_at(version, '.', 0)->0;
    if i < n {
        assert(version[i] == decimal(major)[i]);
        assert(is_digit(decimal(major)[i]));
    }
    assert(version.take(n) =~= decimal(major));
    assert(version.skip(n + 1) =~= decimal(minor));
}

/// A text without a dot is no version, and is refused.
pub proof fn texts_without_a_dot_are_refused(version: Seq<char>)
    requires
        forall|i: int| 0 <= i < version.len() ==> version[i] != '.',
    ensures
        compatibility(version) is Incompatible,
{
    lemma_char_at(version, '.', 0);
}

} // verus!
