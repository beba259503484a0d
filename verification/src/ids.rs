use vstd::prelude::*;

verus! {

/// Whether `c` is a lower-case hexadecimal digit.
pub open spec fn is_lower_hex(c: char) -> bool {
    ('0' <= c && c <= '9') || ('a' <= c && c <= 'f')
}

/// Whether `s` is the hyphenated lower-case text of a version-4 (random) UUID:
/// 36 characters, hyphens at positions 8, 13, 18 and 23 and lower-case hex
/// digits elsewhere, the version digit `4` at position 14 and one of the variant
/// digits `8`, `9`, `a`, `b` at position 19.
pub open spec fn is_uuid_v4_text(s: Seq<char>) -> bool {
    &&& s.len() == 36
    &&& forall|k: int|
        0 <= k < 36 ==> if k == 8 || k == 13 || k == 18 || k == 23 {
            #[trigger] s[k] == '-'
        } else {
            is_lower_hex(s[k])
        }
    &&& s[14] == '4'
    &&& (s[19] == '8' || s[19] == '9' || s[19] == 'a' || s[19] == 'b')
}

/// A fresh random identifier, in the hyphenated text form of a version-4 UUID.
///
/// Calls `uuid::Uuid::new_v4` and formats the result with its `Display` impl.
/// `new_v4` masks random bits so that the version nibble is 4 and the variant
/// nibble is one of 8, 9, a, b; `Display` writes the 32 nibbles as lower-case
/// hex in groups of 8, 4, 4, 4 and 12 joined by hyphens. Which random value comes
/// back is not stated.
#[verifier::external_body]
pub(crate) fn new_id() -> (s: String)
    ensures
        is_uuid_v4_text(s@),
{
    uuid::Uuid::new_v4().to_string()
}

} // verus!
