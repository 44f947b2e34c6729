//! Globally unique identifiers.
use vstd::prelude::*;

verus! {

/// The bytes mark a random identifier: the version is 4 and the variant is that of RFC 4122.
pub open spec fn is_random_guid(bytes: [u8; 16]) -> bool {
    0x40 <= bytes@[6] < 0x50 && 0x80 <= bytes@[8] < 0xc0
}

/// `uuid::Uuid::new_v4` makes a random identifier; whatever the random bits are, its version and
/// variant mark it as one.
#[verifier::external_body]
fn new_v4() -> (bytes: [u8; 16])
    ensures
        is_random_guid(bytes),
{
    *uuid::Uuid::new_v4().as_bytes()
}

/// A hexadecimal digit.
pub open spec fn hex_digit(n: int) -> char {
    if n < 10 {
        (0x30 + n) as char
    } else {
        (0x61 + n - 10) as char
    }
}

/// Digit `k` of an identifier: each byte has two, the upper half first.
pub open spec fn guid_digit(bytes: [u8; 16], k: int) -> char {
    if k % 2 == 0 {
        hex_digit(bytes@[k / 2] as int / 16)
    } else {
        hex_digit(bytes@[k / 2] as int % 16)
    }
}

/// The text that stands for an identifier: its digits, with hyphens after 8, 12, 16 and 20 of them.
pub open spec fn guid_text(bytes: [u8; 16]) -> Seq<char> {
    Seq::new(8, |i: int| guid_digit(bytes, i)) + seq!['-'] + Seq::new(
        4,
        |i: int| guid_digit(bytes, 8 + i),
    ) + seq!['-'] + Seq::new(4, |i: int| guid_digit(bytes, 12 + i)) + seq!['-'] + Seq::new(
        4,
        |i: int| guid_digit(bytes, 16 + i),
    ) + seq!['-'] + Seq::new(12, |i: int| guid_digit(bytes, 20 + i))
}

/// `uuid::Uuid::to_string` writes an identifier as lower-case hexadecimal digits with hyphens.
#[verifier::external_body]
pub(crate) fn guid_to_string(bytes: [u8; 16]) -> (text: String)
    ensures
        text@ == guid_text(bytes),
{
    uuid::Uuid::from_bytes(bytes).to_string()
}

pub type UuidWrapper = UuidWrapperV32;

/// A globally unique identifier, as it is stored.
///
/// The identifier uniquely identifies the filesystem, so it has no `Debug`: it should not leak in logs.
#[derive(Clone, Copy)]
pub struct UuidWrapperV32(pub [u8; 16]);

impl UuidWrapperV32 {
    /// No byte is set.
    pub open spec fn spec_is_nil(self) -> bool {
        forall|i: int| 0 <= i < 16 ==> self.0@[i] == 0
    }

    /// Makes a new identifier, which is random.
    pub fn new() -> (guid: Self)
        ensures
            is_random_guid(guid.0),
            !guid.spec_is_nil(),
    {
        let guid = UuidWrapperV32(new_v4());
        assert(guid.0@[6] != 0);
        guid
    }

    /// The identifier that stands for none.
    pub fn nil() -> (guid: Self)
        ensures
            guid.spec_is_nil(),
    {
        UuidWrapperV32([0; 16])
    }

    /// Returns what is logged for the identifier.
    pub fn as_str(&self) -> (text: &'static str)
        ensures
            text@ == "<redacted>"@,
    {
        "<redacted>"
    }

    pub fn is_nil(&self) -> (nil: bool)
        ensures
            nil == self.spec_is_nil(),
    {
        let mut i: usize = 0;
        while i < 16
            invariant
                i <= 16,
                forall|j: int| 0 <= j < i ==> self.0@[j] == 0,
            decreases 16 - i,
        {
            if self.0[i] != 0 {
                return false;
            }
            i += 1;
        }
        true
    }
}

/// The text of an identifier has 36 characters: hyphens after the 8th, 12th, 16th and 20th digit, and lower-case
/// hexadecimal digits else.
pub proof fn lemma_guid_text_has_its_shape(bytes: [u8; 16], index: int)
    requires
        0 <= index < 36,
    ensures
        guid_text(bytes).len() == 36,
        index == 8 || index == 13 || index == 18 || index == 23 <==> guid_text(bytes)[index] == '-',
        guid_text(bytes)[index] != '-' ==> '0' <= guid_text(bytes)[index] <= '9' || 'a' <= guid_text(
            bytes,
        )[index] <= 'f',
{
}

/// The digits of a byte can be read back: the value of the first, times sixteen, and that of the second.
pub proof fn lemma_digits_can_be_read_back(bytes: [u8; 16], index: int)
    requires
        0 <= index < 16,
    ensures
        bytes@[index] == 16 * hex_value(guid_digit(bytes, 2 * index)) + hex_value(
            guid_digit(bytes, 2 * index + 1),
        ),
{
    assert((2 * index) / 2 == index && (2 * index + 1) / 2 == index);
    assert((2 * index) % 2 == 0 && (2 * index + 1) % 2 == 1);
}

/// The number that a hexadecimal digit stands for.
pub open spec fn hex_value(digit: char) -> int {
    if digit <= '9' {
        digit as int - '0' as int
    } else {
        10 + digit as int - 'a' as int
    }
}

/// Identifiers with the same text are the same.
pub proof fn lemma_guids_are_known_by_their_text(a: [u8; 16], b: [u8; 16])
    requires
        guid_text(a) == guid_text(b),
    ensures
        a@ == b@,
{
    assert forall|k: int| 0 <= k < 32 implies guid_digit(a, k) == #[trigger] guid_digit(b, k) by {
        let at = if k < 8 {
            k
        } else if k < 12 {
            k + 1
        } else if k < 16 {
            k + 2
        } else if k < 20 {
            k + 3
        } else {
            k + 4
        };
        assert(guid_text(a)[at] == guid_digit(a, k));
        assert(guid_text(b)[at] == guid_digit(b, k));
    }
    assert forall|i: int| 0 <= i < 16 implies #[trigger] a@[i] == b@[i] by {
        lemma_digits_can_be_read_back(a, i);
        lemma_digits_can_be_read_back(b, i);
        assert(guid_digit(a, 2 * i) == guid_digit(b, 2 * i));
        assert(guid_digit(a, 2 * i + 1) == guid_digit(b, 2 * i + 1));
    }
    assert(a@ =~= b@);
}

/// A random identifier can be told by its text, where the version is 4 and the variant is one of four digits, and
/// it is never the one that stands for none.
pub proof fn lemma_random_guids_can_be_told(guid: UuidWrapperV32)
    ensures
        is_random_guid(guid.0) <==> {
            &&& guid_text(guid.0)[14] == '4'
            &&& guid_text(guid.0)[19] == '8' || guid_text(guid.0)[19] == '9' || guid_text(guid.0)[19]
                == 'a' || guid_text(guid.0)[19] == 'b'
        },
        is_random_guid(guid.0) ==> !guid.spec_is_nil(),
{
    assert(guid_text(guid.0)[14] == guid_digit(guid.0, 12));
    assert(guid_text(guid.0)[19] == guid_digit(guid.0, 16));
}

/// Every digit of the identifier that stands for none is zero, and no other identifier is like that.
pub proof fn lemma_nil_is_all_zeros(guid: UuidWrapperV32)
    ensures
        guid.spec_is_nil() <==> forall|k: int| 0 <= k < 32 ==> #[trigger] guid_digit(guid.0, k) == '0',
{
    if guid.spec_is_nil() {
        assert forall|k: int| 0 <= k < 32 implies #[trigger] guid_digit(guid.0, k) == '0' by {
            assert(guid.0@[k / 2] == 0);
        }
    }
    if forall|k: int| 0 <= k < 32 ==> #[trigger] guid_digit(guid.0, k) == '0' {
        assert forall|i: int| 0 <= i < 16 implies guid.0@[i] == 0 by {
            lemma_digits_can_be_read_back(guid.0, i);
            assert(guid_digit(guid.0, 2 * i) == '0');
            assert(guid_digit(guid.0, 2 * i + 1) == '0');
        }
    }
}

} // verus!
