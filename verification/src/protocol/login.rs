//! Accounts: what a login leaves for the connection to use.

use super::signed_hex::{hex_char, hex_digit};
use crate::text::push_char;
use vstd::prelude::*;
use vstd::string::StrSliceExecFns;

verus! {

/// The value of a hexadecimal digit, of either case.
pub open spec fn hex_value(c: char) -> Option<u8> {
    if '0' <= c <= '9' {
        Some((c as u8 - 0x30) as u8)
    } else if 'a' <= c <= 'f' {
        Some((c as u8 - 0x61 + 10) as u8)
    } else if 'A' <= c <= 'F' {
        Some((c as u8 - 0x41 + 10) as u8)
    } else {
        None
    }
}

/// The sixteen bytes that a text of 32 hexadecimal digits spells; any other
/// text spells none.
pub open spec fn uuid_bytes(text: Seq<char>) -> Option<Seq<u8>> {
    if text.len() == 32 && forall|i: int| 0 <= i < 32 ==> hex_value(#[trigger] text[i]) is Some {
        Some(
            Seq::new(
                16,
                |k: int| (hex_value(text[2 * k])->0 * 16 + hex_value(text[2 * k + 1])->0) as u8,
            ),
        )
    } else {
        None
    }
}

/// Digit `i` of the 32 hexadecimal digits that spell sixteen bytes.
pub open spec fn uuid_digit(bytes: Seq<u8>, i: int) -> char {
    if i % 2 == 0 {
        hex_char((bytes[i / 2] / 16) as nat)
    } else {
        hex_char((bytes[i / 2] % 16) as nat)
    }
}

/// The 32 lowercase hexadecimal digits that spell sixteen bytes.
pub open spec fn uuid_hex(bytes: Seq<u8>) -> Seq<char> {
    Seq::new(32, |i: int| uuid_digit(bytes, i))
}

/// The identifier of an account: sixteen bytes.
#[derive(Clone, Copy, Debug, PartialEq, Eq, Hash)]
pub struct UUID {
    pub bytes: [u8; 16],
}

impl View for UUID {
    type V = Seq<u8>;

    open spec fn view(&self) -> Seq<u8> {
        self.bytes@
    }
}

fn hex_digit_value(b: u8) -> (r: Option<u8>)
    requires
        b < 128,
    ensures
        r == hex_value(b as char),
        r matches Some(v) ==> v < 16,
{
    if 0x30 <= b && b <= 0x39 {
        Some(b - 0x30)
    } else if 0x61 <= b && b <= 0x66 {
        Some(b - 0x61 + 10)
    } else if 0x41 <= b && b <= 0x46 {
        Some(b - 0x41 + 10)
    } else {
        None
    }
}

impl UUID {
    /// Reads an identifier from its 32 hexadecimal digits, of either case.
    pub fn parse(text: &str) -> (r: Option<UUID>)
        ensures
            match uuid_bytes(text@) {
                Some(bytes) => r matches Some(uuid) && uuid@ == bytes,
                None => r is None,
            },
    {
        if !text.is_ascii() {
            proof {
                let i = choose|i: int|
                    0 <= i < text@.len() && !('\0' <= #[trigger] text@[i] <= '\u{7f}');
                assert(hex_value(text@[i]) is None);
            }
            return None;
        }
        if text.unicode_len() != 32 {
            return None;
        }
        let mut bytes = [0u8; 16];
        let mut k: usize = 0;
        while k < 16
            invariant
                k <= 16,
                text.is_ascii(),
                text@.len() == 32,
                forall|i: int| 0 <= i < 2 * k ==> hex_value(#[trigger] text@[i]) is Some,
                forall|j: int|
                    0 <= j < k ==> #[trigger] bytes@[j] == (hex_value(text@[2 * j])->0 * 16
                        + hex_value(text@[2 * j + 1])->0) as u8,
            decreases 16 - k,
        {
            let hi = match hex_digit_value(text.get_ascii(2 * k)) {
                Some(v) => v,
                None => {
                    return None;
                },
            };
            let lo = match hex_digit_value(text.get_ascii(2 * k + 1)) {
                Some(v) => v,
                None => {
                    return None;
                },
            };
            bytes[k] = hi * 16 + lo;
            k += 1;
        }
        let uuid = UUID { bytes };
        assert(uuid@ =~= uuid_bytes(text@)->0);
        Some(uuid)
    }

    /// The 32 lowercase hexadecimal digits of the identifier.
    pub fn hex(&self) -> (text: String)
        ensures
            text@ == uuid_hex(self@),
    {
        let mut text = String::new();
        let mut k: usize = 0;
        while k < 16
            invariant
                k <= 16,
                text@.len() == 2 * k,
                forall|i: int| 0 <= i < 2 * k ==> #[trigger] text@[i] == uuid_digit(self@, i),
            decreases 16 - k,
        {
            let b = self.bytes[k];
            push_char(&mut text, hex_digit(b / 16));
            push_char(&mut text, hex_digit(b % 16));
            k += 1;
        }
        assert(text@ =~= uuid_hex(self@));
        text
    }
}

/// The digits of an identifier spell that identifier.
pub proof fn lemma_uuid_round_trip(bytes: Seq<u8>)
    requires
        bytes.len() == 16,
    ensures
        uuid_bytes(uuid_hex(bytes)) == Some(bytes),
{
    let text = uuid_hex(bytes);
    assert forall|i: int| 0 <= i < 32 implies hex_value(#[trigger] text[i]) is Some by {
        lemma_hex_char_value(((bytes[i / 2] / 16) as nat));
        lemma_hex_char_value(((bytes[i / 2] % 16) as nat));
    }
    assert forall|k: int| 0 <= k < 16 implies (hex_value(text[2 * k])->0 * 16 + hex_value(
        text[2 * k + 1],
    )->0) as u8 == bytes[k] by {
        lemma_hex_char_value(((bytes[k] / 16) as nat));
        lemma_hex_char_value(((bytes[k] % 16) as nat));
        assert(text[2 * k] == uuid_digit(bytes, 2 * k));
        assert(text[2 * k + 1] == uuid_digit(bytes, 2 * k + 1));
    }
    assert(uuid_bytes(text)->0 =~= bytes);
}

/// A hexadecimal digit has the value it was made from.
pub proof fn lemma_hex_char_value(d: nat)
    requires
        d < 16,
    ensures
        hex_value(hex_char(d)) == Some(d as u8),
{
}

/// What an account holds, as plain values.
pub struct AccountView {
    pub name: Seq<char>,
    pub uuid: Option<Seq<u8>>,
    pub verification_tokens: Seq<Seq<char>>,
    pub head_img_data: Option<Seq<u8>>,
}

/// A verified account.
///
/// Slot 2 of the verification tokens holds the current access token; slots
/// 0 and 1 keep what the login left there.
#[derive(Clone, Debug, PartialEq, Eq)]
pub struct Account {
    /// The name that the account service resolved.
    pub name: String,
    /// The identifier that the account service resolved, where it gave one
    /// that can be read.
    pub uuid: Option<UUID>,
    pub verification_tokens: Vec<String>,
    /// The avatar, where it was fetched.
    pub head_img_data: Option<Vec<u8>>,
}

impl View for Account {
    type V = AccountView;

    open spec fn view(&self) -> AccountView {
        AccountView {
            name: self.name@,
            uuid: match self.uuid {
                Some(uuid) => Some(uuid@),
                None => None,
            },
            verification_tokens: self.verification_tokens.deep_view(),
            head_img_data: match self.head_img_data {
                Some(data) => Some(data@),
                None => None,
            },
        }
    }
}

} // verus!
