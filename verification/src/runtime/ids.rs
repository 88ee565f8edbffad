//! Identifiers: users, tenants and requests by UUID (held as its 128-bit
//! value), routes, sessions and components by text.

use vstd::prelude::*;
use crate::text::{push_char, string_from};

verus! {

/// A fresh random (version 4) UUID, as its 128-bit value
/// (`uuid::Uuid::new_v4`). Its bits are random except those uuid's `v4.rs`
/// sets with a mask: the version digit is 4 and the variant bits are `10`;
/// that is all the contract claims.
#[verifier::external_body]
fn random_uuid() -> (r: u128)
    ensures
        is_v4(r),
{
    uuid::Uuid::new_v4().as_u128()
}

pub open spec fn hex_char(d: nat) -> char {
    if d < 10 {
        (('0' as u32) + d) as char
    } else {
        (('a' as u32) + d - 10) as char
    }
}

/// Hex digit `i` (0 for the most significant) of a 128-bit value.
pub open spec fn nibble(v: u128, i: int) -> nat {
    ((v as nat) / crate::forms::number::p2((4 * (31 - i)) as nat)) % 16
}

/// A version 4 UUID: hex digit 12 (the version) is 4, and the top two bits
/// of hex digit 16 (the variant) are `10`.
pub open spec fn is_v4(v: u128) -> bool {
    nibble(v, 12) == 4 && nibble(v, 16) / 4 == 2
}

/// The hyphenated lower-case text of a UUID: 8-4-4-4-12 hex digits.
pub open spec fn uuid_text(v: u128) -> Seq<char> {
    Seq::new(
        36,
        |k: int|
            if k == 8 || k == 13 || k == 18 || k == 23 {
                '-'
            } else {
                hex_char(
                    nibble(
                        v,
                        if k < 8 {
                            k
                        } else if k < 13 {
                            k - 1
                        } else if k < 18 {
                            k - 2
                        } else if k < 23 {
                            k - 3
                        } else {
                            k - 4
                        },
                    ),
                )
            },
    )
}

fn hex_char_exec(d: u128) -> (r: char)
    requires
        d < 16,
    ensures
        r == hex_char(d as nat),
{
    if d < 10 {
        ((48 + d) as u8) as char
    } else {
        ((87 + d) as u8) as char
    }
}

/// `uuid_text(v)`.
pub fn uuid_string(v: u128) -> (r: String)
    ensures
        r@ == uuid_text(v),
{
    let mut s = String::new();
    let mut i: u32 = 0;
    let mut k: u32 = 0;
    while k < 36
        invariant
            k <= 36,
            i <= 32,
            i == (if k <= 8 {
                k as int
            } else if k <= 13 {
                k - 1
            } else if k <= 18 {
                k - 2
            } else if k <= 23 {
                k - 3
            } else {
                k - 4
            }),
            s@.len() == k,
            forall|j: int| 0 <= j < k ==> s@[j] == #[trigger] uuid_text(v)[j],
        decreases 36 - k,
    {
        let ghost before = s@;
        if k == 8 || k == 13 || k == 18 || k == 23 {
            push_char(&mut s, '-');
        } else {
            let shift: u32 = 4 * (31 - i);
            let d = (v >> shift) & 0xf;
            proof {
                assert(d == ((v as nat) / crate::forms::number::p2(shift as nat)) % 16) by {
                    lemma_nibble(v, shift);
                }
            }
            push_char(&mut s, hex_char_exec(d));
            i += 1;
        }
        proof {
            assert forall|j: int| 0 <= j < k + 1 implies s@[j] == #[trigger] uuid_text(v)[j] by {
                if j < k {
                    assert(s@[j] == before[j]);
                }
            }
        }
        k += 1;
    }
    proof {
        assert(s@ =~= uuid_text(v));
    }
    s
}

/// Shifting right by `shift` bits and masking four bits takes one hex digit.
pub proof fn lemma_nibble(v: u128, shift: u32)
    requires
        shift <= 124,
    ensures
        (v >> shift) & 0xf == ((v as nat) / crate::forms::number::p2(shift as nat)) % 16,
{
    lemma_shift_div(v, shift);
    let w = v >> shift;
    assert(w & 0xf == w % 16) by (bit_vector);
}

/// A right shift divides by a power of two.
pub proof fn lemma_shift_div(v: u128, shift: u32)
    requires
        shift <= 127,
    ensures
        (v >> shift) as nat == (v as nat) / crate::forms::number::p2(shift as nat),
    decreases shift,
{
    if shift == 0 {
        assert(v >> 0u32 == v) by (bit_vector);
        assert((v >> shift) as nat == v as nat);
        assert(crate::forms::number::p2(0) == 1);
        assert((v as nat) / 1 == v as nat);
    } else {
        lemma_shift_div(v, (shift - 1) as u32);
        let s1 = (shift - 1) as u32;
        assert((v >> shift) == (v >> s1) / 2) by (bit_vector)
            requires
                s1 + 1 == shift,
                shift <= 127,
        ;
        let p = crate::forms::number::p2(s1 as nat);
        crate::forms::number::lemma_p2_mono(0, s1 as nat);
        assert(crate::forms::number::p2(shift as nat) == 2 * p);
        assert(((v as nat) / p) / 2 == (v as nat) / (p * 2)) by {
            vstd::arithmetic::div_mod::lemma_div_denominator(v as int, p as int, 2);
        }
        assert((v >> s1) as nat == (v as nat) / p);
        assert((v >> shift) as nat == ((v >> s1) as nat) / 2);
        assert(p * 2 == 2 * p);
        assert((v as nat) / (p * 2) == (v as nat) / crate::forms::number::p2(shift as nat));
    }
}

#[derive(Debug, Clone, Copy, PartialEq, Eq, Hash)]
pub struct UserId(pub u128);

#[derive(Debug, Clone, Copy, PartialEq, Eq, Hash)]
pub struct TenantId(pub u128);

#[derive(Debug, Clone, Copy, PartialEq, Eq, Hash)]
pub struct RequestId(pub u128);

#[derive(Debug, Clone, PartialEq, Eq, Hash)]
pub struct RouteId(pub String);

#[derive(Debug, Clone, PartialEq, Eq, Hash)]
pub struct SessionId(pub String);

#[derive(Debug, Clone, PartialEq, Eq, Hash)]
pub struct ComponentId(pub String);

impl UserId {
    /// A fresh random user id.
    pub fn random() -> (r: Self)
        ensures
            is_v4(r.0),
    {
        UserId(random_uuid())
    }

    /// The hyphenated text of the id.
    pub fn text(&self) -> (r: String)
        ensures
            r@ == uuid_text(self.0),
    {
        uuid_string(self.0)
    }
}

impl TenantId {
    /// A fresh random tenant id.
    pub fn random() -> (r: Self)
        ensures
            is_v4(r.0),
    {
        TenantId(random_uuid())
    }

    pub fn text(&self) -> (r: String)
        ensures
            r@ == uuid_text(self.0),
    {
        uuid_string(self.0)
    }
}

impl RequestId {
    /// A fresh random request id.
    pub fn random() -> (r: Self)
        ensures
            is_v4(r.0),
    {
        RequestId(random_uuid())
    }

    pub fn text(&self) -> (r: String)
        ensures
            r@ == uuid_text(self.0),
    {
        uuid_string(self.0)
    }
}

impl Default for UserId {
    fn default() -> (r: Self) {
        UserId::random()
    }
}

impl Default for TenantId {
    fn default() -> (r: Self) {
        TenantId::random()
    }
}

impl Default for RequestId {
    fn default() -> (r: Self) {
        RequestId::random()
    }
}

impl RouteId {
    pub fn from_str(s: &str) -> (r: Self)
        ensures
            r.0@ == s@,
    {
        RouteId(string_from(s))
    }

    pub fn text(&self) -> (r: String)
        ensures
            r@ == self.0@,
    {
        self.0.clone()
    }
}

impl SessionId {
    pub fn from_str(s: &str) -> (r: Self)
        ensures
            r.0@ == s@,
    {
        SessionId(string_from(s))
    }

    pub fn text(&self) -> (r: String)
        ensures
            r@ == self.0@,
    {
        self.0.clone()
    }
}

impl ComponentId {
    pub fn from_str(s: &str) -> (r: Self)
        ensures
            r.0@ == s@,
    {
        ComponentId(string_from(s))
    }

    pub fn text(&self) -> (r: String)
        ensures
            r@ == self.0@,
    {
        self.0.clone()
    }
}

} // verus!
