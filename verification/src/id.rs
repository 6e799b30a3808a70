//! The IDs of files, packs, blobs and trees.

use vstd::prelude::*;

use crate::sorted::{Key, Order};
use crate::text::{self, chars_of, push_hex};

verus! {

/// A 256-bit ID, held as its two halves with the most significant half first.
///
/// The order of IDs is the order of their hexadecimal digits.
#[derive(Debug, Clone, Copy, PartialEq, Eq, Structural, Hash)]
pub struct Id {
    /// The upper 128 bits.
    pub hi: u128,
    /// The lower 128 bits.
    pub lo: u128,
}

/// The ID of a blob.
#[derive(Debug, Clone, Copy, PartialEq, Eq, Structural, Hash)]
pub struct BlobId(pub Id);

/// The ID of a tree blob.
#[derive(Debug, Clone, Copy, PartialEq, Eq, Structural, Hash)]
pub struct TreeId(pub Id);

/// The ID of a data blob.
#[derive(Debug, Clone, Copy, PartialEq, Eq, Structural, Hash)]
pub struct DataId(pub Id);

/// The ID of a pack file.
#[derive(Debug, Clone, Copy, PartialEq, Eq, Structural, Hash)]
pub struct PackId(pub Id);

/// The ID of a snapshot file.
#[derive(Debug, Clone, Copy, PartialEq, Eq, Structural, Hash)]
pub struct SnapshotId(pub Id);

/// The number of hexadecimal digits of an ID.
pub const HEX_LEN: usize = 64;

/// Whether `c` is a hexadecimal digit in lower case.
pub open spec fn is_hex_digit(c: char) -> bool {
    '0' <= c <= '9' || 'a' <= c <= 'f'
}

/// Whether `name` is the hexadecimal form of an ID.
pub open spec fn is_hex_name(name: Seq<char>) -> bool {
    &&& name.len() == HEX_LEN
    &&& forall|i: int| 0 <= i < name.len() ==> is_hex_digit(#[trigger] name[i])
}

/// 16 to the power of `n`.
spec fn pow16(n: nat) -> nat
    decreases n,
{
    if n == 0 {
        1
    } else {
        16 * pow16((n - 1) as nat)
    }
}

/// The value of the digit `c`.
spec fn digit_value(c: char) -> int {
    if c <= '9' {
        c as int - 48
    } else {
        c as int - 87
    }
}

proof fn lemma_digit_roundtrip(c: char)
    requires
        is_hex_digit(c),
    ensures
        0 <= digit_value(c) < 16,
        text::digit_char(digit_value(c)) == c,
{
}

proof fn lemma_pow16_32()
    ensures
        pow16(32) == 0x1_0000_0000_0000_0000_0000_0000_0000_0000,
{
    reveal_with_fuel(pow16, 33);
}

proof fn lemma_pow16_grows(a: nat, b: nat)
    requires
        a <= b,
    ensures
        pow16(a) <= pow16(b),
    decreases b,
{
    if a < b {
        lemma_pow16_grows(a, (b - 1) as nat);
    }
}

/// Two numbers with the same `width` digits are equal if both have at most `width` digits.
proof fn lemma_hex_injective(a: nat, b: nat, width: nat)
    requires
        a < pow16(width),
        b < pow16(width),
        text::hex(a, width) == text::hex(b, width),
    ensures
        a == b,
    decreases width,
{
    if width > 0 {
        let prev = (width - 1) as nat;
        let x = text::hex(a / 16, prev);
        let y = text::hex(b / 16, prev);
        assert(x =~= text::hex(a, width).drop_last());
        assert(y =~= text::hex(b, width).drop_last());
        assert(text::hex(a, width).last() == text::digit_char((a % 16) as int));
        assert(text::hex(b, width).last() == text::digit_char((b % 16) as int));
        lemma_hex_injective(a / 16, b / 16, prev);
    }
}

/// Each hexadecimal form has only hexadecimal digits.
proof fn lemma_hex_digits(n: nat, width: nat)
    ensures
        text::hex(n, width).len() == width,
        forall|i: int| 0 <= i < width ==> is_hex_digit(#[trigger] text::hex(n, width)[i]),
    decreases width,
{
    if width > 0 {
        lemma_hex_digits(n / 16, (width - 1) as nat);
    }
}

impl Id {
    /// The hexadecimal digits of the ID.
    pub open spec fn hex_digits(self) -> Seq<char> {
        text::hex(self.hi as nat, 32) + text::hex(self.lo as nat, 32)
    }

    /// Whether this ID comes before `other`.
    pub open spec fn before(self, other: Id) -> bool {
        self.hi < other.hi || (self.hi == other.hi && self.lo < other.lo)
    }

    /// Gives the hexadecimal digits of the ID.
    pub fn to_hex(&self) -> (r: String)
        ensures
            r@ == self.hex_digits(),
    {
        let mut out = String::new();
        push_hex(&mut out, self.hi, 32);
        push_hex(&mut out, self.lo, 32);
        assert(out@ =~= self.hex_digits());
        out
    }

    /// Gives the first two hexadecimal digits of the ID.
    pub fn hex_prefix(&self) -> (r: String)
        ensures
            r@ == self.hex_digits().take(2),
    {
        let mut out = String::new();
        let ghost n = self.hi as nat;
        proof {
            lemma_hex_prefix(n, 30);
            lemma_hex_digits(n, 32);
        }
        push_hex(&mut out, self.hi / 0x100_0000_0000_0000_0000_0000_0000_0000, 2);
        assert(out@ =~= self.hex_digits().take(2));
        out
    }

    /// Reads an ID from its hexadecimal digits.
    ///
    /// The function gives `None` for a text that is not 64 hexadecimal digits in lower case.
    pub fn from_hex(name: &str) -> (r: Option<Id>)
        ensures
            match r {
                Some(id) => is_hex_name(name@) && id.hex_digits() == name@,
                None => !is_hex_name(name@),
            },
    {
        let digits = chars_of(name);
        if digits.len() != HEX_LEN {
            return None;
        }
        match (read_half(&digits, 0), read_half(&digits, 32)) {
            (Some(hi), Some(lo)) => {
                let id = Id { hi, lo };
                assert(id.hex_digits() =~= name@);
                proof {
                    lemma_hex_digits(hi as nat, 32);
                    lemma_hex_digits(lo as nat, 32);
                    assert forall|i: int| 0 <= i < name@.len() implies is_hex_digit(#[trigger] name@[i]) by {
                        if i < 32 {
                            assert(name@[i] == text::hex(hi as nat, 32)[i]);
                        } else {
                            assert(name@[i] == text::hex(lo as nat, 32)[i - 32]);
                        }
                    }
                }
                Some(id)
            },
            _ => None,
        }
    }
}

/// The upper digits of a number are the digits of the number without its lower digits.
proof fn lemma_hex_prefix(n: nat, cut: nat)
    requires
        cut <= 30,
    ensures
        text::hex(n, cut + 2).take(2) =~= text::hex(n / pow16(cut), 2),
        cut == 30 ==> pow16(cut) == 0x100_0000_0000_0000_0000_0000_0000_0000,
    decreases cut,
{
    if cut == 30 {
        reveal_with_fuel(pow16, 31);
    }
    lemma_hex_digits(n, cut + 2);
    if cut > 0 {
        let less = (cut - 1) as nat;
        lemma_hex_prefix(n / 16, less);
        lemma_hex_digits(n / 16, less + 2);
        assert(text::hex(n, cut + 2).take(2) =~= text::hex(n / 16, less + 2).take(2));
        assert((n / 16) / pow16(less) == n / pow16(cut)) by {
            lemma_pow16_grows(0, less);
            vstd::arithmetic::div_mod::lemma_div_denominator(n as int, 16, pow16(less) as int);
        }
    } else {
        assert(n / 1 == n) by (nonlinear_arith);
        assert(text::hex(n, 2).take(2) =~= text::hex(n, 2));
    }
}

/// Reads the 32 hexadecimal digits of `digits` that start at `start`.
fn read_half(digits: &Vec<char>, start: usize) -> (r: Option<u128>)
    requires
        start + 32 <= digits.len(),
    ensures
        match r {
            Some(n) => text::hex(n as nat, 32) == digits@.subrange(start as int, start + 32),
            None => exists|i: int| start <= i < start + 32 && !is_hex_digit(#[trigger] digits@[i]),
        },
{
    let mut value: u128 = 0;
    let mut done: usize = 0;
    proof {
        lemma_pow16_32();
    }
    assert(text::hex(0, 0) =~= digits@.subrange(start as int, start as int));
    while done < 32
        invariant
            done <= 32,
            start + 32 <= digits.len(),
            value < pow16(done as nat),
            pow16(32) == 0x1_0000_0000_0000_0000_0000_0000_0000_0000,
            text::hex(value as nat, done as nat) == digits@.subrange(start as int, start + done),
        decreases 32 - done,
    {
        let c: char = digits[start + done];
        let d: u128 = if '0' <= c && c <= '9' {
            (c as u32 - 48) as u128
        } else if 'a' <= c && c <= 'f' {
            (c as u32 - 87) as u128
        } else {
            assert(!is_hex_digit(digits@[start + done]));
            return None;
        };
        proof {
            lemma_digit_roundtrip(c);
            lemma_pow16_grows((done + 1) as nat, 32);
            let next = (value * 16 + d) as nat;
            assert(next / 16 == value && next % 16 == d);
            assert(text::hex(next, (done + 1) as nat) == text::hex(value as nat, done as nat).push(c));
            assert(digits@.subrange(start as int, start + done + 1) =~= digits@.subrange(
                start as int,
                start + done,
            ).push(c));
        }
        value = value * 16 + d;
        done = done + 1;
    }
    Some(value)
}

impl Key for Id {
    type Value = Id;

    open spec fn value(&self) -> Id {
        *self
    }

    open spec fn before(a: Id, b: Id) -> bool {
        a.before(b)
    }

    proof fn lemma_irreflexive(a: Id) {
    }

    proof fn lemma_transitive(a: Id, b: Id, c: Id) {
    }

    fn order(&self, other: &Self) -> (r: Order) {
        if self.hi < other.hi || (self.hi == other.hi && self.lo < other.lo) {
            Order::Before
        } else if self.hi == other.hi && self.lo == other.lo {
            Order::Same
        } else {
            Order::After
        }
    }

    fn duplicate(&self) -> (r: Self) {
        *self
    }
}

/// The hexadecimal form of an ID has 64 hexadecimal digits in lower case.
pub proof fn law_hex_is_hex_name(id: Id)
    ensures
        is_hex_name(id.hex_digits()),
{
    lemma_hex_digits(id.hi as nat, 32);
    lemma_hex_digits(id.lo as nat, 32);
}

/// Two IDs with the same hexadecimal form are equal.
///
/// Thus reading the hexadecimal form of an ID with [`Id::from_hex`] gives the ID again.
pub proof fn law_hex_identifies(a: Id, b: Id)
    requires
        a.hex_digits() == b.hex_digits(),
    ensures
        a == b,
{
    lemma_hex_digits(a.hi as nat, 32);
    lemma_hex_digits(a.lo as nat, 32);
    lemma_hex_digits(b.hi as nat, 32);
    lemma_hex_digits(b.lo as nat, 32);
    lemma_pow16_32();
    assert(text::hex(a.hi as nat, 32) =~= a.hex_digits().take(32));
    assert(text::hex(b.hi as nat, 32) =~= b.hex_digits().take(32));
    assert(text::hex(a.lo as nat, 32) =~= a.hex_digits().skip(32));
    assert(text::hex(b.lo as nat, 32) =~= b.hex_digits().skip(32));
    lemma_hex_injective(a.hi as nat, b.hi as nat, 32);
    lemma_hex_injective(a.lo as nat, b.lo as nat, 32);
}

proof fn lemma_digits_are_hex(digits: Seq<char>) -> (n: nat)
    requires
        forall|i: int| 0 <= i < digits.len() ==> is_hex_digit(#[trigger] digits[i]),
    ensures
        n < pow16(digits.len()),
        text::hex(n, digits.len()) == digits,
    decreases digits.len(),
{
    if digits.len() == 0 {
        assert(text::hex(0, 0) =~= digits);
        0
    } else {
        let before = digits.drop_last();
        assert forall|i: int| 0 <= i < before.len() implies is_hex_digit(#[trigger] before[i]) by {
            assert(is_hex_digit(digits[i]));
        }
        let n = lemma_digits_are_hex(before);
        let c = digits[digits.len() - 1];
        assert(is_hex_digit(c));
        lemma_digit_roundtrip(c);
        let next = (n * 16 + digit_value(c)) as nat;
        assert(next / 16 == n && next % 16 == digit_value(c));
        assert(text::hex(next, digits.len()) =~= digits);
        next
    }
}

/// Each text of 64 hexadecimal digits in lower case is the hexadecimal form of an ID.
pub proof fn law_each_hex_name_has_an_id(name: Seq<char>) -> (id: Id)
    requires
        name.len() == 64,
        forall|i: int|
            0 <= i < 64 ==> ('0' <= #[trigger] name[i] <= '9' || 'a' <= name[i] <= 'f'),
    ensures
        id.hex_digits() == name,
{
    let upper = name.take(32);
    let lower = name.skip(32);
    assert forall|i: int| 0 <= i < 32 implies is_hex_digit(#[trigger] upper[i]) by {
        assert(upper[i] == name[i]);
    }
    assert forall|i: int| 0 <= i < 32 implies is_hex_digit(#[trigger] lower[i]) by {
        assert(lower[i] == name[i + 32]);
    }
    let hi = lemma_digits_are_hex(upper);
    let lo = lemma_digits_are_hex(lower);
    lemma_pow16_32();
    let id = Id { hi: hi as u128, lo: lo as u128 };
    assert(id.hex_digits() =~= name);
    id
}

/// The hexadecimal form of an ID is its number in base 16, and reading it gives the ID again.
pub proof fn law_hex_is_the_number(
    id: Id,
    hex: String,
    prefix: String,
    name: &str,
    read: Option<Id>,
)
    requires
        call_ensures(Id::to_hex, (&id,), hex),
        call_ensures(Id::hex_prefix, (&id,), prefix),
        name@ == hex@,
        call_ensures(Id::from_hex, (name,), read),
    ensures
        hex@.len() == 64,
        text::value(hex@.take(32), 16) == id.hi,
        text::value(hex@.skip(32), 16) == id.lo,
        prefix@ == seq![hex@[0], hex@[1]],
        read == Some(id),
{
    text::law_hex_has_the_value(id.hi as nat, 32);
    text::law_hex_has_the_value(id.lo as nat, 32);
    assert(vstd::arithmetic::power::pow(16, 32) == 0x1_0000_0000_0000_0000_0000_0000_0000_0000)
        by {
        reveal_with_fuel(vstd::arithmetic::power::pow, 33);
    }
    assert(hex@.take(32) =~= text::hex(id.hi as nat, 32));
    assert(hex@.skip(32) =~= text::hex(id.lo as nat, 32));
    assert(prefix@ =~= seq![hex@[0], hex@[1]]);
    law_hex_is_hex_name(id);
    law_hex_identifies(id, read->0);
}

/// A text is read as an ID exactly if it is 64 hexadecimal digits in lower case.
pub proof fn law_only_hex_names_are_read(name: &str, read: Option<Id>)
    requires
        call_ensures(Id::from_hex, (name,), read),
    ensures
        read is Some <==> name@.len() == 64 && (forall|i: int|
            0 <= i < 64 ==> ('0' <= #[trigger] name@[i] <= '9' || 'a' <= name@[i] <= 'f')),
{
    if is_hex_name(name@) {
        assert forall|i: int| 0 <= i < 64 implies ('0' <= #[trigger] name@[i] <= '9' || 'a'
            <= name@[i] <= 'f') by {
            assert(is_hex_digit(name@[i]));
        }
    }
}

} // verus!
