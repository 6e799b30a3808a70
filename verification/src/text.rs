//! Text: decimal and hexadecimal numbers, substrings, and comparison of strings.
//!
//! The contracts speak of a text as a sequence of characters.

use vstd::prelude::*;

verus! {

/// The digit `d` of a number in base 10 or 16, in lower case.
pub open spec fn digit_char(d: int) -> char {
    if d < 10 {
        (48 + d) as char
    } else {
        (87 + d) as char
    }
}

/// The decimal digits of `n`, without leading zeros.
pub open spec fn decimal(n: nat) -> Seq<char>
    decreases n,
{
    if n < 10 {
        seq![digit_char(n as int)]
    } else {
        decimal(n / 10).push(digit_char((n % 10) as int))
    }
}

/// The decimal digits of `n`, with zeros in front up to `width` digits.
pub open spec fn decimal_padded(n: nat, width: nat) -> Seq<char> {
    let digits = decimal(n);
    if digits.len() >= width {
        digits
    } else {
        Seq::new((width - digits.len()) as nat, |i: int| '0') + digits
    }
}

/// The last `width` hexadecimal digits of `n`, in lower case.
pub open spec fn hex(n: nat, width: nat) -> Seq<char>
    decreases width,
{
    if width == 0 {
        Seq::empty()
    } else {
        hex(n / 16, (width - 1) as nat).push(digit_char((n % 16) as int))
    }
}

/// Whether `part` stands in `whole` at the position `at`.
pub open spec fn stands_at(whole: Seq<char>, part: Seq<char>, at: int) -> bool {
    &&& 0 <= at
    &&& at + part.len() <= whole.len()
    &&& whole.subrange(at, at + part.len()) == part
}

/// Whether `part` is a substring of `whole`.
pub open spec fn is_substring(whole: Seq<char>, part: Seq<char>) -> bool {
    exists|at: int| stands_at(whole, part, at)
}

/// The texts of `parts`, one after the other, with `separator` between two of them.
pub open spec fn joined(parts: Seq<Seq<char>>, separator: Seq<char>) -> Seq<char>
    decreases parts.len(),
{
    if parts.len() == 0 {
        Seq::empty()
    } else if parts.len() == 1 {
        parts[0]
    } else {
        joined(parts.drop_last(), separator) + separator + parts.last()
    }
}

/// The characters of each string of `strings`.
pub open spec fn texts(strings: Seq<String>) -> Seq<Seq<char>> {
    strings.map_values(|s: String| s@)
}

/// Gives the characters of `s`.
pub fn chars_of(s: &str) -> (r: Vec<char>)
    ensures
        r@ == s@,
{
    let mut out: Vec<char> = Vec::new();
    for c in it: s.chars()
        invariant
            out@ == it.seq().take(it.index()),
    {
        out.push(c);
    }
    out
}

/// Tells if `a` and `b` are the same text.
pub fn same_text(a: &str, b: &str) -> (r: bool)
    ensures
        r == (a@ == b@),
{
    let left = chars_of(a);
    let right = chars_of(b);
    if left.len() != right.len() {
        return false;
    }
    let n: usize = left.len();
    for i in 0..n
        invariant
            n == left.len() == right.len(),
            forall|j: int| 0 <= j < i ==> left[j] == right[j],
            left@ == a@,
            right@ == b@,
    {
        if left[i] != right[i] {
            assert(a@[i as int] != b@[i as int]);
            return false;
        }
    }
    assert(left@ =~= right@);
    true
}

/// Tells if `part` is a substring of `whole`.
pub fn contains(whole: &str, part: &str) -> (r: bool)
    ensures
        r == is_substring(whole@, part@),
{
    let text = chars_of(whole);
    let sought = chars_of(part);
    if sought.len() > text.len() {
        return false;
    }
    let last: usize = text.len() - sought.len();
    let mut at: usize = 0;
    while at <= last
        invariant
            at <= last + 1,
            text@ == whole@,
            sought@ == part@,
            last + sought.len() == text.len(),
            forall|k: int| 0 <= k < at ==> !stands_at(whole@, part@, k),
        decreases last + 1 - at,
    {
        let mut len: usize = 0;
        while len < sought.len() && text[at + len] == sought[len]
            invariant
                len <= sought.len(),
                at + sought.len() <= text.len(),
                forall|k: int| 0 <= k < len ==> text[at + k] == #[trigger] sought[k],
            decreases sought.len() - len,
        {
            len = len + 1;
        }
        if len == sought.len() {
            assert(whole@.subrange(at as int, at + part@.len()) =~= part@);
            assert(stands_at(whole@, part@, at as int));
            return true;
        }
        assert(!stands_at(whole@, part@, at as int)) by {
            assert(whole@.subrange(at as int, at + part@.len())[len as int] != part@[len as int]);
        }
        if at == last {
            assert(forall|k: int| !stands_at(whole@, part@, k));
            return false;
        }
        at = at + 1;
    }
    false
}

/// Gives the digit `d` as a text.
fn digit(d: u8) -> (r: &'static str)
    requires
        d < 16,
    ensures
        r@ == seq![digit_char(d as int)],
{
    proof {
        reveal_strlit("0");
        reveal_strlit("1");
        reveal_strlit("2");
        reveal_strlit("3");
        reveal_strlit("4");
        reveal_strlit("5");
        reveal_strlit("6");
        reveal_strlit("7");
        reveal_strlit("8");
        reveal_strlit("9");
        reveal_strlit("a");
        reveal_strlit("b");
        reveal_strlit("c");
        reveal_strlit("d");
        reveal_strlit("e");
        reveal_strlit("f");
    }
    let r: &'static str = match d {
        0 => "0",
        1 => "1",
        2 => "2",
        3 => "3",
        4 => "4",
        5 => "5",
        6 => "6",
        7 => "7",
        8 => "8",
        9 => "9",
        10 => "a",
        11 => "b",
        12 => "c",
        13 => "d",
        14 => "e",
        _ => "f",
    };
    assert(r@ =~= seq![digit_char(d as int)]);
    r
}

/// Appends the decimal digits of `n` to `out`.
pub fn push_decimal(out: &mut String, n: u64)
    ensures
        final(out)@ == old(out)@ + decimal(n as nat),
    decreases n,
{
    if n >= 10 {
        push_decimal(out, n / 10);
    }
    out.append(digit((n % 10) as u8));
    assert(out@ =~= old(out)@ + decimal(n as nat));
}

/// Gives the decimal digits of `n`.
pub fn decimal_text(n: u64) -> (r: String)
    ensures
        r@ == decimal(n as nat),
{
    let mut out = String::new();
    push_decimal(&mut out, n);
    assert(out@ =~= decimal(n as nat));
    out
}

/// Appends the decimal digits of `n` to `out`, with zeros in front up to `width` digits.
pub fn push_decimal_padded(out: &mut String, n: u64, width: usize)
    ensures
        final(out)@ == old(out)@ + decimal_padded(n as nat, width as nat),
{
    let digits = decimal_text(n);
    let mut len: usize = chars_of(digits.as_str()).len();
    let ghost count = len;
    while len < width
        invariant
            count <= len,
            count == decimal(n as nat).len(),
            len <= width || len == count,
            out@ == old(out)@ + Seq::new((len - count) as nat, |i: int| '0'),
        decreases width - len,
    {
        out.append(digit(0));
        assert(digit_char(0) == '0');
        len = len + 1;
        assert(out@ =~= old(out)@ + Seq::new((len - count) as nat, |i: int| '0'));
    }
    out.append(digits.as_str());
    assert(out@ =~= old(out)@ + decimal_padded(n as nat, width as nat));
}

/// Appends the last `width` hexadecimal digits of `n` to `out`.
pub fn push_hex(out: &mut String, n: u128, width: u32)
    ensures
        final(out)@ == old(out)@ + hex(n as nat, width as nat),
    decreases width,
{
    if width > 0 {
        push_hex(out, n / 16, width - 1);
        out.append(digit((n % 16) as u8));
    }
    assert(out@ =~= old(out)@ + hex(n as nat, width as nat));
}

/// Joins the strings of `parts` with `separator` between two of them.
pub fn join(parts: &Vec<String>, separator: &str) -> (r: String)
    ensures
        r@ == joined(texts(parts@), separator@),
{
    let mut out = String::new();
    let n: usize = parts.len();
    let ghost all = texts(parts@);
    for i in 0..n
        invariant
            n == parts.len(),
            all == texts(parts@),
            out@ == joined(all.take(i as int), separator@),
    {
        if i > 0 {
            out.append(separator);
        }
        out.append(parts[i].as_str());
        proof {
            let prefix = all.take(i + 1);
            assert(prefix.drop_last() =~= all.take(i as int));
            assert(prefix.last() == parts[i as int]@);
            if i == 0 {
                assert(all.take(0) =~= Seq::empty());
            }
            assert(out@ =~= joined(prefix, separator@));
        }
    }
    assert(all.take(n as int) =~= all);
    out
}

/// Gives a copy of `text`.
pub fn owned(text: &str) -> (r: String)
    ensures
        r@ == text@,
{
    let mut out = String::new();
    out.append(text);
    assert(out@ =~= text@);
    out
}

/// The texts of `parts` in brackets, with commas between them.
pub open spec fn list_text(parts: Seq<Seq<char>>) -> Seq<char> {
    "["@ + joined(parts, ", "@) + "]"@
}

/// Gives the texts of `parts` in brackets, with commas between them.
pub fn list(parts: &Vec<String>) -> (r: String)
    ensures
        r@ == list_text(texts(parts@)),
{
    let mut out = String::new();
    out.append("[");
    out.append(join(parts, ", ").as_str());
    out.append("]");
    assert(out@ =~= list_text(texts(parts@)));
    out
}

/// The value of the digit `c`: 0 to 9, or 10 to 15 for `a` to `f`.
pub open spec fn digit_value(c: char) -> int {
    if c as int <= '9' as int {
        c as int - '0' as int
    } else {
        c as int - 'a' as int + 10
    }
}

/// The number that the digits `digits` are in the base `base`.
pub open spec fn value(digits: Seq<char>, base: int) -> int
    decreases digits.len(),
{
    if digits.len() == 0 {
        0
    } else {
        value(digits.drop_last(), base) * base + digit_value(digits.last())
    }
}

/// The decimal text of a number has only the digits `0` to `9`, has the number as its value in base
/// 10, and starts with `0` only for 0.
pub proof fn law_decimal_has_the_value(n: nat)
    ensures
        decimal(n).len() > 0,
        value(decimal(n), 10) == n,
        forall|i: int| 0 <= i < decimal(n).len() ==> '0' <= #[trigger] decimal(n)[i] <= '9',
        n > 0 ==> decimal(n)[0] != '0',
        n == 0 ==> decimal(n) == seq!['0'],
    decreases n,
{
    reveal_with_fuel(value, 2);
    if n >= 10 {
        law_decimal_has_the_value(n / 10);
        let digits = decimal(n);
        assert(digits.drop_last() =~= decimal(n / 10));
        assert(digits[0] == decimal(n / 10)[0]);
        assert forall|i: int| 0 <= i < digits.len() implies '0' <= #[trigger] digits[i] <= '9' by {
            if i < digits.len() - 1 {
                assert(digits[i] == decimal(n / 10)[i]);
            }
        }
    } else {
        assert(decimal(n).drop_last() =~= Seq::<char>::empty());
    }
}

/// Two numbers with the same decimal text are equal.
pub proof fn law_decimal_identifies(a: nat, b: nat)
    requires
        decimal(a) == decimal(b),
    ensures
        a == b,
{
    law_decimal_has_the_value(a);
    law_decimal_has_the_value(b);
}

/// The padded text of a number is its decimal text after zeros, has at least the width, and is not
/// longer than needed.
pub proof fn law_padding_adds_zeros(n: nat, width: nat)
    ensures
        decimal_padded(n, width).len() >= width,
        decimal_padded(n, width).len() >= decimal(n).len(),
        decimal_padded(n, width).len() == width || decimal_padded(n, width) == decimal(n),
        decimal_padded(n, width).skip(decimal_padded(n, width).len() - decimal(n).len())
            == decimal(n),
        forall|i: int|
            0 <= i < decimal_padded(n, width).len() - decimal(n).len()
                ==> #[trigger] decimal_padded(n, width)[i] == '0',
        value(decimal_padded(n, width), 10) == n,
{
    let digits = decimal(n);
    let padded = decimal_padded(n, width);
    let zeros = (padded.len() - digits.len()) as nat;
    assert(padded.skip(zeros as int) =~= digits);
    law_decimal_has_the_value(n);
    lemma_zeros_add_nothing(padded, digits, zeros);
}

proof fn lemma_zeros_add_nothing(padded: Seq<char>, digits: Seq<char>, zeros: nat)
    requires
        padded.len() == zeros + digits.len(),
        padded.skip(zeros as int) == digits,
        forall|i: int| 0 <= i < zeros ==> #[trigger] padded[i] == '0',
    ensures
        value(padded, 10) == value(digits, 10),
    decreases padded.len(),
{
    if padded.len() > 0 {
        let shorter = padded.drop_last();
        if digits.len() > 0 {
            assert(shorter.skip(zeros as int) =~= digits.drop_last());
            assert(padded.last() == digits.last());
            lemma_zeros_add_nothing(shorter, digits.drop_last(), zeros);
        } else {
            assert(shorter.skip(zeros - 1) =~= digits);
            lemma_zeros_add_nothing(shorter, digits, (zeros - 1) as nat);
            assert(padded.last() == '0');
        }
    }
}

/// The hexadecimal text of a number has the width, has only the digits `0` to `9` and `a` to `f`, and
/// has the number as its value in base 16, if the width is enough for it.
pub proof fn law_hex_has_the_value(n: nat, width: nat)
    ensures
        hex(n, width).len() == width,
        forall|i: int|
            0 <= i < width ==> ('0' <= #[trigger] hex(n, width)[i] <= '9' || 'a' <= hex(
                n,
                width,
            )[i] <= 'f'),
        n < vstd::arithmetic::power::pow(16, width) ==> value(hex(n, width), 16) == n,
    decreases width,
{
    reveal(vstd::arithmetic::power::pow);
    if width > 0 {
        law_hex_has_the_value(n / 16, (width - 1) as nat);
        let digits = hex(n, width);
        let before = hex(n / 16, (width - 1) as nat);
        assert(digits.drop_last() =~= before);
        assert forall|i: int| 0 <= i < width implies ('0' <= #[trigger] digits[i] <= '9' || 'a'
            <= digits[i] <= 'f') by {
            if i < width - 1 {
                assert(digits[i] == before[i]);
            }
        }
    }
}

/// A part is a substring exactly if the text is something, then the part, then something.
pub proof fn lemma_substring(whole: Seq<char>, part: Seq<char>)
    ensures
        is_substring(whole, part) <==> exists|before: Seq<char>, after: Seq<char>|
            whole == #[trigger] ((before + part) + after),
{
    if is_substring(whole, part) {
        let at = choose|at: int| stands_at(whole, part, at);
        let before = whole.take(at);
        let after = whole.skip(at + part.len());
        assert(whole =~= (before + part) + after);
    }
    if exists|before: Seq<char>, after: Seq<char>| whole == #[trigger] ((before + part) + after) {
        let (before, after) = choose|before: Seq<char>, after: Seq<char>|
            whole == #[trigger] ((before + part) + after);
        let at = before.len() as int;
        assert(whole.subrange(at, at + part.len()) =~= part);
        assert(stands_at(whole, part, at));
    }
}

/// A part is found in a text exactly if the text is something, then the part, then something.
pub proof fn law_found_parts_stand_in_the_text(whole: &str, part: &str, r: bool)
    requires
        call_ensures(contains, (whole, part), r),
    ensures
        r <==> exists|before: Seq<char>, after: Seq<char>| whole@ == #[trigger] ((before
            + part@) + after),
{
    lemma_substring(whole@, part@);
}

/// Joined texts are the first text, then a separator and the next text, and so on to the last.
pub proof fn law_joined_texts_follow_each_other(
    parts: Seq<Seq<char>>,
    part: Seq<char>,
    separator: Seq<char>,
)
    ensures
        joined(Seq::<Seq<char>>::empty(), separator) == Seq::<char>::empty(),
        joined(seq![part], separator) == part,
        parts.len() > 0 ==> joined(parts.push(part), separator) == joined(parts, separator)
            + separator + part,
        list_text(parts) == seq!['['] + joined(parts, seq![',', ' ']) + seq![']'],
{
    assert(parts.push(part).drop_last() =~= parts);
    reveal_strlit("[");
    reveal_strlit("]");
    reveal_strlit(", ");
    assert("["@ =~= seq!['[']);
    assert("]"@ =~= seq![']']);
    assert(", "@ =~= seq![',', ' ']);
}

} // verus!
