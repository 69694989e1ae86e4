//! Character-level helpers: hexadecimal and decimal digits, building strings
//! character by character, decimal integer parsing, and splitting text at a
//! separator character.

use vstd::prelude::*;
use vstd::string::StrSliceExecFns;
use vstd::string::StringExecFns;

verus! {

/// The sixteen lower-case hexadecimal digits, in order of value.
pub open spec fn lower_hex_digits() -> Seq<char> {
    seq!['0', '1', '2', '3', '4', '5', '6', '7', '8', '9', 'a', 'b', 'c', 'd', 'e', 'f']
}

/// The lower-case hexadecimal digit of a value below 16.
pub open spec fn hex_digit(n: int) -> char
    recommends
        0 <= n < 16,
{
    lower_hex_digits()[n]
}

/// The value of a hexadecimal digit (either case), if `c` is one.
pub open spec fn hex_value(c: char) -> Option<int> {
    if '0' <= c && c <= '9' {
        Some(c as int - '0' as int)
    } else if 'a' <= c && c <= 'f' {
        Some(c as int - 'a' as int + 10)
    } else if 'A' <= c && c <= 'F' {
        Some(c as int - 'A' as int + 10)
    } else {
        None
    }
}

/// Two lower-case hexadecimal digits of a byte, most significant first.
pub open spec fn hex_byte(b: u8) -> Seq<char> {
    seq![hex_digit(b as int / 16), hex_digit(b as int % 16)]
}

/// The decimal digit of a value below 10.
pub open spec fn decimal_digit(n: int) -> char
    recommends
        0 <= n < 10,
{
    seq!['0', '1', '2', '3', '4', '5', '6', '7', '8', '9'][n]
}

/// The decimal representation of a natural number, without leading zeros.
pub open spec fn decimal(n: nat) -> Seq<char>
    decreases n,
{
    if n < 10 {
        seq![decimal_digit(n as int)]
    } else {
        decimal(n / 10).push(decimal_digit(n as int % 10))
    }
}

/// Reading the digit written for a value below 16 gives that value back.
pub proof fn lemma_hex_value_of_digit(n: int)
    requires
        0 <= n < 16,
    ensures
        hex_value(hex_digit(n)) == Some(n),
{
}

/// Appends one character to a string with `String::push`; the contract
/// claims that the string's characters afterwards are those before, then `c`.
#[verifier::external_body]
pub(crate) fn push_char(s: &mut String, c: char)
    ensures
        final(s)@ == old(s)@.push(c),
{
    s.push(c)
}

/// The lower-case hexadecimal digit of `n`.
pub fn hex_digit_char(n: u8) -> (c: char)
    requires
        n < 16,
    ensures
        c == hex_digit(n as int),
{
    let digits: [char; 16] = ['0', '1', '2', '3', '4', '5', '6', '7', '8', '9', 'a', 'b', 'c', 'd', 'e', 'f'];
    assert(digits@ =~= lower_hex_digits());
    digits[n as usize]
}

/// The value of a hexadecimal digit, or `None` where `c` is not one.
pub fn hex_value_of(c: char) -> (r: Option<u8>)
    ensures
        r matches Some(v) ==> hex_value(c) == Some(v as int),
        r is None <==> hex_value(c) is None,
{
    if '0' <= c && c <= '9' {
        Some((c as u32 - '0' as u32) as u8)
    } else if 'a' <= c && c <= 'f' {
        Some((c as u32 - 'a' as u32 + 10) as u8)
    } else if 'A' <= c && c <= 'F' {
        Some((c as u32 - 'A' as u32 + 10) as u8)
    } else {
        None
    }
}

/// The decimal digit of `n`.
pub fn decimal_digit_char(n: u64) -> (c: char)
    requires
        n < 10,
    ensures
        c == decimal_digit(n as int),
{
    let digits: [char; 10] = ['0', '1', '2', '3', '4', '5', '6', '7', '8', '9'];
    assert(digits@ =~= seq!['0', '1', '2', '3', '4', '5', '6', '7', '8', '9']);
    digits[n as usize]
}

/// Appends the decimal representation of `n` to `s`.
pub fn push_decimal(s: &mut String, n: u64)
    ensures
        final(s)@ == old(s)@ + decimal(n as nat),
    decreases n,
{
    if n >= 10 {
        push_decimal(s, n / 10);
    }
    let d = decimal_digit_char(n % 10);
    push_char(s, d);
    assert(s@ =~= old(s)@ + decimal(n as nat)) by {
        if n >= 10 {
            assert(decimal(n as nat) == decimal((n / 10) as nat).push(decimal_digit(n as int % 10)));
        }
    }
}

/// A decimal digit.
pub open spec fn is_digit(c: char) -> bool {
    '0' <= c && c <= '9'
}

/// The value of a string of decimal digits, most significant first.
pub open spec fn digits_value(ds: Seq<char>) -> int
    decreases ds.len(),
{
    if ds.len() == 0 {
        0
    } else {
        digits_value(ds.drop_last()) * 10 + (ds.last() as int - '0' as int)
    }
}

/// `s` without a leading `+` or `-`.
pub open spec fn unsigned_part(s: Seq<char>) -> Seq<char> {
    if s.len() > 0 && (s[0] == '-' || s[0] == '+') {
        s.drop_first()
    } else {
        s
    }
}

/// Every character is a decimal digit.
pub open spec fn all_digits(ds: Seq<char>) -> bool {
    forall|j: int| 0 <= j < ds.len() ==> is_digit(#[trigger] ds[j])
}

/// What `str::parse::<i32>` reads from `s`: an optional `+` or `-`, then one
/// or more decimal digits, with a value that fits an `i32`.
pub open spec fn parsed_i32(s: Seq<char>) -> Option<i32> {
    let digits = unsigned_part(s);
    if s.len() == 0 || digits.len() == 0 || !all_digits(digits) {
        None
    } else {
        let v = if s[0] == '-' { -digits_value(digits) } else { digits_value(digits) };
        if i32::MIN <= v <= i32::MAX {
            Some(v as i32)
        } else {
            None
        }
    }
}

proof fn lemma_digits_value_grows(ds: Seq<char>, i: int)
    requires
        0 <= i <= ds.len(),
        forall|j: int| 0 <= j < ds.len() ==> is_digit(#[trigger] ds[j]),
    ensures
        digits_value(ds.take(i)) <= digits_value(ds),
        digits_value(ds) >= 0,
    decreases ds.len() - i,
{
    if i < ds.len() {
        lemma_digits_value_grows(ds, i + 1);
        assert(ds.take(i + 1).drop_last() =~= ds.take(i));
        lemma_digits_value_nonneg(ds.take(i));
    } else {
        assert(ds.take(i) =~= ds);
        lemma_digits_value_nonneg(ds);
    }
}

proof fn lemma_digits_value_nonneg(ds: Seq<char>)
    requires
        forall|j: int| 0 <= j < ds.len() ==> is_digit(#[trigger] ds[j]),
    ensures
        digits_value(ds) >= 0,
    decreases ds.len(),
{
    if ds.len() > 0 {
        lemma_digits_value_nonneg(ds.drop_last());
    }
}

/// Reads a decimal `i32` as `str::parse::<i32>` does; `None` for anything else.
pub fn parse_i32(s: &str) -> (r: Option<i32>)
    ensures
        r == parsed_i32(s@),
{
    let n = s.unicode_len();
    if n == 0 {
        return None;
    }
    let first = s.get_char(0);
    let neg = first == '-';
    let start: usize = if first == '-' || first == '+' { 1 } else { 0 };
    let ghost digits = if first == '-' || first == '+' { s@.drop_first() } else { s@ };
    assert(digits =~= s@.skip(start as int));
    assert(first == s@[0]);
    assert(digits == unsigned_part(s@));
    if start >= n {
        return None;
    }
    let mut acc: i64 = 0;
    let mut i: usize = start;
    while i < n
        invariant
            n == s@.len(),
            n > 0,
            start <= i <= n,
            digits == s@.skip(start as int),
            digits == unsigned_part(s@),
            neg == (s@[0] == '-'),
            forall|j: int| 0 <= j < i - start ==> is_digit(#[trigger] digits[j]),
            acc as int == digits_value(digits.take(i - start)),
            0 <= acc <= 0x8000_0000,
        decreases n - i,
    {
        let c = s.get_char(i);
        if !('0' <= c && c <= '9') {
            assert(!is_digit(digits[i - start]));
            return None;
        }
        assert(digits.take(i - start + 1).drop_last() =~= digits.take(i - start));
        let next: i64 = acc * 10 + (c as u32 - '0' as u32) as i64;
        if next > 0x8000_0000 {
            let ghost k = i - start + 1;
            proof {
                if all_digits(digits) {
                    lemma_digits_value_grows(digits, k);
                }
            }
            return None;
        }
        acc = next;
        i = i + 1;
    }
    assert(digits.take(n - start) =~= digits);
    let v: i64 = if neg { -acc } else { acc };
    if v > 0x7fff_ffff {
        None
    } else {
        Some(v as i32)
    }
}


/// Whether two strings have the same characters.
pub fn str_eq(a: &str, b: &str) -> (r: bool)
    ensures
        r == (a@ == b@),
{
    a.to_owned() == b.to_owned()
}

/// `s` starts with `p`.
pub open spec fn starts_with(s: Seq<char>, p: Seq<char>) -> bool {
    s.len() >= p.len() && s.take(p.len() as int) == p
}

/// Whether `s` starts with `p`.
pub fn str_starts_with(s: &str, p: &str) -> (b: bool)
    ensures
        b == starts_with(s@, p@),
{
    let n = s.unicode_len();
    let m = p.unicode_len();
    if n < m {
        return false;
    }
    let mut i: usize = 0;
    while i < m
        invariant
            n == s@.len(),
            m == p@.len(),
            m <= n,
            i <= m,
            forall|j: int| 0 <= j < i ==> s@[j] == p@[j],
        decreases m - i,
    {
        if s.get_char(i) != p.get_char(i) {
            return false;
        }
        i = i + 1;
    }
    assert(s@.take(m as int) =~= p@);
    true
}

/// `s` holds no `c`.
pub open spec fn free_of(s: Seq<char>, c: char) -> bool {
    forall|j: int| 0 <= j < s.len() ==> s[j] != c
}

/// `i` is the position of the first `c` in `s`.
pub open spec fn is_first_index(s: Seq<char>, c: char, i: int) -> bool {
    0 <= i < s.len() && s[i] == c && free_of(s.take(i), c)
}

/// What follows the first `c` in `s`, or `None` where `s` holds no `c`.
pub open spec fn after_first(s: Seq<char>, c: char) -> Option<Seq<char>> {
    if exists|i: int| is_first_index(s, c, i) {
        let i = choose|i: int| is_first_index(s, c, i);
        Some(s.skip(i + 1))
    } else {
        None
    }
}

proof fn lemma_first_index_unique(s: Seq<char>, c: char, i: int, k: int)
    requires
        is_first_index(s, c, i),
        is_first_index(s, c, k),
    ensures
        i == k,
{
    if i < k {
        assert(s.take(k)[i] == s[i]);
    }
    if k < i {
        assert(s.take(i)[k] == s[k]);
    }
}

/// What follows the first `c` in `s`, as the second part of
/// `s.splitn(2, c)`; `None` where `s` holds no `c`.
pub fn text_after_first(s: &str, c: char) -> (r: Option<&str>)
    ensures
        r matches Some(t) ==> after_first(s@, c) == Some(t@),
        r is None ==> after_first(s@, c) is None,
{
    let n = s.unicode_len();
    let mut i: usize = 0;
    while i < n
        invariant
            n == s@.len(),
            i <= n,
            free_of(s@.take(i as int), c),
        decreases n - i,
    {
        if s.get_char(i) == c {
            proof {
                assert(is_first_index(s@, c, i as int));
                assert forall|k: int| is_first_index(s@, c, k) implies k == i by {
                    lemma_first_index_unique(s@, c, i as int, k);
                }
            }
            return Some(s.substring_char(i + 1, n));
        }
        assert(s@.take(i + 1) =~= s@.take(i as int).push(s@[i as int]));
        i = i + 1;
    }
    proof {
        assert(s@.take(i as int) =~= s@);
        assert forall|k: int| !is_first_index(s@, c, k) by {
            if 0 <= k < s@.len() {
                assert(s@.take(i as int)[k] == s@[k]);
            }
        }
    }
    None
}

/// The pieces of `s` between the occurrences of `c`, as `str::split` gives
/// them: one more piece than there are `c`s, empty pieces included.
pub open spec fn split_on(s: Seq<char>, c: char) -> Seq<Seq<char>>
    decreases s.len(),
{
    if s.len() == 0 {
        seq![Seq::<char>::empty()]
    } else {
        let init = split_on(s.drop_last(), c);
        if s.last() == c {
            init.push(Seq::<char>::empty())
        } else {
            init.update(init.len() - 1, init.last().push(s.last()))
        }
    }
}

proof fn lemma_split_on_nonempty(s: Seq<char>, c: char)
    ensures
        split_on(s, c).len() >= 1,
    decreases s.len(),
{
    if s.len() > 0 {
        lemma_split_on_nonempty(s.drop_last(), c);
    }
}


/// Pieces joined with `c` between them.
pub open spec fn join_with(pieces: Seq<Seq<char>>, c: char) -> Seq<char>
    decreases pieces.len(),
{
    if pieces.len() == 0 {
        Seq::empty()
    } else if pieces.len() == 1 {
        pieces[0]
    } else {
        join_with(pieces.drop_last(), c) + seq![c] + pieces.last()
    }
}

/// Splitting a text at `c` and joining the pieces with `c` gives the text
/// back, and no piece holds `c`.
pub proof fn lemma_split_then_join(s: Seq<char>, c: char)
    ensures
        join_with(split_on(s, c), c) == s,
        forall|i: int| 0 <= i < split_on(s, c).len() ==> free_of(#[trigger] split_on(s, c)[i], c),
    decreases s.len(),
{
    if s.len() == 0 {
        assert(join_with(split_on(s, c), c) =~= s);
    } else {
        let init = split_on(s.drop_last(), c);
        lemma_split_then_join(s.drop_last(), c);
        lemma_split_on_nonempty(s.drop_last(), c);
        let ps = split_on(s, c);
        if s.last() == c {
            assert(ps.drop_last() =~= init);
            assert(join_with(ps, c) =~= s);
        } else {
            let l = init.last();
            assert(ps.drop_last() =~= init.drop_last());
            assert(ps.last() == l.push(s.last()));
            if init.len() == 1 {
                assert(join_with(ps, c) =~= s);
            } else {
                assert(join_with(init, c) == join_with(init.drop_last(), c) + seq![c] + l);
                assert(ps.len() == init.len());
                assert(join_with(ps, c) == join_with(ps.drop_last(), c) + seq![c] + ps.last());
                assert(s =~= s.drop_last().push(s.last()));
                assert(join_with(ps, c) =~= s);
            }
            assert forall|i: int| 0 <= i < ps.len() implies free_of(#[trigger] ps[i], c) by {
                if i == ps.len() - 1 {
                    assert(free_of(init[i], c));
                } else {
                    assert(ps[i] == init[i]);
                }
            }
        }
    }
}

/// Splits `s` at each `c`, as `s.split(c)` does.
pub fn split_text(s: &str, c: char) -> (pieces: Vec<String>)
    ensures
        pieces@.map_values(|p: String| p@) == split_on(s@, c),
{
    let n = s.unicode_len();
    let mut pieces: Vec<String> = Vec::new();
    let mut current = String::new();
    let mut i: usize = 0;
    assert(s@.take(0) =~= Seq::<char>::empty());
    assert(pieces@.map_values(|p: String| p@).push(current@) =~= split_on(s@.take(0), c));
    while i < n
        invariant
            n == s@.len(),
            i <= n,
            pieces@.map_values(|p: String| p@).push(current@) == split_on(s@.take(i as int), c),
        decreases n - i,
    {
        let ch = s.get_char(i);
        let ghost before = s@.take(i as int);
        let ghost after = s@.take(i + 1);
        assert(after.drop_last() =~= before);
        assert(after.last() == ch);
        proof {
            lemma_split_on_nonempty(before, c);
        }
        if ch == c {
            let done = current;
            pieces.push(done);
            current = String::new();
            assert(pieces@.map_values(|p: String| p@).push(current@) =~= split_on(after, c));
        } else {
            let ghost old_pieces = pieces@.map_values(|p: String| p@);
            push_char(&mut current, ch);
            assert(pieces@.map_values(|p: String| p@).push(current@) =~= split_on(after, c));
        }
        i = i + 1;
    }
    assert(s@.take(n as int) =~= s@);
    pieces.push(current);
    pieces
}

} // verus!
