//! Verified text utilities: decimal-number reading, character search,
//! string comparison and ordering, and substring replacement.
//!
//! Everything here is executable code proved against small spec functions
//! over `Seq<char>`; no outside crate is involved.

use vstd::prelude::*;

verus! {

/// True for the ten ASCII decimal digit characters.
pub open spec fn is_digit_char(c: char) -> bool {
    48 <= c as u32 && c as u32 <= 57
}

/// Numeric value of an ASCII digit character.
pub open spec fn digit_val(c: char) -> int {
    c as u32 - 48
}

/// The number denoted by a sequence of decimal digit characters,
/// most significant digit first.
pub open spec fn dec_val(s: Seq<char>) -> int
    decreases s.len(),
{
    if s.len() == 0 {
        0
    } else {
        dec_val(s.drop_last()) * 10 + digit_val(s.last())
    }
}

/// Every character of `s` is a decimal digit.
pub open spec fn all_digits(s: Seq<char>) -> bool {
    forall|i: int| 0 <= i < s.len() ==> is_digit_char(#[trigger] s[i])
}

proof fn lemma_dec_val_nonneg(s: Seq<char>)
    requires
        all_digits(s),
    ensures
        dec_val(s) >= 0,
    decreases s.len(),
{
    if s.len() > 0 {
        assert(all_digits(s.drop_last()));
        lemma_dec_val_nonneg(s.drop_last());
        assert(dec_val(s.drop_last()) * 10 >= 0);
    }
}

/// Under `all_digits`, extending a digit string can only increase its value.
proof fn lemma_dec_val_prefix_le(s: Seq<char>, i: int)
    requires
        all_digits(s),
        0 <= i <= s.len(),
    ensures
        dec_val(s.take(i)) <= dec_val(s),
    decreases s.len(),
{
    if i < s.len() {
        assert(all_digits(s.drop_last()));
        assert(s.drop_last().take(i) =~= s.take(i));
        lemma_dec_val_prefix_le(s.drop_last(), i);
        lemma_dec_val_nonneg(s.drop_last());
        assert(dec_val(s.drop_last()) * 10 >= dec_val(s.drop_last())) by {
            assert(dec_val(s.drop_last()) >= 0);
        }
    } else {
        assert(s.take(i) =~= s);
    }
}

/// Reads `s` as an unsigned decimal number. Returns `Some` exactly when `s`
/// is non-empty, consists of digits only, and its value fits in a `u64`.
pub fn parse_uint(s: &str) -> (r: Option<u64>)
    ensures
        r is Some <==> (s@.len() > 0 && all_digits(s@) && dec_val(s@) <= u64::MAX),
        r matches Some(v) ==> v == dec_val(s@),
{
    let n = s.unicode_len();
    if n == 0 {
        return None;
    }
    let mut i: usize = 0;
    let mut acc: u64 = 0;
    while i < n
        invariant
            0 <= i <= n,
            n == s@.len(),
            all_digits(s@.take(i as int)),
            acc == dec_val(s@.take(i as int)),
        decreases n - i,
    {
        let c = s.get_char(i);
        let cv = c as u32;
        if cv < 48 || cv > 57 {
            assert(!is_digit_char(s@[i as int]));
            return None;
        }
        let d = (cv - 48) as u64;
        if acc > (u64::MAX - d) / 10 {
            proof {
                let m = u64::MAX as int;
                assert(acc * 10 + d > m) by (nonlinear_arith)
                    requires
                        acc > (m - d) / 10,
                        0 <= d <= 9,
                        acc >= 0,
                        m == u64::MAX as int,
                {}
                if all_digits(s@) {
                    assert(s@.take(i + 1 as int).drop_last() =~= s@.take(i as int));
                    assert(s@.take(i + 1 as int).last() == s@[i as int]);
                    assert(dec_val(s@.take(i + 1)) == acc * 10 + d);
                    lemma_dec_val_prefix_le(s@, i + 1);
                }
            }
            return None;
        }
        proof {
            let m = u64::MAX as int;
            assert(acc * 10 + d <= m) by (nonlinear_arith)
                requires
                    acc <= (m - d) / 10,
                    0 <= d <= 9,
                    acc >= 0,
                    m == u64::MAX as int,
            {}
            assert(s@.take(i + 1 as int).drop_last() =~= s@.take(i as int));
            assert(s@.take(i + 1 as int).last() == s@[i as int]);
        }
        acc = acc * 10 + d;
        i = i + 1;
    }
    proof {
        assert(s@.take(n as int) =~= s@);
    }
    Some(acc)
}

/// Reads `s` as a `u16`: digits only, non-empty, value at most `u16::MAX`.
pub fn parse_u16(s: &str) -> (r: Option<u16>)
    ensures
        r is Some <==> (s@.len() > 0 && all_digits(s@) && dec_val(s@) <= u16::MAX),
        r matches Some(v) ==> v == dec_val(s@),
{
    match parse_uint(s) {
        Some(v) if v <= u16::MAX as u64 => Some(v as u16),
        _ => None,
    }
}

/// Reads `s` as a `u32`: digits only, non-empty, value at most `u32::MAX`.
pub fn parse_u32(s: &str) -> (r: Option<u32>)
    ensures
        r is Some <==> (s@.len() > 0 && all_digits(s@) && dec_val(s@) <= u32::MAX),
        r matches Some(v) ==> v == dec_val(s@),
{
    match parse_uint(s) {
        Some(v) if v <= u32::MAX as u64 => Some(v as u32),
        _ => None,
    }
}

/// Reads `s` as a `u8`: digits only, non-empty, value at most `u8::MAX`.
pub fn parse_u8(s: &str) -> (r: Option<u8>)
    ensures
        r is Some <==> (s@.len() > 0 && all_digits(s@) && dec_val(s@) <= u8::MAX),
        r matches Some(v) ==> v == dec_val(s@),
{
    match parse_uint(s) {
        Some(v) if v <= u8::MAX as u64 => Some(v as u8),
        _ => None,
    }
}

/// The digit characters of `s`, in order, everything else dropped.
pub open spec fn digits_of(s: Seq<char>) -> Seq<char> {
    s.filter(|c: char| is_digit_char(c))
}

/// Every character of a filtered digit string is a digit.
proof fn lemma_digits_of_all_digits(s: Seq<char>)
    ensures
        all_digits(digits_of(s)),
{
    broadcast use vstd::seq_lib::group_filter_ensures;

}

/// Appending digits never decreases the denoted value.
proof fn lemma_dec_val_concat(a: Seq<char>, b: Seq<char>)
    requires
        all_digits(a),
        all_digits(b),
    ensures
        dec_val(a + b) >= dec_val(a),
    decreases b.len(),
{
    if b.len() == 0 {
        assert(a + b =~= a);
    } else {
        assert((a + b).drop_last() =~= a + b.drop_last());
        assert(all_digits(b.drop_last()));
        lemma_dec_val_concat(a, b.drop_last());
        assert(all_digits(a + b.drop_last())) by {
            assert(forall|i: int|
                0 <= i < a.len() ==> (a + b.drop_last())[i] == a[i]);
            assert(forall|i: int|
                a.len() <= i < a.len() + b.drop_last().len() ==> (a + b.drop_last())[i]
                    == b.drop_last()[i - a.len()]);
        }
        lemma_dec_val_nonneg(a + b.drop_last());
        assert((a + b).last() == b.last());
        assert(digit_val(b.last()) >= 0);
        assert(dec_val(a + b.drop_last()) * 10 >= dec_val(a + b.drop_last()));
    }
}

/// Reads the number denoted by the digit characters of `s`, everything
/// else ignored, as `str::parse` would after stripping the non-digits.
/// `None` when `s` holds no digit at all or the value exceeds a `u64`.
pub fn digits_value(s: &str) -> (r: Option<u64>)
    ensures
        r is Some <==> (digits_of(s@).len() > 0 && dec_val(digits_of(s@)) <= u64::MAX),
        r matches Some(v) ==> v == dec_val(digits_of(s@)),
{
    let n = s.unicode_len();
    let mut i: usize = 0;
    let mut acc: u64 = 0;
    let mut seen = false;
    proof {
        reveal(Seq::filter);
        assert(s@.take(0) =~= Seq::<char>::empty());
        assert(digits_of(s@.take(0)) =~= Seq::<char>::empty());
    }
    while i < n
        invariant
            0 <= i <= n,
            n == s@.len(),
            all_digits(digits_of(s@.take(i as int))),
            acc == dec_val(digits_of(s@.take(i as int))),
            seen == (digits_of(s@.take(i as int)).len() > 0),
        decreases n - i,
    {
        let c = s.get_char(i);
        let cv = c as u32;
        let ghost pre = digits_of(s@.take(i as int));
        proof {
            reveal(Seq::filter);
            assert(s@.take(i + 1 as int).drop_last() =~= s@.take(i as int));
            assert(s@.take(i + 1 as int).last() == s@[i as int]);
        }
        if 48 <= cv && cv <= 57 {
            let d = (cv - 48) as u64;
            proof {
                assert(digits_of(s@.take(i + 1)) == pre.push(s@[i as int]));
                assert(pre.push(s@[i as int]).drop_last() =~= pre);
                assert(dec_val(digits_of(s@.take(i + 1))) == dec_val(pre) * 10 + d);
            }
            if acc > (u64::MAX - d) / 10 {
                proof {
                    let m = u64::MAX as int;
                    assert(acc * 10 + d > m) by (nonlinear_arith)
                        requires
                            acc > (m - d) / 10,
                            0 <= d <= 9,
                            acc >= 0,
                            m == u64::MAX as int,
                    {}
                    assert(s@ =~= s@.take(i + 1) + s@.skip(i + 1));
                    Seq::<char>::filter_distributes_over_add(
                        s@.take(i + 1),
                        s@.skip(i + 1),
                        |ch: char| is_digit_char(ch),
                    );
                    lemma_digits_of_all_digits(s@.take(i + 1));
                    lemma_digits_of_all_digits(s@.skip(i + 1));
                    lemma_dec_val_concat(digits_of(s@.take(i + 1)), digits_of(s@.skip(i + 1)));
                    lemma_digits_of_all_digits(s@);
                }
                return None;
            }
            proof {
                let m = u64::MAX as int;
                assert(acc * 10 + d <= m) by (nonlinear_arith)
                    requires
                        acc <= (m - d) / 10,
                        0 <= d <= 9,
                        acc >= 0,
                        m == u64::MAX as int,
                {}
            }
            acc = acc * 10 + d;
            seen = true;
        } else {
            proof {
                assert(!is_digit_char(s@[i as int]));
                assert(digits_of(s@.take(i + 1)) == pre);
            }
        }
        i = i + 1;
    }
    proof {
        assert(s@.take(n as int) =~= s@);
    }
    if seen {
        Some(acc)
    } else {
        None
    }
}

/// The digit character denoting one decimal digit.
pub open spec fn digit_char_of(d: int) -> char
    recommends
        0 <= d < 10,
{
    if d == 0 {
        '0'
    } else if d == 1 {
        '1'
    } else if d == 2 {
        '2'
    } else if d == 3 {
        '3'
    } else if d == 4 {
        '4'
    } else if d == 5 {
        '5'
    } else if d == 6 {
        '6'
    } else if d == 7 {
        '7'
    } else if d == 8 {
        '8'
    } else {
        '9'
    }
}

/// The decimal spelling of a non-negative number, without leading zeros.
pub open spec fn dec_str(n: int) -> Seq<char>
    recommends
        n >= 0,
    decreases n,
{
    if n < 10 {
        seq![digit_char_of(n)]
    } else {
        dec_str(n / 10).push(digit_char_of(n % 10))
    }
}

/// One decimal digit as text.
fn digit_str(d: u16) -> (r: &'static str)
    requires
        d < 10,
    ensures
        r@ == seq![digit_char_of(d as int)],
{
    if d == 0 {
        proof {
            reveal_strlit("0");
        }
        "0"
    } else if d == 1 {
        proof {
            reveal_strlit("1");
        }
        "1"
    } else if d == 2 {
        proof {
            reveal_strlit("2");
        }
        "2"
    } else if d == 3 {
        proof {
            reveal_strlit("3");
        }
        "3"
    } else if d == 4 {
        proof {
            reveal_strlit("4");
        }
        "4"
    } else if d == 5 {
        proof {
            reveal_strlit("5");
        }
        "5"
    } else if d == 6 {
        proof {
            reveal_strlit("6");
        }
        "6"
    } else if d == 7 {
        proof {
            reveal_strlit("7");
        }
        "7"
    } else if d == 8 {
        proof {
            reveal_strlit("8");
        }
        "8"
    } else {
        proof {
            reveal_strlit("9");
        }
        "9"
    }
}

/// Writes a number in decimal, as `dec_str` spells it.
pub fn u16_to_dec(n: u16) -> (r: String)
    ensures
        r@ == dec_str(n as int),
    decreases n,
{
    if n < 10 {
        digit_str(n).to_owned()
    } else {
        let mut s = u16_to_dec(n / 10);
        s.append(digit_str(n % 10));
        proof {
            assert(s@ =~= dec_str((n / 10) as int).push(digit_char_of((n % 10) as int)));
        }
        s
    }
}

/// Character-by-character string equality, proved against the views.
pub fn str_eq(a: &str, b: &str) -> (r: bool)
    ensures
        r == (a@ == b@),
{
    let na = a.unicode_len();
    let nb = b.unicode_len();
    if na != nb {
        return false;
    }
    let mut i: usize = 0;
    while i < na
        invariant
            0 <= i <= na,
            na == a@.len(),
            na == b@.len(),
            forall|j: int| 0 <= j < i ==> a@[j] == b@[j],
        decreases na - i,
    {
        if a.get_char(i) != b.get_char(i) {
            return false;
        }
        i = i + 1;
    }
    proof {
        assert(a@ =~= b@);
    }
    true
}

/// Number of occurrences of `c` in `s`.
pub open spec fn count_char(s: Seq<char>, c: char) -> nat
    decreases s.len(),
{
    if s.len() == 0 {
        0
    } else {
        count_char(s.drop_last(), c) + if s.last() == c {
            1nat
        } else {
            0nat
        }
    }
}

/// Index of the first occurrence of `c` in `s`, or -1 if `c` does not occur.
pub open spec fn find_char(s: Seq<char>, c: char) -> int
    decreases s.len(),
{
    if s.len() == 0 {
        -1
    } else if s[0] == c {
        0
    } else if find_char(s.drop_first(), c) == -1 {
        -1
    } else {
        1 + find_char(s.drop_first(), c)
    }
}

pub proof fn lemma_find_char(s: Seq<char>, c: char)
    ensures
        find_char(s, c) == -1 || 0 <= find_char(s, c) < s.len(),
        find_char(s, c) == -1 ==> forall|i: int| 0 <= i < s.len() ==> s[i] != c,
        find_char(s, c) >= 0 ==> {
            &&& find_char(s, c) < s.len()
            &&& s[find_char(s, c)] == c
            &&& forall|i: int| 0 <= i < find_char(s, c) ==> s[i] != c
        },
    decreases s.len(),
{
    if s.len() > 0 && s[0] != c {
        lemma_find_char(s.drop_first(), c);
        if find_char(s.drop_first(), c) == -1 {
            assert forall|i: int| 0 <= i < s.len() implies s[i] != c by {
                if i >= 1 {
                    assert(s.drop_first()[i - 1] != c);
                }
            }
        } else {
            let f = find_char(s.drop_first(), c);
            assert(s[1 + f] == s.drop_first()[f]);
            assert forall|i: int| 0 <= i < 1 + f implies s[i] != c by {
                if i >= 1 {
                    assert(s.drop_first()[i - 1] != c);
                }
            }
        }
    }
}

proof fn lemma_count_char_prefix(s: Seq<char>, c: char, i: int)
    requires
        0 <= i <= s.len(),
    ensures
        count_char(s, c) >= count_char(s.take(i), c),
    decreases s.len(),
{
    if i < s.len() {
        assert(s.drop_last().take(i) =~= s.take(i));
        lemma_count_char_prefix(s.drop_last(), c, i);
    } else {
        assert(s.take(i) =~= s);
    }
}

/// Counts how many times `c` occurs in `s`.
pub fn count_char_in(s: &str, c: char) -> (r: usize)
    ensures
        r == count_char(s@, c),
{
    let n = s.unicode_len();
    let mut i: usize = 0;
    let mut cnt: usize = 0;
    while i < n
        invariant
            0 <= i <= n,
            n == s@.len(),
            cnt == count_char(s@.take(i as int), c),
            cnt <= i,
        decreases n - i,
    {
        proof {
            assert(s@.take(i + 1 as int).drop_last() =~= s@.take(i as int));
            assert(s@.take(i + 1 as int).last() == s@[i as int]);
        }
        if s.get_char(i) == c {
            cnt = cnt + 1;
        }
        i = i + 1;
    }
    proof {
        assert(s@.take(n as int) =~= s@);
    }
    cnt
}

/// Finds the first occurrence of `c` in `s`.
pub fn find_char_in(s: &str, c: char) -> (r: Option<usize>)
    ensures
        r matches Some(i) ==> i == find_char(s@, c),
        r is None ==> find_char(s@, c) == -1,
{
    let n = s.unicode_len();
    let mut i: usize = 0;
    while i < n
        invariant
            0 <= i <= n,
            n == s@.len(),
            forall|j: int| 0 <= j < i ==> s@[j] != c,
        decreases n - i,
    {
        if s.get_char(i) == c {
            proof {
                lemma_find_char(s@, c);
                let f = find_char(s@, c);
                if f == -1 {
                    assert(s@[i as int] != c);
                } else if f < i as int {
                    assert(s@[f] == c);
                } else if f > i as int {
                    assert(s@[i as int] != c);
                }
            }
            return Some(i);
        }
        i = i + 1;
    }
    proof {
        lemma_find_char(s@, c);
        if find_char(s@, c) >= 0 {
            assert(s@[find_char(s@, c)] == c);
        }
    }
    None
}

/// Splits `s` at its single occurrence of `c`. Returns `Some` exactly when
/// `c` occurs exactly once; the two halves exclude the separator itself.
pub fn split_once_exact(s: &str, c: char) -> (r: Option<(String, String)>)
    ensures
        r is Some <==> count_char(s@, c) == 1,
        r matches Some(p) ==> {
            let i = find_char(s@, c);
            &&& p.0@ == s@.take(i)
            &&& p.1@ == s@.skip(i + 1)
        },
{
    let cnt = count_char_in(s, c);
    if cnt != 1 {
        return None;
    }
    match find_char_in(s, c) {
        Some(i) => {
            proof {
                lemma_find_char(s@, c);
            }
            let n = s.unicode_len();
            let left = s.substring_char(0, i);
            let right = s.substring_char(i + 1, n);
            proof {
                assert(left@ =~= s@.take(i as int));
                assert(right@ =~= s@.skip(i + 1));
            }
            Some((left.to_owned(), right.to_owned()))
        },
        None => {
            proof {
                lemma_find_char(s@, c);
                lemma_count_no_occurrence(s@, c);
            }
            None
        },
    }
}

proof fn lemma_count_no_occurrence(s: Seq<char>, c: char)
    requires
        forall|i: int| 0 <= i < s.len() ==> s[i] != c,
    ensures
        count_char(s, c) == 0,
    decreases s.len(),
{
    if s.len() > 0 {
        lemma_count_no_occurrence(s.drop_last(), c);
    }
}

/// Distinct characters have distinct scalar values.
proof fn lemma_char_code_injective(x: char, y: char)
    ensures
        x as u32 == y as u32 ==> x == y,
{
    vstd::utf8::char_u32_cast(x, x as u32);
    vstd::utf8::char_u32_cast(y, y as u32);
}

/// Strict lexicographic order on character sequences, by character code.
/// For text held in UTF-8 this coincides with the byte-wise order that
/// `str` comparison uses.
pub open spec fn lex_lt(a: Seq<char>, b: Seq<char>) -> bool
    decreases a.len(),
{
    if b.len() == 0 {
        false
    } else if a.len() == 0 {
        true
    } else if (a[0] as u32) < (b[0] as u32) {
        true
    } else if a[0] == b[0] {
        lex_lt(a.drop_first(), b.drop_first())
    } else {
        false
    }
}

/// `lex_lt` is a strict total order: exactly one of `a < b`, `a == b`,
/// `b < a` holds.
pub proof fn lemma_lex_lt_trichotomy(a: Seq<char>, b: Seq<char>)
    ensures
        lex_lt(a, b) || lex_lt(b, a) || a == b,
        lex_lt(a, b) ==> !lex_lt(b, a) && a != b,
        a == b ==> !lex_lt(a, b),
    decreases a.len(),
{
    if a.len() == 0 && b.len() == 0 {
        assert(a =~= b);
    } else if a.len() > 0 && b.len() > 0 {
        if a[0] == b[0] {
            lemma_lex_lt_trichotomy(a.drop_first(), b.drop_first());
            if a.drop_first() == b.drop_first() {
                assert forall|i: int| 0 <= i < a.len() implies a[i] == b[i] by {
                    if i >= 1 {
                        assert(a.drop_first()[i - 1] == b.drop_first()[i - 1]);
                    }
                }
                assert(a =~= b);
            }
            if a == b {
                assert(a.drop_first() =~= b.drop_first());
            }
        } else {
            assert(a != b) by {
                if a == b {
                    assert(a[0] == b[0]);
                }
            }
            lemma_char_code_injective(a[0], b[0]);
            if (a[0] as u32) < (b[0] as u32) {
                assert(lex_lt(a, b));
            } else {
                assert((b[0] as u32) < (a[0] as u32));
                assert(lex_lt(b, a));
            }
        }
    }
}

pub proof fn lemma_lex_lt_transitive(a: Seq<char>, b: Seq<char>, c: Seq<char>)
    requires
        lex_lt(a, b),
        lex_lt(b, c),
    ensures
        lex_lt(a, c),
    decreases a.len(),
{
    if a.len() > 0 && b.len() > 0 && c.len() > 0 {
        if a[0] == b[0] && b[0] == c[0] {
            lemma_lex_lt_transitive(a.drop_first(), b.drop_first(), c.drop_first());
        }
    }
}

/// Character-by-character lexicographic comparison, proved against `lex_lt`.
pub fn str_lt(a: &str, b: &str) -> (r: bool)
    ensures
        r == lex_lt(a@, b@),
{
    let na = a.unicode_len();
    let nb = b.unicode_len();
    let mut i: usize = 0;
    proof {
        assert(a@.skip(0) =~= a@);
        assert(b@.skip(0) =~= b@);
    }
    loop
        invariant
            0 <= i,
            i <= na,
            i <= nb,
            na == a@.len(),
            nb == b@.len(),
            forall|j: int| 0 <= j < i ==> a@[j] == b@[j],
            lex_lt(a@, b@) == lex_lt(a@.skip(i as int), b@.skip(i as int)),
        decreases na - i,
    {
        if i >= nb {
            // b is exhausted: a is not smaller
            return false;
        }
        if i >= na {
            // a is a proper prefix of b
            return true;
        }
        let ca = a.get_char(i);
        let cb = b.get_char(i);
        proof {
            let sa = a@.skip(i as int);
            let sb = b@.skip(i as int);
            assert(sa[0] == a@[i as int]);
            assert(sb[0] == b@[i as int]);
            assert(sa.drop_first() =~= a@.skip(i + 1));
            assert(sb.drop_first() =~= b@.skip(i + 1));
            lemma_char_code_injective(a@[i as int], b@[i as int]);
        }
        if (ca as u32) < (cb as u32) {
            return true;
        }
        if ca != cb {
            return false;
        }
        i = i + 1;
    }
}

/// A single character of whitespace, as the blank-location test understands
/// it (the ASCII whitespace characters).
pub open spec fn is_space_char(c: char) -> bool {
    c == ' ' || c == '\t' || c == '\n' || c == '\r' || c == '\u{b}' || c == '\u{c}'
}

/// `s` contains nothing but whitespace (in particular, `s` may be empty).
pub open spec fn is_blank(s: Seq<char>) -> bool {
    forall|i: int| 0 <= i < s.len() ==> is_space_char(#[trigger] s[i])
}

/// Whether `s` is empty or all whitespace.
pub fn is_blank_str(s: &str) -> (r: bool)
    ensures
        r == is_blank(s@),
{
    let n = s.unicode_len();
    let mut i: usize = 0;
    while i < n
        invariant
            0 <= i <= n,
            n == s@.len(),
            forall|j: int| 0 <= j < i ==> is_space_char(#[trigger] s@[j]),
        decreases n - i,
    {
        let c = s.get_char(i);
        if !(c == ' ' || c == '\t' || c == '\n' || c == '\r' || c == '\u{b}' || c == '\u{c}') {
            return false;
        }
        i = i + 1;
    }
    true
}

/// Leftmost-first, non-overlapping replacement of `pat` by `rep`, the same
/// scheme `str::replace` follows.
pub open spec fn spec_replace(s: Seq<char>, pat: Seq<char>, rep: Seq<char>) -> Seq<char>
    decreases s.len(),
{
    if pat.len() == 0 || s.len() < pat.len() {
        s
    } else if s.take(pat.len() as int) == pat {
        rep + spec_replace(s.skip(pat.len() as int), pat, rep)
    } else {
        seq![s[0]] + spec_replace(s.drop_first(), pat, rep)
    }
}

/// Whether `pat` occurs in `s` starting at character index `i`.
fn matches_at(s: &str, i: usize, pat: &str) -> (r: bool)
    requires
        i + pat@.len() <= s@.len(),
        s@.len() <= usize::MAX,
    ensures
        r == (s@.subrange(i as int, i + pat@.len()) == pat@),
{
    let m = pat.unicode_len();
    let mut j: usize = 0;
    while j < m
        invariant
            0 <= j <= m,
            m == pat@.len(),
            i + m <= s@.len(),
            s@.len() <= usize::MAX,
            forall|k: int| 0 <= k < j ==> s@[i + k] == pat@[k],
        decreases m - j,
    {
        if s.get_char(i + j) != pat.get_char(j) {
            assert(s@.subrange(i as int, i + pat@.len())[j as int] != pat@[j as int]);
            return false;
        }
        j = j + 1;
    }
    proof {
        assert(s@.subrange(i as int, i + pat@.len()) =~= pat@);
    }
    true
}

/// Replaces every (leftmost-first, non-overlapping) occurrence of `pat` in
/// `s` by `rep`, as `str::replace` does.
pub fn replace_all(s: &str, pat: &str, rep: &str) -> (r: String)
    requires
        pat@.len() > 0,
    ensures
        r@ == spec_replace(s@, pat@, rep@),
{
    let n = s.unicode_len();
    let m = pat.unicode_len();
    let mut out = String::new();
    let mut i: usize = 0;
    proof {
        assert(s@.skip(0) =~= s@);
        assert(Seq::<char>::empty() + spec_replace(s@, pat@, rep@) =~= spec_replace(
            s@,
            pat@,
            rep@,
        ));
    }
    while i < n
        invariant
            0 <= i <= n,
            n == s@.len(),
            m == pat@.len(),
            m > 0,
            spec_replace(s@, pat@, rep@) == out@ + spec_replace(
                s@.skip(i as int),
                pat@,
                rep@,
            ),
        decreases n - i,
    {
        let ghost tail = s@.skip(i as int);
        let ghost out0 = out@;
        if m <= n - i && matches_at(s, i, pat) {
            proof {
                assert(tail.take(m as int) =~= s@.subrange(i as int, i + m));
                assert(tail.skip(m as int) =~= s@.skip(i + m));
            }
            out.append(rep);
            i = i + m;
            proof {
                let rest = spec_replace(s@.skip(i as int), pat@, rep@);
                assert(spec_replace(tail, pat@, rep@) == rep@ + rest);
                assert(out0 + (rep@ + rest) =~= (out0 + rep@) + rest);
            }
        } else {
            proof {
                if m <= n - i {
                    assert(tail.take(m as int) =~= s@.subrange(i as int, i + m));
                }
                assert(tail.len() < m || tail.take(m as int) != pat@);
                assert(seq![tail[0]] =~= s@.subrange(i as int, i + 1));
                assert(tail.drop_first() =~= s@.skip(i + 1));
            }
            let piece = s.substring_char(i, i + 1);
            out.append(piece);
            i = i + 1;
            proof {
                let rest = spec_replace(s@.skip(i as int), pat@, rep@);
                assert(spec_replace(tail, pat@, rep@) == seq![tail[0]] + rest);
                assert(out0 + (seq![tail[0]] + rest) =~= (out0 + seq![tail[0]]) + rest);
            }
        }
    }
    proof {
        assert(s@.skip(n as int) =~= Seq::<char>::empty());
        assert(spec_replace(Seq::<char>::empty(), pat@, rep@) =~= Seq::<char>::empty());
        assert(out@ + Seq::<char>::empty() =~= out@);
    }
    out
}

} // verus!
