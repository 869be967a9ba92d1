//! Character-level text utilities: equality and prefix tests, first/last
//! occurrence of a separator, decimal parsing and formatting of indices.
//! All exec functions are specified over the character view of a string.

use vstd::prelude::*;

verus! {

/// Index of the first occurrence of `c` in `p`, if any.
pub open spec fn find_char(p: Seq<char>, c: char) -> Option<int>
    decreases p.len(),
{
    if p.len() == 0 {
        None
    } else if p[0] == c {
        Some(0)
    } else {
        match find_char(p.drop_first(), c) {
            Some(i) => Some(i + 1),
            None => None,
        }
    }
}

/// Index of the last occurrence of `c` in `p`, if any.
pub open spec fn rfind_char(p: Seq<char>, c: char) -> Option<int>
    decreases p.len(),
{
    if p.len() == 0 {
        None
    } else if p.last() == c {
        Some(p.len() - 1)
    } else {
        rfind_char(p.drop_last(), c)
    }
}

/// `find_char` returns the first occurrence: the hit is in range and
/// everything before it differs from `c`; `None` means no occurrence.
pub proof fn lemma_find_char_props(p: Seq<char>, c: char)
    ensures
        match find_char(p, c) {
            Some(i) => 0 <= i < p.len() && p[i] == c && forall|j: int| 0 <= j < i ==> p[j] != c,
            None => forall|j: int| 0 <= j < p.len() ==> p[j] != c,
        },
    decreases p.len(),
{
    if p.len() > 0 && p[0] != c {
        lemma_find_char_props(p.drop_first(), c);
        assert(forall|j: int| 0 <= j < p.drop_first().len() ==> p.drop_first()[j] == p[j + 1]);
        match find_char(p.drop_first(), c) {
            Some(i) => {
                assert(p[i + 1] == p.drop_first()[i]);
                assert(forall|j: int| 1 <= j < i + 1 ==> p[j] == p.drop_first()[j - 1]);
            },
            None => {
                assert(forall|j: int| 1 <= j < p.len() ==> p[j] == p.drop_first()[j - 1]);
            },
        }
    }
}

/// `rfind_char` returns the last occurrence: the hit is in range and
/// everything after it differs from `c`; `None` means no occurrence.
pub proof fn lemma_rfind_char_props(p: Seq<char>, c: char)
    ensures
        match rfind_char(p, c) {
            Some(i) => 0 <= i < p.len() && p[i] == c && forall|j: int| i < j < p.len() ==> p[j] != c,
            None => forall|j: int| 0 <= j < p.len() ==> p[j] != c,
        },
    decreases p.len(),
{
    if p.len() > 0 && p.last() != c {
        lemma_rfind_char_props(p.drop_last(), c);
        assert(forall|j: int| 0 <= j < p.len() - 1 ==> p[j] == p.drop_last()[j]);
    }
}

/// Character-by-character string equality.
pub fn str_eq(a: &str, b: &str) -> (r: bool)
    ensures
        r == (a@ == b@),
{
    let alen = a.unicode_len();
    let blen = b.unicode_len();
    if alen != blen {
        return false;
    }
    let mut i: usize = 0;
    while i < alen
        invariant
            alen == a@.len(),
            alen == b@.len(),
            0 <= i <= alen,
            forall|j: int| 0 <= j < i ==> a@[j] == b@[j],
        decreases alen - i,
    {
        if a.get_char(i) != b.get_char(i) {
            return false;
        }
        i += 1;
    }
    proof {
        assert(a@ =~= b@);
    }
    true
}

/// Whether `p` is a prefix of `s`, character by character.
pub fn str_starts_with(s: &str, p: &str) -> (r: bool)
    ensures
        r == p@.is_prefix_of(s@),
{
    let slen = s.unicode_len();
    let plen = p.unicode_len();
    if plen > slen {
        return false;
    }
    let mut i: usize = 0;
    while i < plen
        invariant
            slen == s@.len(),
            plen == p@.len(),
            plen <= slen,
            0 <= i <= plen,
            forall|j: int| 0 <= j < i ==> s@[j] == p@[j],
        decreases plen - i,
    {
        if s.get_char(i) != p.get_char(i) {
            proof {
                assert(!p@.is_prefix_of(s@)) by {
                    assert(s@.subrange(0, p@.len() as int)[i as int] != p@[i as int]);
                }
            }
            return false;
        }
        i += 1;
    }
    proof {
        assert(p@ =~= s@.subrange(0, p@.len() as int));
    }
    true
}

/// First occurrence of `c` in `s`, as a character index.
pub fn find_in_str(s: &str, c: char) -> (r: Option<usize>)
    ensures
        match r {
            Some(i) => find_char(s@, c) == Some(i as int),
            None => find_char(s@, c) is None,
        },
{
    let len = s.unicode_len();
    let mut i: usize = 0;
    while i < len
        invariant
            len == s@.len(),
            0 <= i <= len,
            forall|j: int| 0 <= j < i ==> s@[j] != c,
        decreases len - i,
    {
        if s.get_char(i) == c {
            proof {
                lemma_find_char_props(s@, c);
            }
            return Some(i);
        }
        i += 1;
    }
    proof {
        lemma_find_char_props(s@, c);
    }
    None
}

/// Last occurrence of `c` in `s`, as a character index.
pub fn rfind_in_str(s: &str, c: char) -> (r: Option<usize>)
    ensures
        match r {
            Some(i) => rfind_char(s@, c) == Some(i as int),
            None => rfind_char(s@, c) is None,
        },
{
    let len = s.unicode_len();
    let mut i: usize = len;
    while i > 0
        invariant
            len == s@.len(),
            0 <= i <= len,
            forall|j: int| i <= j < len ==> s@[j] != c,
        decreases i,
    {
        i -= 1;
        if s.get_char(i) == c {
            proof {
                lemma_rfind_char_props(s@, c);
            }
            return Some(i);
        }
    }
    proof {
        lemma_rfind_char_props(s@, c);
    }
    None
}

/// A decimal digit.
pub open spec fn is_digit(c: char) -> bool {
    '0' <= c && c <= '9'
}

/// The numeric value of a digit character.
pub open spec fn digit_val(c: char) -> int {
    c as int - '0' as int
}

/// Every character of `s` is a decimal digit.
pub open spec fn all_digits(s: Seq<char>) -> bool {
    forall|i: int| 0 <= i < s.len() ==> is_digit(#[trigger] s[i])
}

/// The value of a digit string read most-significant first.
pub open spec fn digits_val(s: Seq<char>) -> int
    decreases s.len(),
{
    if s.len() == 0 {
        0
    } else {
        digits_val(s.drop_last()) * 10 + digit_val(s.last())
    }
}

/// The digit run of an index segment: one leading `+` sign is allowed
/// before the digits, as std's unsigned integer parse allows it.
pub open spec fn index_digits(s: Seq<char>) -> Seq<char> {
    if s.len() > 0 && s[0] == '+' {
        s.drop_first()
    } else {
        s
    }
}

/// What a path segment means as an array index: an optional `+` sign, then
/// a non-empty run of decimal digits whose value fits in `usize`; anything
/// else is no index.
pub open spec fn parse_index(s: Seq<char>) -> Option<int> {
    let d = index_digits(s);
    if d.len() > 0 && all_digits(d) && digits_val(d) <= usize::MAX as int {
        Some(digits_val(d))
    } else {
        None
    }
}

pub proof fn lemma_digits_val_nonneg(s: Seq<char>)
    requires
        all_digits(s),
    ensures
        digits_val(s) >= 0,
    decreases s.len(),
{
    if s.len() > 0 {
        assert(all_digits(s.drop_last()));
        lemma_digits_val_nonneg(s.drop_last());
        assert(digit_val(s.last()) >= 0);
    }
}

/// A longer digit prefix never has a smaller value.
pub proof fn lemma_digits_val_mono(s: Seq<char>, i: int, j: int)
    requires
        0 <= i <= j <= s.len(),
        forall|k: int| 0 <= k < j ==> is_digit(#[trigger] s[k]),
    ensures
        digits_val(s.subrange(0, i)) <= digits_val(s.subrange(0, j)),
    decreases j - i,
{
    if i < j {
        lemma_digits_val_mono(s, i, j - 1);
        let pre = s.subrange(0, j - 1);
        assert(s.subrange(0, j).drop_last() =~= pre);
        assert(all_digits(pre));
        lemma_digits_val_nonneg(pre);
        assert(digits_val(s.subrange(0, j)) == digits_val(pre) * 10 + digit_val(s[j - 1]));
    }
}

/// Parse a path segment as an array index, exactly when `parse_index` allows.
pub fn parse_usize(s: &str) -> (r: Option<usize>)
    ensures
        match r {
            Some(n) => parse_index(s@) == Some(n as int),
            None => parse_index(s@) is None,
        },
{
    let len = s.unicode_len();
    let start: usize = if len > 0 && s.get_char(0) == '+' {
        1
    } else {
        0
    };
    proof {
        assert(index_digits(s@) =~= s@.subrange(start as int, len as int));
    }
    let ghost d = s@.subrange(start as int, len as int);
    if len == start {
        return None;
    }
    let mut acc: usize = 0;
    let mut i: usize = start;
    while i < len
        invariant
            len == s@.len(),
            d == index_digits(s@),
            d == s@.subrange(start as int, len as int),
            start <= 1,
            start < len,
            start <= i <= len,
            forall|j: int| start <= j < i ==> is_digit(#[trigger] s@[j]),
            acc as int == digits_val(d.subrange(0, i - start)),
        decreases len - i,
    {
        let c = s.get_char(i);
        proof {
            assert(d[i - start] == s@[i as int]);
        }
        if c < '0' || c > '9' {
            return None;
        }
        let dv: usize = (c as u32 as usize) - ('0' as u32 as usize);
        proof {
            assert(d.subrange(0, i - start + 1).drop_last() =~= d.subrange(0, i - start));
            assert(d.subrange(0, i - start + 1).last() == d[i - start]);
        }
        if acc > usize::MAX / 10 || (acc == usize::MAX / 10 && dv > usize::MAX % 10) {
            proof {
                assert(digits_val(d.subrange(0, i - start + 1)) > usize::MAX as int);
                if all_digits(d) {
                    lemma_digits_val_mono(d, i - start + 1, d.len() as int);
                    assert(d.subrange(0, d.len() as int) =~= d);
                }
            }
            return None;
        }
        acc = acc * 10 + dv;
        i += 1;
    }
    proof {
        assert forall|k: int| 0 <= k < d.len() implies is_digit(#[trigger] d[k]) by {
            assert(d[k] == s@[k + start]);
        }
        assert(d.subrange(0, d.len() as int) =~= d);
    }
    Some(acc)
}

/// The single-character text of a digit value.
pub open spec fn digit_str(d: int) -> Seq<char> {
    if d == 0 {
        "0"@
    } else if d == 1 {
        "1"@
    } else if d == 2 {
        "2"@
    } else if d == 3 {
        "3"@
    } else if d == 4 {
        "4"@
    } else if d == 5 {
        "5"@
    } else if d == 6 {
        "6"@
    } else if d == 7 {
        "7"@
    } else if d == 8 {
        "8"@
    } else {
        "9"@
    }
}

/// The decimal text of a non-negative number.
pub open spec fn dec_str(n: int) -> Seq<char>
    decreases n,
{
    if n <= 9 {
        digit_str(n)
    } else {
        dec_str(n / 10) + digit_str(n % 10)
    }
}

proof fn lemma_digit_str_props(d: int)
    requires
        0 <= d <= 9,
    ensures
        digit_str(d).len() == 1,
        is_digit(digit_str(d)[0]),
        digit_val(digit_str(d)[0]) == d,
{
    reveal_strlit("0");
    reveal_strlit("1");
    reveal_strlit("2");
    reveal_strlit("3");
    reveal_strlit("4");
    reveal_strlit("5");
    reveal_strlit("6");
    reveal_strlit("7");
    reveal_strlit("8");
    reveal_strlit("9");
}

/// Decimal text is all digits and reads back as the number it names.
pub proof fn lemma_dec_str_digits(n: int)
    requires
        n >= 0,
    ensures
        dec_str(n).len() >= 1,
        all_digits(dec_str(n)),
        digits_val(dec_str(n)) == n,
    decreases n,
{
    if n <= 9 {
        lemma_digit_str_props(n);
        let s = dec_str(n);
        assert(s.drop_last() =~= Seq::<char>::empty());
        assert(digits_val(s) == digits_val(s.drop_last()) * 10 + digit_val(s.last()));
    } else {
        lemma_dec_str_digits(n / 10);
        lemma_digit_str_props(n % 10);
        let a = dec_str(n / 10);
        let b = digit_str(n % 10);
        let s = a + b;
        assert(s.drop_last() =~= a);
        assert(s.last() == b[0]);
        assert(digits_val(s) == digits_val(a) * 10 + digit_val(b[0]));
        assert(forall|i: int|
            0 <= i < s.len() ==> #[trigger] is_digit(s[i]) == if i < a.len() {
                is_digit(a[i])
            } else {
                is_digit(b[i - a.len()])
            });
    }
}

/// Render a digit as its one-character text.
pub fn digit_to_str(d: usize) -> (r: &'static str)
    requires
        d <= 9,
    ensures
        r@ == digit_str(d as int),
{
    if d == 0 {
        "0"
    } else if d == 1 {
        "1"
    } else if d == 2 {
        "2"
    } else if d == 3 {
        "3"
    } else if d == 4 {
        "4"
    } else if d == 5 {
        "5"
    } else if d == 6 {
        "6"
    } else if d == 7 {
        "7"
    } else if d == 8 {
        "8"
    } else {
        "9"
    }
}

/// Render a number as its decimal text.
pub fn usize_to_string(n: usize) -> (r: String)
    ensures
        r@ == dec_str(n as int),
    decreases n,
{
    if n <= 9 {
        String::from_str(digit_to_str(n))
    } else {
        let mut s = usize_to_string(n / 10);
        s.append(digit_to_str(n % 10));
        s
    }
}

} // verus!
