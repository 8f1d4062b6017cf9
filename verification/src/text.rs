//! Small string-building helpers shared by the library.

use vstd::prelude::*;

verus! {

/// Relies on `String::push` of std: it appends the given character to the
/// end of the string, and does nothing else.
#[verifier::external_body]
pub(crate) fn push_char(s: &mut String, c: char)
    ensures
        final(s)@ == old(s)@.push(c),
{
    s.push(c)
}

/// The ASCII-lowercase counterpart of `c`: letters `A` to `Z` shifted to
/// `a` to `z`, every other character unchanged.
pub open spec fn spec_lower_char(c: char) -> char {
    if 65 <= c as u32 && c as u32 <= 90 {
        ((c as u32) + 32) as char
    } else {
        c
    }
}

/// Lowers one character as ASCII does.
pub fn lower_char(c: char) -> (r: char)
    ensures
        r == spec_lower_char(c),
{
    let u = c as u32;
    if 65 <= u && u <= 90 {
        ((u + 32) as u8) as char
    } else {
        c
    }
}

/// The ASCII-lowercase counterpart of a string: each character lowered
/// independently.
pub open spec fn spec_ascii_lower(s: Seq<char>) -> Seq<char> {
    s.map_values(|c: char| spec_lower_char(c))
}

/// Lowers a string as ASCII does, character by character.
pub fn ascii_lowercase(s: &str) -> (r: String)
    ensures
        r@ == spec_ascii_lower(s@),
{
    let n = s.unicode_len();
    let mut r = String::new();
    let mut i: usize = 0;
    proof {
        assert(r@ =~= spec_ascii_lower(s@.take(0)));
    }
    while i < n
        invariant
            i <= n,
            n == s@.len(),
            r@ == spec_ascii_lower(s@.take(i as int)),
        decreases n - i,
    {
        push_char(&mut r, lower_char(s.get_char(i)));
        proof {
            assert(s@.take(i + 1).drop_last() =~= s@.take(i as int));
            assert(r@ =~= spec_ascii_lower(s@.take(i + 1)));
        }
        i = i + 1;
    }
    proof {
        assert(s@.take(n as int) =~= s@);
    }
    r
}

/// Whether `c` is an ASCII digit.
pub open spec fn spec_is_digit(c: char) -> bool {
    48 <= c as u32 && c as u32 <= 57
}

/// The value of the ASCII digit `c`.
pub open spec fn spec_digit_val(c: char) -> int {
    c as u32 - 48
}

/// Whether every character of `s` is an ASCII digit.
pub open spec fn spec_all_digits(s: Seq<char>) -> bool {
    forall|i: int| 0 <= i < s.len() ==> spec_is_digit(#[trigger] s[i])
}

/// The number that a run of ASCII digits denotes, most significant first.
pub open spec fn spec_digits_value(s: Seq<char>) -> int
    decreases s.len(),
{
    if s.len() == 0 {
        0
    } else {
        spec_digits_value(s.drop_last()) * 10 + spec_digit_val(s.last())
    }
}

/// The signed 64-bit integer that `s` denotes: an optional `+` or `-`
/// sign, then at least one ASCII digit and nothing else, with the value in
/// range — exactly the strings the standard integer parse accepts.
pub open spec fn spec_parse_i64(s: Seq<char>) -> Option<i64> {
    let neg = s.len() > 0 && s[0] == '-';
    let digits = if s.len() > 0 && (s[0] == '-' || s[0] == '+') {
        s.drop_first()
    } else {
        s
    };
    if digits.len() > 0 && spec_all_digits(digits) {
        let v = spec_digits_value(digits);
        if neg {
            if -v >= i64::MIN {
                Option::Some((-v) as i64)
            } else {
                Option::None
            }
        } else {
            if v <= i64::MAX {
                Option::Some(v as i64)
            } else {
                Option::None
            }
        }
    } else {
        Option::None
    }
}

proof fn lemma_digits_value_nonneg(s: Seq<char>)
    requires
        spec_all_digits(s),
    ensures
        spec_digits_value(s) >= 0,
    decreases s.len(),
{
    if s.len() != 0 {
        assert forall|i: int| 0 <= i < s.drop_last().len() implies spec_is_digit(
            #[trigger] s.drop_last()[i],
        ) by {
            assert(s.drop_last()[i] == s[i]);
        }
        lemma_digits_value_nonneg(s.drop_last());
    }
}

proof fn lemma_digits_value_monotone(s: Seq<char>, j: int)
    requires
        0 <= j <= s.len(),
        spec_all_digits(s),
    ensures
        spec_digits_value(s) >= spec_digits_value(s.take(j)),
    decreases s.len() - j,
{
    if j < s.len() {
        assert forall|i: int| 0 <= i < s.take(j).len() implies spec_is_digit(
            #[trigger] s.take(j)[i],
        ) by {
            assert(s.take(j)[i] == s[i]);
        }
        lemma_digits_value_nonneg(s.take(j));
        assert(s.take(j + 1).drop_last() =~= s.take(j));
        assert(spec_digits_value(s.take(j + 1)) == spec_digits_value(s.take(j)) * 10
            + spec_digit_val(s[j]));
        lemma_digits_value_monotone(s, j + 1);
    } else {
        assert(s.take(j) =~= s);
    }
}

/// Parses a signed 64-bit integer exactly as the standard parse does: an
/// optional sign, then at least one ASCII digit and nothing else, the
/// value in range; anything else yields nothing.
pub fn parse_i64(s: &str) -> (r: Option<i64>)
    ensures
        r == spec_parse_i64(s@),
{
    let n = s.unicode_len();
    if n == 0 {
        return Option::None;
    }
    let first = s.get_char(0);
    let neg = first == '-';
    let start: usize = if first == '-' || first == '+' {
        1
    } else {
        0
    };
    let ghost digits = if first == '-' || first == '+' {
        s@.drop_first()
    } else {
        s@
    };
    proof {
        if start == 1 {
            assert(digits =~= s@.skip(1));
        } else {
            assert(digits =~= s@.skip(0));
        }
    }
    if start >= n {
        return Option::None;
    }
    // The largest magnitude that still fits: 2^63 for a negative value,
    // 2^63 - 1 for a positive one; both have 922337203685477580 as their
    // first 18 digits.
    let limit_div10: u64 = 922337203685477580;
    let limit_mod10: u64 = if neg {
        8
    } else {
        7
    };
    let ghost limit: int = limit_div10 * 10 + limit_mod10;
    let mut acc: u64 = 0;
    let mut i: usize = start;
    proof {
        assert(digits.take(0) =~= Seq::<char>::empty());
    }
    while i < n
        invariant
            start <= i <= n,
            n == s@.len(),
            start < n,
            1 <= start <==> (s@[0] == '-' || s@[0] == '+'),
            start <= 1,
            neg == (s@[0] == '-'),
            digits == s@.skip(start as int),
            digits.len() == n - start,
            limit == limit_div10 * 10 + limit_mod10,
            limit_div10 == 922337203685477580,
            limit_mod10 == (if neg {
                8int
            } else {
                7int
            }),
            spec_all_digits(digits.take(i - start)),
            acc == spec_digits_value(digits.take(i - start)),
            acc <= limit,
        decreases n - i,
    {
        let c = s.get_char(i);
        let u = c as u32;
        proof {
            assert(digits[i - start] == s@[i as int]);
        }
        if !(48 <= u && u <= 57) {
            proof {
                if start == 1 {
                    assert(digits =~= s@.drop_first());
                } else {
                    assert(digits =~= s@);
                }
                assert(!spec_all_digits(digits)) by {
                    assert(!spec_is_digit(digits[i - start]));
                }
            }
            return Option::None;
        }
        let d = (u - 48) as u64;
        if acc > limit_div10 || (acc == limit_div10 && d > limit_mod10) {
            proof {
                if start == 1 {
                    assert(digits =~= s@.drop_first());
                } else {
                    assert(digits =~= s@);
                }
                assert(digits.take(i - start + 1).drop_last() =~= digits.take(i - start));
                assert(digits.take(i - start + 1).last() == digits[i - start]);
                assert(spec_digits_value(digits.take(i - start + 1)) == acc * 10 + d);
                assert(spec_digits_value(digits.take(i - start + 1)) > limit);
                if spec_all_digits(digits) {
                    lemma_digits_value_monotone(digits, i - start + 1);
                    assert(spec_digits_value(digits) > limit);
                }
            }
            return Option::None;
        }
        proof {
            assert(digits.take(i - start + 1).drop_last() =~= digits.take(i - start));
            assert(digits.take(i - start + 1).last() == digits[i - start]);
            assert forall|k: int| 0 <= k < i - start + 1 implies spec_is_digit(
                #[trigger] digits.take(i - start + 1)[k],
            ) by {
                if k < i - start {
                    assert(digits.take(i - start + 1)[k] == digits.take(i - start)[k]);
                }
            }
        }
        acc = acc * 10 + d;
        i = i + 1;
    }
    proof {
        assert(digits.take(n - start) =~= digits);
    }
    if neg {
        if acc == 9223372036854775808u64 {
            Option::Some(i64::MIN)
        } else {
            Option::Some(-(acc as i64))
        }
    } else {
        Option::Some(acc as i64)
    }
}

/// The split of `s` at the first occurrence of `sep`: the characters
/// before it and the characters after it, or nothing when `s` does not
/// hold `sep`.
pub open spec fn spec_split_once(s: Seq<char>, sep: char) -> Option<(Seq<char>, Seq<char>)>
    decreases s.len(),
{
    if s.len() == 0 {
        Option::None
    } else if s[0] == sep {
        Option::Some((Seq::<char>::empty(), s.drop_first()))
    } else {
        match spec_split_once(s.drop_first(), sep) {
            Option::Some(parts) => Option::Some((seq![s[0]] + parts.0, parts.1)),
            Option::None => Option::None,
        }
    }
}

proof fn lemma_split_once_found(s: Seq<char>, sep: char, k: int)
    requires
        0 <= k < s.len(),
        s[k] == sep,
        forall|j: int| 0 <= j < k ==> s[j] != sep,
    ensures
        spec_split_once(s, sep) == Option::Some((s.take(k), s.skip(k + 1))),
    decreases k,
{
    if k == 0 {
        assert(s.take(0) =~= Seq::<char>::empty());
        assert(s.skip(1) =~= s.drop_first());
    } else {
        assert(s.drop_first()[k - 1] == s[k]);
        assert forall|j: int| 0 <= j < k - 1 implies s.drop_first()[j] != sep by {
            assert(s.drop_first()[j] == s[j + 1]);
        }
        lemma_split_once_found(s.drop_first(), sep, k - 1);
        assert(seq![s[0]] + s.drop_first().take(k - 1) =~= s.take(k));
        assert(s.drop_first().skip(k) =~= s.skip(k + 1));
    }
}

proof fn lemma_split_once_absent(s: Seq<char>, sep: char)
    requires
        forall|j: int| 0 <= j < s.len() ==> s[j] != sep,
    ensures
        spec_split_once(s, sep) is None,
    decreases s.len(),
{
    if s.len() != 0 {
        assert forall|j: int| 0 <= j < s.drop_first().len() implies s.drop_first()[j] != sep by {
            assert(s.drop_first()[j] == s[j + 1]);
        }
        lemma_split_once_absent(s.drop_first(), sep);
    }
}

/// Splits `s` at the first occurrence of `sep` into the parts before and
/// after it, or returns nothing when `sep` does not occur.
pub fn split_once_char(s: &str, sep: char) -> (r: Option<(String, String)>)
    ensures
        match r {
            Option::Some(parts) => spec_split_once(s@, sep) == Option::Some(
                (parts.0@, parts.1@),
            ),
            Option::None => spec_split_once(s@, sep) is None,
        },
{
    let n = s.unicode_len();
    let mut i: usize = 0;
    while i < n
        invariant
            i <= n,
            n == s@.len(),
            forall|j: int| 0 <= j < i ==> s@[j] != sep,
        decreases n - i,
    {
        if s.get_char(i) == sep {
            let before = s.substring_char(0, i);
            let after = s.substring_char(i + 1, n);
            proof {
                lemma_split_once_found(s@, sep, i as int);
                assert(s@.subrange(0, i as int) =~= s@.take(i as int));
                assert(s@.subrange(i + 1, n as int) =~= s@.skip(i + 1));
            }
            return Option::Some((String::from_str(before), String::from_str(after)));
        }
        i = i + 1;
    }
    proof {
        lemma_split_once_absent(s@, sep);
    }
    Option::None
}

} // verus!
