//! Verified text helpers: substring search, first-occurrence character
//! search, decimal rendering, and the quoted-field parse used for the
//! coordinator's job-status replies.

use vstd::prelude::*;

verus! {

/// The first index `i >= from` with `s[i] == c`, if any.
pub open spec fn find_char_from(s: Seq<char>, c: char, from: int) -> Option<int>
    decreases s.len() - from,
        when from <= s.len()
{
    if from < 0 || from >= s.len() {
        Option::None
    } else if s[from] == c {
        Option::Some(from)
    } else {
        find_char_from(s, c, from + 1)
    }
}

/// Whether `needle` occurs inside `hay` as a contiguous run.
pub open spec fn seq_contains_sub(hay: Seq<char>, needle: Seq<char>) -> bool {
    exists|i: int|
        0 <= i && i + needle.len() <= hay.len() && #[trigger] hay.subrange(i, i + needle.len())
            == needle
}

/// Whether `s` begins with `prefix`.
pub open spec fn seq_starts_with(s: Seq<char>, prefix: Seq<char>) -> bool {
    prefix.len() <= s.len() && s.subrange(0, prefix.len() as int) == prefix
}

/// Find the first occurrence of `c` in `s` at or after `from`.
pub fn find_char(s: &str, c: char, from: usize) -> (r: Option<usize>)
    requires
        from <= s@.len(),
    ensures
        match r {
            Option::Some(i) => find_char_from(s@, c, from as int) == Option::Some(i as int)
                && from <= i < s@.len(),
            Option::None => find_char_from(s@, c, from as int) is None,
        },
{
    let n = s.unicode_len();
    let mut i = from;
    while i < n
        invariant
            from <= i <= n,
            n == s@.len(),
            find_char_from(s@, c, from as int) == find_char_from(s@, c, i as int),
        decreases n - i,
    {
        if s.get_char(i) == c {
            return Option::Some(i);
        }
        i = i + 1;
    }
    Option::None
}

/// Whether `needle` occurs inside `hay` as a contiguous run.
pub fn contains_sub(hay: &str, needle: &str) -> (r: bool)
    ensures
        r == seq_contains_sub(hay@, needle@),
{
    let n = hay.unicode_len();
    let m = needle.unicode_len();
    if m > n {
        return false;
    }
    if m == 0 {
        proof {
            assert(hay@.subrange(0, 0 + needle@.len() as int) =~= needle@);
        }
        return true;
    }
    let mut i: usize = 0;
    while i <= n - m
        invariant
            0 <= i <= n - m + 1,
            1 <= m <= n,
            n == hay@.len(),
            m == needle@.len(),
            forall|k: int|
                0 <= k < i ==> #[trigger] hay@.subrange(k, k + needle@.len()) != needle@,
        decreases n - i,
    {
        let mut j: usize = 0;
        let mut matched = true;
        while j < m
            invariant
                0 <= j <= m,
                i + m <= n,
                n == hay@.len(),
                m == needle@.len(),
                matched ==> forall|k: int| 0 <= k < j ==> hay@[i + k] == needle@[k],
                !matched ==> hay@.subrange(i as int, i + needle@.len()) != needle@,
            decreases m - j,
        {
            if hay.get_char(i + j) != needle.get_char(j) {
                proof {
                    assert(hay@.subrange(i as int, i + needle@.len())[j as int] != needle@[j as int]);
                }
                matched = false;
                j = m;
            } else {
                j = j + 1;
            }
        }
        if matched {
            proof {
                assert(hay@.subrange(i as int, i + needle@.len()) =~= needle@);
            }
            return true;
        }
        i = i + 1;
    }
    proof {
        assert forall|k: int| 0 <= k && k + needle@.len() <= hay@.len() implies #[trigger] hay@
            .subrange(k, k + needle@.len()) != needle@ by {
            assert(k < i);
        }
    }
    false
}

/// Whether `s` begins with `prefix`.
pub fn starts_with(s: &str, prefix: &str) -> (r: bool)
    ensures
        r == seq_starts_with(s@, prefix@),
{
    let n = s.unicode_len();
    let m = prefix.unicode_len();
    if m > n {
        return false;
    }
    let mut j: usize = 0;
    while j < m
        invariant
            0 <= j <= m,
            m <= n,
            n == s@.len(),
            m == prefix@.len(),
            forall|k: int| 0 <= k < j ==> s@[k] == prefix@[k],
        decreases m - j,
    {
        if s.get_char(j) != prefix.get_char(j) {
            proof {
                assert(s@.subrange(0, prefix@.len() as int)[j as int] != prefix@[j as int]);
            }
            return false;
        }
        j = j + 1;
    }
    proof {
        assert(s@.subrange(0, prefix@.len() as int) =~= prefix@);
    }
    true
}

/// The decimal digit character for `d`; `0` through `9`.
pub open spec fn spec_digit_char(d: int) -> char {
    if d == 0 {
        '0'
    } else if d == 1 {
        '1'
    } else if d == 2 {
        '2'
    } else if d == 3 {
        '3'
    } else if d == 4 {
        '4'
    } else if d == 5 {
        '5'
    } else if d == 6 {
        '6'
    } else if d == 7 {
        '7'
    } else if d == 8 {
        '8'
    } else {
        '9'
    }
}

/// The decimal rendering of `n`, most significant digit first, no sign and
/// no leading zero except for `n == 0` itself.
pub open spec fn spec_u64_digits(n: int) -> Seq<char>
    decreases n,
        when n >= 0
{
    if n < 10 {
        seq![spec_digit_char(n)]
    } else {
        spec_u64_digits(n / 10).push(spec_digit_char(n % 10))
    }
}

/// A one-character string for the decimal digit `d`.
fn digit_str(d: u64) -> (r: &'static str)
    requires
        d < 10,
    ensures
        r@ == seq![spec_digit_char(d as int)],
{
    proof {
        reveal_strlit("0");
        reveal_strlit("1");
        reveal_strlit("2");
        reveal_strlit("3");
        reveal_strlit("4");
        reveal_strlit("5");
        reveal_strlit("6");
        reveal_strlit("7");
        reveal_strlit("8");
        reveal_strlit("9");
    }
    let r = if d == 0 {
        "0"
    } else if d == 1 {
        "1"
    } else if d == 2 {
        "2"
    } else if d == 3 {
        "3"
    } else if d == 4 {
        "4"
    } else if d == 5 {
        "5"
    } else if d == 6 {
        "6"
    } else if d == 7 {
        "7"
    } else if d == 8 {
        "8"
    } else {
        "9"
    };
    proof {
        assert(r@ =~= seq![spec_digit_char(d as int)]);
    }
    r
}

/// Render `n` in decimal.
pub fn u64_to_string(n: u64) -> (r: String)
    ensures
        r@ == spec_u64_digits(n as int),
    decreases n,
{
    if n < 10 {
        digit_str(n).to_owned()
    } else {
        let high = u64_to_string(n / 10);
        let low = digit_str(n % 10);
        let r = high.concat(low);
        proof {
            assert(r@ =~= spec_u64_digits(n as int));
        }
        r
    }
}

/// The decimal rendering of `n` left-padded with zeros to at least five
/// characters, as frame files are named.
pub open spec fn spec_padded5(n: int) -> Seq<char> {
    if n < 10 {
        seq!['0', '0', '0', '0'] + spec_u64_digits(n)
    } else if n < 100 {
        seq!['0', '0', '0'] + spec_u64_digits(n)
    } else if n < 1000 {
        seq!['0', '0'] + spec_u64_digits(n)
    } else if n < 10000 {
        seq!['0'] + spec_u64_digits(n)
    } else {
        spec_u64_digits(n)
    }
}

/// Render `n` in decimal, zero-padded to at least five characters.
pub fn u64_to_padded5(n: u64) -> (r: String)
    ensures
        r@ == spec_padded5(n as int),
{
    proof {
        reveal_strlit("0000");
        reveal_strlit("000");
        reveal_strlit("00");
        reveal_strlit("0");
        reveal_strlit("");
    }
    let prefix: &str = if n < 10 {
        "0000"
    } else if n < 100 {
        "000"
    } else if n < 1000 {
        "00"
    } else if n < 10000 {
        "0"
    } else {
        ""
    };
    let digits = u64_to_string(n);
    let r = prefix.to_owned().concat(digits.as_str());
    proof {
        assert(r@ =~= spec_padded5(n as int));
    }
    r
}

/// The status token inside a coordinator job-status reply.  The reply looks
/// like `{'Job': 'Queued'}`; the token is the text between the third and the
/// fourth single quote.  `None` when the reply does not hold four quotes.
pub open spec fn spec_status_token(s: Seq<char>) -> Option<Seq<char>> {
    match find_char_from(s, '\'', 0) {
        Option::None => Option::None,
        Option::Some(q1) => match find_char_from(s, '\'', q1 + 1) {
            Option::None => Option::None,
            Option::Some(q2) => match find_char_from(s, '\'', q2 + 1) {
                Option::None => Option::None,
                Option::Some(q3) => match find_char_from(s, '\'', q3 + 1) {
                    Option::None => Option::None,
                    Option::Some(q4) => Option::Some(s.subrange(q3 + 1, q4)),
                },
            },
        },
    }
}

/// Parse the status token out of a coordinator job-status reply.
pub fn status_token(s: &str) -> (r: Option<String>)
    ensures
        match r {
            Option::Some(t) => spec_status_token(s@) == Option::Some(t@),
            Option::None => spec_status_token(s@) is None,
        },
{
    let n = s.unicode_len();
    let q1 = match find_char(s, '\'', 0) {
        Option::Some(i) => i,
        Option::None => {
            return Option::None;
        },
    };
    let q2 = match find_char(s, '\'', q1 + 1) {
        Option::Some(i) => i,
        Option::None => {
            return Option::None;
        },
    };
    let q3 = match find_char(s, '\'', q2 + 1) {
        Option::Some(i) => i,
        Option::None => {
            return Option::None;
        },
    };
    let q4 = match find_char(s, '\'', q3 + 1) {
        Option::Some(i) => i,
        Option::None => {
            return Option::None;
        },
    };
    let token = s.substring_char(q3 + 1, q4);
    Option::Some(token.to_owned())
}

} // verus!
