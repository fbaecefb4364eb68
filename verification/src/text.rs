//! The token grammar of the input protocol.
//!
//! An input is a sequence of lines separated by line feeds; each line is a
//! sequence of tokens, the maximal runs of non-whitespace characters.
//! Integer tokens follow the usual decimal grammar: an optional sign
//! followed by at least one digit, rejected when the value does not fit the
//! target type.

use vstd::prelude::*;

verus! {

/// The characters treated as whitespace between tokens: ASCII space,
/// horizontal tab, line feed, carriage return and form feed.
pub open spec fn is_space(c: char) -> bool {
    c == ' ' || c == '\t' || c == '\n' || c == '\r' || c == '\x0C'
}

/// Decimal digit characters `'0'` through `'9'`.
pub open spec fn is_digit(c: char) -> bool {
    48 <= c as int && c as int <= 57
}

/// The numeric value of a decimal digit character.
pub open spec fn digit_value(c: char) -> int {
    c as int - 48
}

/// A non-empty sequence consisting of decimal digits only.
pub open spec fn is_digit_string(s: Seq<char>) -> bool {
    s.len() > 0 && (forall|i: int| 0 <= i < s.len() ==> is_digit(s[i]))
}

/// The value of a sequence of decimal digits, most significant first.
pub open spec fn digits_value(s: Seq<char>) -> int
    decreases s.len(),
{
    if s.len() == 0 {
        0
    } else {
        digits_value(s.drop_last()) * 10 + digit_value(s.last())
    }
}

/// The lines of `s`: the runs of characters separated by `'\n'`, the
/// separators consumed. A final line feed closes the last line rather than
/// opening an empty one. `cur` carries the line under construction.
pub open spec fn lines_acc(s: Seq<char>, cur: Seq<char>) -> Seq<Seq<char>>
    decreases s.len(),
{
    if s.len() == 0 {
        if cur.len() == 0 {
            Seq::empty()
        } else {
            seq![cur]
        }
    } else if s[0] == '\n' {
        seq![cur] + lines_acc(s.drop_first(), Seq::empty())
    } else {
        lines_acc(s.drop_first(), cur.push(s[0]))
    }
}

/// The lines of a whole text.
pub open spec fn spec_lines(s: Seq<char>) -> Seq<Seq<char>> {
    lines_acc(s, Seq::empty())
}

/// The tokens of `s`: the maximal runs of non-whitespace characters, in
/// order. `cur` carries the token under construction.
pub open spec fn tokens_acc(s: Seq<char>, cur: Seq<char>) -> Seq<Seq<char>>
    decreases s.len(),
{
    if s.len() == 0 {
        if cur.len() == 0 {
            Seq::empty()
        } else {
            seq![cur]
        }
    } else if is_space(s[0]) {
        if cur.len() == 0 {
            tokens_acc(s.drop_first(), Seq::empty())
        } else {
            seq![cur] + tokens_acc(s.drop_first(), Seq::empty())
        }
    } else {
        tokens_acc(s.drop_first(), cur.push(s[0]))
    }
}

/// The tokens of a whole text or line.
pub open spec fn spec_tokens(s: Seq<char>) -> Seq<Seq<char>> {
    tokens_acc(s, Seq::empty())
}

/// The mathematical value named by an unsigned decimal token: an optional
/// `'+'` followed by at least one digit; anything else is rejected.
pub open spec fn spec_parse_unsigned(s: Seq<char>) -> Option<int> {
    let ds = if s.len() > 0 && s[0] == '+' {
        s.drop_first()
    } else {
        s
    };
    if is_digit_string(ds) {
        Some(digits_value(ds))
    } else {
        None
    }
}

/// The mathematical value named by a signed decimal token: an optional
/// `'+'` or `'-'` followed by at least one digit; anything else is rejected.
pub open spec fn spec_parse_signed(s: Seq<char>) -> Option<int> {
    if s.len() > 0 && s[0] == '-' {
        if is_digit_string(s.drop_first()) {
            Some(-digits_value(s.drop_first()))
        } else {
            None
        }
    } else {
        spec_parse_unsigned(s)
    }
}

/// A signed decimal token as an `i64`: the signed grammar, rejected when the
/// value does not fit.
pub open spec fn spec_parse_i64(s: Seq<char>) -> Option<int> {
    match spec_parse_signed(s) {
        Some(v) => if i64::MIN <= v <= i64::MAX {
            Some(v)
        } else {
            None
        },
        None => None,
    }
}

/// An unsigned decimal token as a `usize`: the unsigned grammar, rejected
/// when the value does not fit.
pub open spec fn spec_parse_usize(s: Seq<char>) -> Option<int> {
    match spec_parse_unsigned(s) {
        Some(v) => if v <= usize::MAX {
            Some(v)
        } else {
            None
        },
        None => None,
    }
}

/// The value of a digit string is never negative.
pub proof fn lemma_digits_value_nonneg(s: Seq<char>)
    requires
        forall|i: int| 0 <= i < s.len() ==> is_digit(s[i]),
    ensures
        digits_value(s) >= 0,
    decreases s.len(),
{
    if s.len() > 0 {
        assert(forall|i: int|
            0 <= i < s.drop_last().len() ==> is_digit(#[trigger] s.drop_last()[i]));
        lemma_digits_value_nonneg(s.drop_last());
    }
}

/// Appending digits never lowers the value: every digit prefix of a digit
/// string values at most the whole string.
pub proof fn lemma_digits_prefix_le(s: Seq<char>, n: int)
    requires
        forall|i: int| 0 <= i < s.len() ==> is_digit(s[i]),
        0 <= n <= s.len(),
    ensures
        digits_value(s.take(n)) <= digits_value(s),
    decreases s.len(),
{
    if n == s.len() {
        assert(s.take(n) =~= s);
    } else {
        assert(forall|i: int|
            0 <= i < s.drop_last().len() ==> is_digit(#[trigger] s.drop_last()[i]));
        lemma_digits_value_nonneg(s.drop_last());
        lemma_digits_prefix_le(s.drop_last(), n);
        assert(s.take(n) =~= s.drop_last().take(n));
        assert(digits_value(s) == digits_value(s.drop_last()) * 10 + digit_value(s.last()));
        assert(digits_value(s.drop_last()) * 10 >= digits_value(s.drop_last()));
    }
}

/// Splits a text into its lines, line feeds consumed.
pub fn split_lines(s: &str) -> (r: Vec<String>)
    ensures
        r.deep_view() == spec_lines(s@),
{
    let len = s.unicode_len();
    let mut out: Vec<String> = Vec::new();
    let mut st: usize = 0;
    let mut i: usize = 0;
    proof {
        assert(out.deep_view() =~= Seq::<Seq<char>>::empty());
        assert(s@.skip(0) =~= s@);
        assert(s@.subrange(0, 0) =~= Seq::<char>::empty());
    }
    while i < len
        invariant
            len == s@.len(),
            0 <= st <= i <= len,
            out.deep_view() + lines_acc(s@.skip(i as int), s@.subrange(st as int, i as int))
                =~= spec_lines(s@),
        decreases len - i,
    {
        let c = s.get_char(i);
        if c == '\n' {
            let line = String::from_str(s.substring_char(st, i));
            proof {
                assert(s@.skip(i as int).drop_first() =~= s@.skip(i as int + 1));
                assert(lines_acc(s@.skip(i as int), s@.subrange(st as int, i as int))
                    == seq![s@.subrange(st as int, i as int)]
                    + lines_acc(s@.skip(i as int + 1), Seq::empty()));
            }
            out.push(line);
            proof {
                assert(s@.subrange(i as int + 1, i as int + 1) =~= Seq::<char>::empty());
                assert(out.deep_view() + lines_acc(
                    s@.skip(i as int + 1),
                    s@.subrange(i as int + 1, i as int + 1),
                ) =~= spec_lines(s@));
            }
            st = i + 1;
        } else {
            proof {
                assert(s@.skip(i as int).drop_first() =~= s@.skip(i as int + 1));
                assert(s@.subrange(st as int, i as int).push(s@[i as int])
                    =~= s@.subrange(st as int, i as int + 1));
                assert(lines_acc(s@.skip(i as int), s@.subrange(st as int, i as int))
                    == lines_acc(s@.skip(i as int + 1), s@.subrange(st as int, i as int + 1)));
            }
        }
        i = i + 1;
    }
    if st < len {
        let line = String::from_str(s.substring_char(st, len));
        proof {
            assert(s@.skip(len as int) =~= Seq::<char>::empty());
            assert(s@.subrange(st as int, len as int).len() > 0);
        }
        out.push(line);
    }
    proof {
        assert(s@.skip(len as int) =~= Seq::<char>::empty());
        assert(out.deep_view() =~= spec_lines(s@));
    }
    out
}

/// Tests whether a character is token whitespace.
fn is_space_char(c: char) -> (r: bool)
    ensures
        r == is_space(c),
{
    c == ' ' || c == '\t' || c == '\n' || c == '\r' || c == '\x0C'
}

/// Splits a text into its whitespace-separated tokens.
pub fn split_tokens(s: &str) -> (r: Vec<String>)
    ensures
        r.deep_view() == spec_tokens(s@),
{
    let len = s.unicode_len();
    let mut out: Vec<String> = Vec::new();
    let mut st: usize = 0;
    let mut i: usize = 0;
    proof {
        assert(out.deep_view() =~= Seq::<Seq<char>>::empty());
        assert(s@.skip(0) =~= s@);
        assert(s@.subrange(0, 0) =~= Seq::<char>::empty());
    }
    while i < len
        invariant
            len == s@.len(),
            0 <= st <= i <= len,
            out.deep_view() + tokens_acc(s@.skip(i as int), s@.subrange(st as int, i as int))
                =~= spec_tokens(s@),
        decreases len - i,
    {
        let c = s.get_char(i);
        if is_space_char(c) {
            proof {
                assert(s@.skip(i as int).drop_first() =~= s@.skip(i as int + 1));
            }
            if st < i {
                let token = String::from_str(s.substring_char(st, i));
                proof {
                    assert(tokens_acc(s@.skip(i as int), s@.subrange(st as int, i as int))
                        == seq![s@.subrange(st as int, i as int)]
                        + tokens_acc(s@.skip(i as int + 1), Seq::empty()));
                }
                out.push(token);
            } else {
                proof {
                    assert(s@.subrange(st as int, i as int).len() == 0);
                }
            }
            proof {
                assert(s@.subrange(i as int + 1, i as int + 1) =~= Seq::<char>::empty());
                assert(out.deep_view() + tokens_acc(
                    s@.skip(i as int + 1),
                    s@.subrange(i as int + 1, i as int + 1),
                ) =~= spec_tokens(s@));
            }
            st = i + 1;
        } else {
            proof {
                assert(s@.skip(i as int).drop_first() =~= s@.skip(i as int + 1));
                assert(s@.subrange(st as int, i as int).push(s@[i as int])
                    =~= s@.subrange(st as int, i as int + 1));
                assert(tokens_acc(s@.skip(i as int), s@.subrange(st as int, i as int))
                    == tokens_acc(s@.skip(i as int + 1), s@.subrange(st as int, i as int + 1)));
            }
        }
        i = i + 1;
    }
    if st < len {
        let token = String::from_str(s.substring_char(st, len));
        proof {
            assert(s@.skip(len as int) =~= Seq::<char>::empty());
            assert(s@.subrange(st as int, len as int).len() > 0);
        }
        out.push(token);
    }
    proof {
        assert(s@.skip(len as int) =~= Seq::<char>::empty());
        assert(out.deep_view() =~= spec_tokens(s@));
    }
    out
}

/// Reads the run of digits of `s` from position `from` to the end,
/// accumulating their value as long as it stays within `limit`.
fn parse_digits_limited(s: &str, from: usize, limit: u64) -> (r: Option<u64>)
    requires
        from <= s@.len(),
    ensures
        match r {
            Some(v) => is_digit_string(s@.skip(from as int)) && digits_value(
                s@.skip(from as int),
            ) == v as int && v <= limit,
            None => !is_digit_string(s@.skip(from as int)) || digits_value(s@.skip(from as int))
                > limit,
        },
{
    let len = s.unicode_len();
    if from == len {
        return None;
    }
    let mut acc: u64 = 0;
    let mut i: usize = from;
    while i < len
        invariant
            len == s@.len(),
            from <= i <= len,
            forall|k: int| from <= k < i ==> is_digit(s@[k]),
            acc as int == digits_value(s@.subrange(from as int, i as int)),
            acc <= limit,
        decreases len - i,
    {
        let c = s.get_char(i);
        let code = c as u32;
        if !(48 <= code && code <= 57) {
            proof {
                assert(!is_digit(s@[i as int]));
                assert(s@.skip(from as int)[i as int - from as int] == s@[i as int]);
            }
            return None;
        }
        let d: u64 = (code - 48) as u64;
        proof {
            assert(s@.subrange(from as int, i as int + 1).drop_last()
                =~= s@.subrange(from as int, i as int));
            assert(digits_value(s@.subrange(from as int, i as int + 1))
                == acc as int * 10 + d as int);
        }
        if acc > limit / 10 || (acc == limit / 10 && d > limit % 10) {
            proof {
                assert(limit as int == (limit / 10) as int * 10 + (limit % 10) as int);
                assert(acc as int * 10 + d as int > limit as int);
                if is_digit_string(s@.skip(from as int)) {
                    lemma_digits_prefix_le(s@.skip(from as int), i as int + 1 - from as int);
                    assert(s@.skip(from as int).take(i as int + 1 - from as int)
                        =~= s@.subrange(from as int, i as int + 1));
                }
            }
            return None;
        }
        acc = acc * 10 + d;
        i = i + 1;
    }
    proof {
        assert(s@.skip(from as int) =~= s@.subrange(from as int, len as int));
    }
    Some(acc)
}

/// Parses a whole token as a signed 64-bit integer: `Some` exactly on the
/// tokens that the signed decimal grammar admits with a value that fits.
pub fn parse_i64(s: &str) -> (r: Option<i64>)
    ensures
        match r {
            Some(v) => spec_parse_i64(s@) == Some(v as int),
            None => spec_parse_i64(s@) is None,
        },
{
    let len = s.unicode_len();
    if len == 0 {
        return None;
    }
    let c0 = s.get_char(0);
    let neg = c0 == '-';
    let start: usize = if c0 == '-' || c0 == '+' {
        1
    } else {
        0
    };
    let limit: u64 = if neg {
        9223372036854775808u64
    } else {
        9223372036854775807u64
    };
    proof {
        if start == 1 {
            assert(s@.drop_first() =~= s@.skip(1));
        } else {
            assert(s@.skip(0) =~= s@);
        }
    }
    match parse_digits_limited(s, start, limit) {
        None => {
            proof {
                let ds = s@.skip(start as int);
                if is_digit_string(ds) {
                    lemma_digits_value_nonneg(ds);
                }
            }
            None
        },
        Some(mag) => {
            proof {
                lemma_digits_value_nonneg(s@.skip(start as int));
            }
            if neg {
                if mag == 9223372036854775808u64 {
                    Some(i64::MIN)
                } else {
                    Some(-(mag as i64))
                }
            } else {
                Some(mag as i64)
            }
        },
    }
}

/// Parses a whole token as a `usize`: `Some` exactly on the tokens that the
/// unsigned decimal grammar admits with a value that fits.
pub fn parse_usize(s: &str) -> (r: Option<usize>)
    ensures
        match r {
            Some(v) => spec_parse_usize(s@) == Some(v as int),
            None => spec_parse_usize(s@) is None,
        },
{
    let len = s.unicode_len();
    if len == 0 {
        return None;
    }
    let c0 = s.get_char(0);
    let start: usize = if c0 == '+' {
        1
    } else {
        0
    };
    let limit: u64 = usize::MAX as u64;
    proof {
        if start == 1 {
            assert(s@.drop_first() =~= s@.skip(1));
        } else {
            assert(s@.skip(0) =~= s@);
        }
    }
    match parse_digits_limited(s, start, limit) {
        None => None,
        Some(mag) => {
            proof {
                lemma_digits_value_nonneg(s@.skip(start as int));
            }
            Some(mag as usize)
        },
    }
}

} // verus!
