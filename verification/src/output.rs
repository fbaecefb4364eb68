//! The solver output surface: a single signed 64-bit integer printed in
//! canonical decimal on one line, together with the proof that re-parsing
//! such a line yields the integer back.

use vstd::prelude::*;

use crate::text::{
    digit_value, digits_value, is_digit, is_digit_string, is_space, spec_parse_i64,
    spec_parse_signed, spec_tokens, tokens_acc,
};

verus! {

/// The decimal digit character of a value below ten.
pub open spec fn digit_char(d: int) -> char {
    if d == 0 {
        '0'
    } else if d == 1 {
        '1'
    } else if d == 2 {
        '2'
    } else if d == 3 {
        '3'
    } else if d == 4 {
        '4'
    } else if d == 5 {
        '5'
    } else if d == 6 {
        '6'
    } else if d == 7 {
        '7'
    } else if d == 8 {
        '8'
    } else {
        '9'
    }
}

/// The canonical decimal digits of a non-negative value: no sign, no
/// leading zero except for the value zero itself.
pub open spec fn spec_udigits(n: nat) -> Seq<char>
    decreases n,
{
    if n < 10 {
        seq![digit_char(n as int)]
    } else {
        spec_udigits(n / 10).push(digit_char((n % 10) as int))
    }
}

/// The canonical decimal spelling of a signed value: a `'-'` before the
/// digits exactly when the value is negative.
pub open spec fn spec_decimal(v: int) -> Seq<char> {
    if v < 0 {
        seq!['-'] + spec_udigits((-v) as nat)
    } else {
        spec_udigits(v as nat)
    }
}

/// The canonical digits of `n` are a digit string whose value is `n`.
pub proof fn lemma_udigits_value(n: nat)
    ensures
        is_digit_string(spec_udigits(n)),
        digits_value(spec_udigits(n)) == n,
    decreases n,
{
    assert('0' as int == 48 && '1' as int == 49 && '2' as int == 50 && '3' as int == 51
        && '4' as int == 52 && '5' as int == 53 && '6' as int == 54 && '7' as int == 55
        && '8' as int == 56 && '9' as int == 57);
    if n < 10 {
        let s = spec_udigits(n);
        assert(s.drop_last() =~= Seq::<char>::empty());
        assert(s.last() == digit_char(n as int));
        assert(digits_value(s) == digits_value(s.drop_last()) * 10 + digit_value(s.last()));
        assert(digits_value(Seq::<char>::empty()) == 0);
        assert(digit_value(digit_char(n as int)) == n);
        assert(digits_value(s) == n);
    } else {
        lemma_udigits_value(n / 10);
        let s = spec_udigits(n);
        let prev = spec_udigits(n / 10);
        assert(s.drop_last() =~= prev);
        assert(digit_value(s.last()) == n % 10);
        vstd::arithmetic::div_mod::lemma_fundamental_div_mod(n as int, 10);
        assert(digits_value(s) == (n / 10) * 10 + n % 10);
        assert(forall|i: int| 0 <= i < s.len() ==> is_digit(s[i])) by {
            assert(forall|i: int| 0 <= i < prev.len() ==> is_digit(prev[i]));
            assert(forall|i: int| 0 <= i < prev.len() ==> s[i] == prev[i]);
        }
    }
}

/// Re-parsing the canonical decimal spelling of a signed 64-bit value
/// yields exactly that value.
pub proof fn lemma_decimal_roundtrip(v: i64)
    ensures
        spec_parse_i64(spec_decimal(v as int)) == Some(v as int),
{
    if v < 0 {
        let mag = (-(v as int)) as nat;
        lemma_udigits_value(mag);
        let s = spec_decimal(v as int);
        assert(s[0] == '-');
        assert(s.drop_first() =~= spec_udigits(mag));
    } else {
        lemma_udigits_value(v as nat);
        let s = spec_decimal(v as int);
        assert(s[0] != '-' && s[0] != '+') by {
            assert(is_digit(s[0]));
        }
        assert(spec_parse_signed(s) == Some(v as int));
    }
}

/// No character of a canonical decimal spelling is token whitespace.
pub proof fn lemma_decimal_no_space(v: int)
    ensures
        spec_decimal(v).len() > 0,
        forall|i: int| 0 <= i < spec_decimal(v).len() ==> !is_space(
            #[trigger] spec_decimal(v)[i],
        ),
{
    if v < 0 {
        lemma_udigits_value((-v) as nat);
        let s = spec_decimal(v);
        let ds = spec_udigits((-v) as nat);
        assert(forall|i: int| 1 <= i < s.len() ==> s[i] == ds[i - 1]);
        assert(forall|i: int| 0 <= i < ds.len() ==> is_digit(ds[i]));
    } else {
        lemma_udigits_value(v as nat);
    }
}

/// A run of non-whitespace characters followed by a single trailing line
/// feed tokenizes as exactly that one token.
pub proof fn lemma_single_token_line(t: Seq<char>)
    requires
        t.len() > 0,
        forall|i: int| 0 <= i < t.len() ==> !is_space(t[i]),
    ensures
        spec_tokens(t.push('\n')) == seq![t],
{
    lemma_token_run(t.push('\n'), t, 0);
    assert(t.take(0) =~= Seq::<char>::empty());
}

/// Scanning a token run: with `cur` holding the first `i` characters of a
/// whitespace-free token `t`, and the text continuing with the rest of `t`
/// and a line feed, accumulation yields exactly `t`.
proof fn lemma_token_run(s: Seq<char>, t: Seq<char>, i: int)
    requires
        0 <= i <= t.len(),
        t.len() > 0,
        forall|k: int| 0 <= k < t.len() ==> !is_space(t[k]),
        s =~= t.skip(i).push('\n'),
    ensures
        tokens_acc(s, t.take(i)) == seq![t],
    decreases t.len() - i,
{
    if i == t.len() {
        assert(s =~= seq!['\n']);
        assert(is_space(s[0]));
        assert(t.take(i) =~= t);
        assert(s.drop_first() =~= Seq::<char>::empty());
        assert(tokens_acc(s, t) == seq![t] + tokens_acc(Seq::empty(), Seq::empty()));
        assert(seq![t] + Seq::<Seq<char>>::empty() =~= seq![t]);
    } else {
        assert(s[0] == t[i]);
        assert(!is_space(s[0]));
        assert(s.drop_first() =~= t.skip(i + 1).push('\n'));
        assert(t.take(i).push(t[i]) =~= t.take(i + 1));
        lemma_token_run(s.drop_first(), t, i + 1);
    }
}

/// Returns `"0123456789"` sliced to the one digit character of `d`.
fn digit_str(d: u64) -> (r: &'static str)
    requires
        d < 10,
    ensures
        r@ =~= seq![digit_char(d as int)],
{
    let digits = "0123456789";
    proof {
        reveal_strlit("0123456789");
    }
    let r = digits.substring_char(d as usize, d as usize + 1);
    proof {
        assert(r@ =~= seq![digit_char(d as int)]);
    }
    r
}

/// Builds the canonical decimal digits of an unsigned value.
fn format_u64(n: u64) -> (r: String)
    ensures
        r@ == spec_udigits(n as nat),
    decreases n,
{
    if n < 10 {
        String::from_str(digit_str(n))
    } else {
        let high = format_u64(n / 10);
        high.concat(digit_str(n % 10))
    }
}

/// Renders `value` as one output line: its canonical decimal spelling
/// followed by a line feed. The text re-parses to `value`: its tokens are
/// the single decimal token, and that token parses back to `value`.
pub fn write_output(value: i64) -> (r: String)
    ensures
        r@ == spec_decimal(value as int) + seq!['\n'],
        spec_tokens(r@) == seq![spec_decimal(value as int)],
        spec_parse_i64(spec_decimal(value as int)) == Some(value as int),
{
    let mut out: String;
    if value < 0 {
        let mag: u64 = if value == i64::MIN {
            9223372036854775808u64
        } else {
            (-value) as u64
        };
        out = String::from_str("-");
        proof {
            reveal_strlit("-");
            assert(out@ =~= seq!['-']);
        }
        let digits = format_u64(mag);
        out.append(digits.as_str());
    } else {
        out = format_u64(value as u64);
    }
    proof {
        assert(out@ =~= spec_decimal(value as int));
    }
    out.append("\n");
    proof {
        reveal_strlit("\n");
        assert(out@ =~= spec_decimal(value as int) + seq!['\n']);
        lemma_decimal_no_space(value as int);
        assert(spec_decimal(value as int).push('\n') =~= spec_decimal(value as int)
            + seq!['\n']);
        lemma_single_token_line(spec_decimal(value as int));
        lemma_decimal_roundtrip(value);
    }
    out
}

} // verus!
