//! The structured input reader: a forward-only cursor over the lines of a
//! text, decoding each line into typed values with strict shape checks.

use vstd::prelude::*;

use crate::errors::InputError;
use crate::text::{
    spec_lines, spec_parse_i64, spec_parse_usize, spec_tokens, split_lines, split_tokens,
    parse_i64, parse_usize,
};

verus! {

/// The count declared by a line: the line must hold exactly one token, and
/// that token must be an unsigned decimal that fits a `usize`.
pub open spec fn spec_parse_count(line: Seq<char>) -> Option<int> {
    let ts = spec_tokens(line);
    if ts.len() == 1 {
        spec_parse_usize(ts[0])
    } else {
        None
    }
}

/// The values declared by a line: every token must be a signed decimal that
/// fits an `i64`; the values come in token order.
pub open spec fn spec_parse_values(tokens: Seq<Seq<char>>) -> Option<Seq<int>> {
    if forall|i: int| 0 <= i < tokens.len() ==> (#[trigger] spec_parse_i64(tokens[i])) is Some {
        Some(Seq::new(tokens.len(), |i: int| spec_parse_i64(tokens[i]).unwrap()))
    } else {
        None
    }
}

/// What loading a full solver input from a text yields: the first line
/// declares a count, the second line carries exactly that many signed
/// 64-bit integers.
pub open spec fn spec_load_input(text: Seq<char>) -> Result<Seq<int>, InputError> {
    let ls = spec_lines(text);
    if ls.len() == 0 {
        Err(InputError::UnexpectedEndOfInput)
    } else {
        match spec_parse_count(ls[0]) {
            None => Err(InputError::ParseError),
            Some(n) => if ls.len() < 2 {
                Err(InputError::UnexpectedEndOfInput)
            } else {
                match spec_parse_values(spec_tokens(ls[1])) {
                    None => Err(InputError::ParseError),
                    Some(vs) => if vs.len() != n {
                        Err(
                            InputError::CountMismatch {
                                expected: n as usize,
                                actual: vs.len() as usize,
                            },
                        )
                    } else {
                        Ok(vs)
                    },
                }
            },
        }
    }
}

/// A pair of signed 64-bit integers read from a whole text: the text must
/// hold exactly two tokens, each a signed decimal that fits an `i64`.
pub open spec fn spec_parse_pair(text: Seq<char>) -> Option<(int, int)> {
    let ts = spec_tokens(text);
    if ts.len() == 2 && spec_parse_i64(ts[0]) is Some && spec_parse_i64(ts[1]) is Some {
        Some((spec_parse_i64(ts[0]).unwrap(), spec_parse_i64(ts[1]).unwrap()))
    } else {
        None
    }
}

/// The view of a vector of machine integers as a sequence of mathematical
/// ones.
pub open spec fn view_ints(v: Seq<i64>) -> Seq<int> {
    v.map_values(|x: i64| x as int)
}

/// A forward-only reader over the lines of an input text. Each line is
/// consumed exactly once; there is no rewind.
pub struct TokenReader {
    lines: Vec<String>,
    pos: usize,
}

impl TokenReader {
    /// The reader's cursor never runs past the line list.
    pub closed spec fn wf(self) -> bool {
        self.pos <= self.lines@.len()
    }

    /// The lines not yet consumed, in order.
    pub closed spec fn remaining(self) -> Seq<Seq<char>> {
        self.lines.deep_view().skip(self.pos as int)
    }

    /// Builds a reader over the lines of `text`.
    pub fn from_text(text: &str) -> (r: Self)
        ensures
            r.wf(),
            r.remaining() == spec_lines(text@),
    {
        let lines = split_lines(text);
        let r = TokenReader { lines, pos: 0 };
        proof {
            assert(r.remaining() =~= r.lines.deep_view());
        }
        r
    }

    /// Reads the next line as a declared count: one token, an unsigned
    /// decimal fitting a `usize`. Consumes the line even when it is
    /// malformed; fails with `UnexpectedEndOfInput` when no line is left.
    pub fn read_count(&mut self) -> (r: Result<usize, InputError>)
        requires
            old(self).wf(),
        ensures
            final(self).wf(),
            match r {
                Ok(n) => old(self).remaining().len() > 0 && spec_parse_count(
                    old(self).remaining()[0],
                ) == Some(n as int) && final(self).remaining() == old(self).remaining().drop_first(),
                Err(e) => if old(self).remaining().len() == 0 {
                    e == InputError::UnexpectedEndOfInput && final(self).remaining() == old(
                        self,
                    ).remaining()
                } else {
                    e == InputError::ParseError && spec_parse_count(old(self).remaining()[0])
                        is None && final(self).remaining() == old(self).remaining().drop_first()
                },
            },
    {
        if self.pos == self.lines.len() {
            return Err(InputError::UnexpectedEndOfInput);
        }
        let line: &String = &self.lines[self.pos];
        self.pos = self.pos + 1;
        proof {
            assert(old(self).remaining()[0] == line@);
            assert(final(self).remaining() =~= old(self).remaining().drop_first());
        }
        let tokens = split_tokens(line.as_str());
        if tokens.len() != 1 {
            return Err(InputError::ParseError);
        }
        proof {
            assert(tokens.deep_view()[0] == tokens@[0]@);
        }
        match parse_usize(tokens[0].as_str()) {
            Some(n) => Ok(n),
            None => Err(InputError::ParseError),
        }
    }

    /// Reads the next line as a sequence of signed 64-bit integers, one per
    /// token, in order. An empty line yields an empty sequence. Consumes
    /// the line even when it is malformed; fails with
    /// `UnexpectedEndOfInput` when no line is left.
    pub fn read_values(&mut self) -> (r: Result<Vec<i64>, InputError>)
        requires
            old(self).wf(),
        ensures
            final(self).wf(),
            match r {
                Ok(v) => old(self).remaining().len() > 0 && spec_parse_values(
                    spec_tokens(old(self).remaining()[0]),
                ) == Some(view_ints(v@)) && final(self).remaining() == old(
                    self,
                ).remaining().drop_first(),
                Err(e) => if old(self).remaining().len() == 0 {
                    e == InputError::UnexpectedEndOfInput && final(self).remaining() == old(
                        self,
                    ).remaining()
                } else {
                    e == InputError::ParseError && spec_parse_values(
                        spec_tokens(old(self).remaining()[0]),
                    ) is None && final(self).remaining() == old(self).remaining().drop_first()
                },
            },
    {
        if self.pos == self.lines.len() {
            return Err(InputError::UnexpectedEndOfInput);
        }
        let line: &String = &self.lines[self.pos];
        self.pos = self.pos + 1;
        proof {
            assert(old(self).remaining()[0] == line@);
            assert(final(self).remaining() =~= old(self).remaining().drop_first());
        }
        let tokens = split_tokens(line.as_str());
        let ghost ts = spec_tokens(line@);
        let mut values: Vec<i64> = Vec::new();
        let mut i: usize = 0;
        while i < tokens.len()
            invariant
                self.wf(),
                old(self).remaining().len() > 0,
                self.remaining() == old(self).remaining().drop_first(),
                ts == spec_tokens(old(self).remaining()[0]),
                ts == tokens.deep_view(),
                0 <= i <= tokens@.len(),
                values@.len() == i,
                forall|k: int| 0 <= k < i ==> (#[trigger] spec_parse_i64(ts[k])) == Some(
                    values@[k] as int,
                ),
            decreases tokens@.len() - i,
        {
            proof {
                assert(ts[i as int] == tokens@[i as int]@);
            }
            match parse_i64(tokens[i].as_str()) {
                Some(v) => values.push(v),
                None => {
                    proof {
                        assert(spec_parse_i64(ts[i as int]) is None);
                    }
                    return Err(InputError::ParseError);
                },
            }
            i = i + 1;
        }
        proof {
            assert(forall|k: int| 0 <= k < ts.len() ==> (#[trigger] spec_parse_i64(ts[k])) is Some);
            assert(view_ints(values@) =~= Seq::new(ts.len(), |k: int| spec_parse_i64(ts[k]).unwrap()));
        }
        Ok(values)
    }
}

/// Loads a full solver input from a text: a declared count on the first
/// line, then exactly that many whitespace-separated signed 64-bit integers
/// on the second. Succeeds exactly when `spec_load_input` does, with the
/// same values or the same error.
pub fn load_input(text: &str) -> (r: Result<Vec<i64>, InputError>)
    ensures
        match r {
            Ok(v) => spec_load_input(text@) == Ok::<Seq<int>, InputError>(view_ints(v@)),
            Err(e) => spec_load_input(text@) == Err::<Seq<int>, InputError>(e),
        },
{
    let mut reader = TokenReader::from_text(text);
    let ghost ls = spec_lines(text@);
    let count = match reader.read_count() {
        Ok(n) => n,
        Err(e) => {
            return Err(e);
        },
    };
    let values = match reader.read_values() {
        Ok(v) => v,
        Err(e) => {
            proof {
                assert(ls.drop_first().len() == 0 ==> ls.len() < 2);
                if ls.drop_first().len() > 0 {
                    assert(ls.drop_first()[0] == ls[1]);
                }
            }
            return Err(e);
        },
    };
    proof {
        assert(ls.drop_first()[0] == ls[1]);
    }
    if values.len() != count {
        return Err(InputError::CountMismatch { expected: count, actual: values.len() });
    }
    Ok(values)
}

/// Reads a pair of signed 64-bit integers from a whole text, such as a
/// reference input holding `a b`. Succeeds exactly when the text holds two
/// integer tokens and nothing else.
pub fn parse_pair(text: &str) -> (r: Option<(i64, i64)>)
    ensures
        match r {
            Some(p) => spec_parse_pair(text@) == Some((p.0 as int, p.1 as int)),
            None => spec_parse_pair(text@) is None,
        },
{
    let tokens = split_tokens(text);
    if tokens.len() != 2 {
        return None;
    }
    proof {
        assert(tokens.deep_view()[0] == tokens@[0]@);
        assert(tokens.deep_view()[1] == tokens@[1]@);
    }
    let a = match parse_i64(tokens[0].as_str()) {
        Some(a) => a,
        None => {
            return None;
        },
    };
    let b = match parse_i64(tokens[1].as_str()) {
        Some(b) => b,
        None => {
            return None;
        },
    };
    Some((a, b))
}

} // verus!
