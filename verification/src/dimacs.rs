//! Reading a formula from text in the DIMACS CNF format.
//!
//! Leading lines that are empty or begin with `c` or `p` are skipped.
//! Each line after them is one clause: integers separated by whitespace,
//! up to the first `0`, which ends the clause and is no literal.

use crate::formula::Clause;
use vstd::prelude::*;
use vstd::slice::slice_subrange;

verus! {

/// The text holds, in its line `line` (counted from 1), a token that is
/// no 32-bit integer before the `0` that ends the clause.
#[derive(Clone, Copy, Debug, PartialEq, Eq)]
pub struct ParseError {
    pub line: usize,
}

/// White space: the characters that separate tokens.
pub open spec fn is_space(c: char) -> bool {
    let u = c as u32;
    u == 0x20 || 0x09 <= u <= 0x0d || u == 0x85 || u == 0xa0 || u == 0x1680 || 0x2000 <= u
        <= 0x200a || u == 0x2028 || u == 0x2029 || u == 0x202f || u == 0x205f || u == 0x3000
}

/// A decimal digit.
pub open spec fn is_digit(c: char) -> bool {
    0x30 <= c as u32 <= 0x39
}

/// Every character is a decimal digit.
pub open spec fn all_digits(d: Seq<char>) -> bool {
    forall|i: int| 0 <= i < d.len() ==> is_digit(#[trigger] d[i])
}

/// The number that a sequence of decimal digits writes.
pub open spec fn digits_value(d: Seq<char>) -> int
    decreases d.len(),
{
    if d.len() == 0 {
        0
    } else {
        10 * digits_value(d.drop_last()) + (d.last() as u32 - 0x30)
    }
}

/// The token begins with a sign.
pub open spec fn has_sign(t: Seq<char>) -> bool {
    t.len() > 0 && (t[0] == '-' || t[0] == '+')
}

/// The integer that a token writes: an optional sign, then one decimal
/// digit or more, the value within 32 bits. `None` for any other token.
pub open spec fn integer_of(t: Seq<char>) -> Option<i32> {
    let digits = if has_sign(t) {
        t.skip(1)
    } else {
        t
    };
    let value = if has_sign(t) && t[0] == '-' {
        -digits_value(digits)
    } else {
        digits_value(digits)
    };
    if digits.len() > 0 && all_digits(digits) && i32::MIN <= value <= i32::MAX {
        Some(value as i32)
    } else {
        None
    }
}

/// The first position at or after `from` that holds no white space; the
/// length of `s` where there is none.
pub open spec fn token_start(s: Seq<char>, from: int) -> int
    decreases s.len() - from,
{
    if from < 0 || from >= s.len() || !is_space(s[from]) {
        from
    } else {
        token_start(s, from + 1)
    }
}

/// The first position at or after `from` that holds white space; the
/// length of `s` where there is none.
pub open spec fn token_end(s: Seq<char>, from: int) -> int
    decreases s.len() - from,
{
    if from < 0 || from >= s.len() || is_space(s[from]) {
        from
    } else {
        token_end(s, from + 1)
    }
}

/// The literals that the line holds from position `from` on: the integers
/// of its tokens up to the first `0`. `None` where a token before that
/// `0` is no integer.
pub open spec fn literals_from(s: Seq<char>, from: int) -> Option<Seq<i32>>
    decreases s.len() - from,
{
    let start = token_start(s, from);
    let end = token_end(s, start);
    if from < 0 || start >= s.len() {
        Some(Seq::empty())
    } else {
        proof {
            lemma_token_start(s, from);
            lemma_token_end(s, start);
        }
        match integer_of(s.subrange(start, end)) {
            None => None,
            Some(value) => if value == 0 {
                Some(Seq::empty())
            } else {
                match literals_from(s, end) {
                    None => None,
                    Some(rest) => Some(seq![value] + rest),
                }
            },
        }
    }
}

/// The clause that a line writes.
pub open spec fn clause_of(line: Seq<char>) -> Option<Seq<i32>> {
    literals_from(line, 0)
}

/// The first position at or after `from` that holds a line feed; the
/// length of `s` where there is none.
pub open spec fn line_end(s: Seq<char>, from: int) -> int
    decreases s.len() - from,
{
    if from < 0 || from >= s.len() || s[from] == '\n' {
        from
    } else {
        line_end(s, from + 1)
    }
}

/// The line that begins at `from`, without the line feed that ends it and
/// without a carriage return just before that line feed.
pub open spec fn line_at(s: Seq<char>, from: int) -> Seq<char> {
    let end = line_end(s, from);
    if end < s.len() && from < end && s[end - 1] == '\r' {
        s.subrange(from, end - 1)
    } else {
        s.subrange(from, end)
    }
}

/// The lines of the text from position `from` on.
pub open spec fn lines_from(s: Seq<char>, from: int) -> Seq<Seq<char>>
    decreases s.len() - from,
{
    if from < 0 || from >= s.len() {
        Seq::empty()
    } else if line_end(s, from) >= s.len() {
        seq![line_at(s, from)]
    } else {
        proof {
            lemma_line_end(s, from);
        }
        seq![line_at(s, from)] + lines_from(s, line_end(s, from) + 1)
    }
}

/// A line that the header may hold: an empty one, a comment, or the
/// problem line.
pub open spec fn is_header(line: Seq<char>) -> bool {
    line.len() == 0 || line[0] == 'c' || line[0] == 'p'
}

/// Every line is one that the header may hold.
pub open spec fn header_only(lines: Seq<Seq<char>>) -> bool {
    forall|i: int| 0 <= i < lines.len() ==> is_header(#[trigger] lines[i])
}

/// The clauses that the lines write, or the number of the first line
/// that writes none. The lines of the header, which ends before the first
/// line that it may not hold, write no clause.
pub open spec fn clauses_of(lines: Seq<Seq<char>>) -> Result<Seq<Seq<i32>>, nat>
    decreases lines.len(),
{
    if lines.len() == 0 {
        Ok(Seq::empty())
    } else {
        match clauses_of(lines.drop_last()) {
            Err(line) => Err(line),
            Ok(clauses) => if header_only(lines) {
                Ok(clauses)
            } else {
                match clause_of(lines.last()) {
                    None => Err(lines.len()),
                    Some(clause) => Ok(clauses.push(clause)),
                }
            },
        }
    }
}

/// The formula that the text writes, or the number of the first line that
/// holds a token that is no integer.
pub open spec fn formula_of(text: Seq<char>) -> Result<Seq<Seq<i32>>, nat> {
    clauses_of(lines_from(text, 0))
}

/// `token_start` stays within the text and stops at a character that is
/// no white space.
pub proof fn lemma_token_start(s: Seq<char>, from: int)
    requires
        0 <= from <= s.len(),
    ensures
        from <= token_start(s, from) <= s.len(),
        token_start(s, from) < s.len() ==> !is_space(s[token_start(s, from)]),
    decreases s.len() - from,
{
    if from < s.len() && is_space(s[from]) {
        lemma_token_start(s, from + 1);
    }
}

/// `token_end` stays within the text and goes past a character that is no
/// white space.
pub proof fn lemma_token_end(s: Seq<char>, from: int)
    requires
        0 <= from <= s.len(),
    ensures
        from <= token_end(s, from) <= s.len(),
        from < s.len() && !is_space(s[from]) ==> from < token_end(s, from),
    decreases s.len() - from,
{
    if from < s.len() && !is_space(s[from]) {
        lemma_token_end(s, from + 1);
    }
}

/// `line_end` stays within the text.
pub proof fn lemma_line_end(s: Seq<char>, from: int)
    requires
        0 <= from <= s.len(),
    ensures
        from <= line_end(s, from) <= s.len(),
    decreases s.len() - from,
{
    if from < s.len() && s[from] != '\n' {
        lemma_line_end(s, from + 1);
    }
}

/// The value of a first part of a sequence of digits is at most the value
/// of the whole.
pub proof fn lemma_digits_value_grows(d: Seq<char>, n: int)
    requires
        all_digits(d),
        0 <= n <= d.len(),
    ensures
        0 <= digits_value(d.take(n)) <= digits_value(d),
    decreases d.len() - n,
{
    lemma_digits_value_nonnegative(d.take(n));
    if n < d.len() {
        lemma_digits_value_grows(d, n + 1);
        assert(d.take(n + 1).drop_last() =~= d.take(n));
        assert(is_digit(d[n]));
    } else {
        assert(d.take(n) =~= d);
    }
}

/// A sequence of digits writes no negative number.
pub proof fn lemma_digits_value_nonnegative(d: Seq<char>)
    requires
        all_digits(d),
    ensures
        0 <= digits_value(d),
    decreases d.len(),
{
    if d.len() > 0 {
        lemma_digits_value_nonnegative(d.drop_last());
        assert(is_digit(d[d.len() - 1]));
    }
}

/// Once the lines write no formula, more lines do not change that.
pub proof fn lemma_clauses_of_error(lines: Seq<Seq<char>>, more: Seq<Seq<char>>)
    requires
        clauses_of(lines).is_err(),
    ensures
        clauses_of(lines + more) == clauses_of(lines),
    decreases more.len(),
{
    if more.len() == 0 {
        assert(lines + more =~= lines);
    } else {
        lemma_clauses_of_error(lines, more.drop_last());
        assert((lines + more).drop_last() =~= lines + more.drop_last());
    }
}

/// The characters of the text, in order.
pub fn characters(text: &str) -> (chars: Vec<char>)
    ensures
        chars@ == text@,
{
    let mut chars: Vec<char> = Vec::new();
    for c in it: text.chars()
        invariant
            it.seq() == text@,
            chars@ == it.seq().take(it.index() as int),
    {
        proof {
            assert(it.seq().take(it.index() + 1) =~= it.seq().take(it.index() as int).push(c));
        }
        chars.push(c);
    }
    proof {
        assert(text@.take(text@.len() as int) =~= text@);
    }
    chars
}

/// Tells whether the character is white space.
pub fn is_whitespace(c: char) -> (space: bool)
    ensures
        space == is_space(c),
{
    let u: u32 = c as u32;
    u == 0x20 || (0x09 <= u && u <= 0x0d) || u == 0x85 || u == 0xa0 || u == 0x1680 || (0x2000 <= u
        && u <= 0x200a) || u == 0x2028 || u == 0x2029 || u == 0x202f || u == 0x205f || u == 0x3000
}

/// Reads a token as a 32-bit integer.
pub fn parse_integer(token: &[char]) -> (value: Option<i32>)
    ensures
        value == integer_of(token@),
{
    let n: usize = token.len();
    if n == 0 {
        return None;
    }
    let negative: bool = token[0] == '-';
    let first: usize = if negative || token[0] == '+' {
        1
    } else {
        0
    };
    if first == n {
        return None;
    }
    let ghost digits = if has_sign(token@) {
        token@.skip(1)
    } else {
        token@
    };
    let mut magnitude: i64 = 0;
    let mut i: usize = first;
    proof {
        assert(digits.take(0) =~= Seq::<char>::empty());
        assert(digits =~= token@.skip(first as int));
    }
    while i < n
        invariant
            n == token@.len(),
            first <= i <= n,
            digits == if has_sign(token@) {
                token@.skip(1)
            } else {
                token@
            },
            digits == token@.skip(first as int),
            digits.len() == n - first,
            all_digits(digits.take(i - first)),
            magnitude == digits_value(digits.take(i - first)),
            0 <= magnitude <= 0x8000_0000,
        decreases n - i,
    {
        let u: u32 = token[i] as u32;
        let ghost seen = digits.take(i - first);
        proof {
            assert(digits[i - first] == token@[i as int]);
            assert(digits.take(i - first + 1) =~= seen.push(token@[i as int]));
            assert(digits.take(i - first + 1).drop_last() =~= seen);
        }
        if u < 0x30 || u > 0x39 {
            proof {
                assert(!is_digit(digits[i - first]));
            }
            return None;
        }
        magnitude = magnitude * 10 + (u - 0x30) as i64;
        proof {
            assert(digits.take(i - first + 1).last() == token@[i as int]);
            assert(magnitude == digits_value(digits.take(i - first + 1)));
            assert(is_digit(token@[i as int]));
        }
        if magnitude > 0x8000_0000 {
            proof {
                if all_digits(digits) {
                    lemma_digits_value_grows(digits, i - first + 1);
                }
            }
            return None;
        }
        i += 1;
    }
    proof {
        assert(digits.take(n - first) =~= digits);
    }
    if negative {
        Some((-magnitude) as i32)
    } else if magnitude == 0x8000_0000 {
        None
    } else {
        Some(magnitude as i32)
    }
}

/// Reads a line as a clause: the integers of its tokens up to the first
/// `0`.
pub fn parse_clause(line: &[char]) -> (clause: Option<Clause>)
    ensures
        match clause {
            Some(literals) => clause_of(line@) == Some(literals@),
            None => clause_of(line@).is_none(),
        },
{
    let n: usize = line.len();
    let mut literals: Clause = Vec::new();
    let mut pos: usize = 0;
    proof {
        assert(literals@ + Seq::<i32>::empty() =~= literals@);
    }
    loop
        invariant
            n == line@.len(),
            0 <= pos <= n,
            match literals_from(line@, pos as int) {
                Some(rest) => clause_of(line@) == Some(literals@ + rest),
                None => clause_of(line@).is_none(),
            },
        decreases n - pos,
    {
        let ghost from = pos as int;
        while pos < n && is_whitespace(line[pos])
            invariant
                n == line@.len(),
                from <= pos <= n,
                token_start(line@, from) == token_start(line@, pos as int),
            decreases n - pos,
        {
            pos += 1;
        }
        if pos == n {
            proof {
                assert(literals@ + Seq::<i32>::empty() =~= literals@);
            }
            return Some(literals);
        }
        let start: usize = pos;
        while pos < n && !is_whitespace(line[pos])
            invariant
                n == line@.len(),
                start <= pos <= n,
                start < n,
                !is_space(line@[start as int]),
                token_end(line@, start as int) == token_end(line@, pos as int),
            decreases n - pos,
        {
            pos += 1;
        }
        proof {
            lemma_token_end(line@, start as int);
        }
        match parse_integer(slice_subrange(line, start, pos)) {
            None => {
                return None;
            },
            Some(value) => {
                if value == 0 {
                    proof {
                        assert(literals@ + Seq::<i32>::empty() =~= literals@);
                    }
                    return Some(literals);
                }
                proof {
                    let rest = literals_from(line@, pos as int);
                    if rest.is_some() {
                        assert(literals@.push(value) + rest.unwrap() =~= literals@ + (seq![value]
                            + rest.unwrap()));
                    }
                }
                literals.push(value);
            },
        }
    }
}

/// Reads a text in the DIMACS CNF format as a formula.
///
/// Fails on the first line that holds, before the `0` that ends its
/// clause, a token that is no 32-bit integer, and names that line.
pub fn parse_cnf(text: &str) -> (result: Result<Vec<Clause>, ParseError>)
    ensures
        match result {
            Ok(clauses) => formula_of(text@) == Ok::<Seq<Seq<i32>>, nat>(clauses.deep_view()),
            Err(error) => formula_of(text@) == Err::<Seq<Seq<i32>>, nat>(error.line as nat),
        },
{
    let chars = characters(text);
    let n: usize = chars.len();
    let mut clauses: Vec<Clause> = Vec::new();
    let mut in_header: bool = true;
    let mut line_number: usize = 0;
    let mut pos: usize = 0;
    let ghost mut seen: Seq<Seq<char>> = Seq::empty();
    proof {
        assert(seen + lines_from(chars@, 0) =~= lines_from(chars@, 0));
        assert(clauses.deep_view() =~= Seq::<Seq<i32>>::empty());
    }
    while pos < n
        invariant
            chars@ == text@,
            n == chars@.len(),
            0 <= pos <= n,
            line_number == seen.len() <= pos,
            lines_from(chars@, 0) == seen + lines_from(chars@, pos as int),
            in_header == header_only(seen),
            clauses_of(seen) == Ok::<Seq<Seq<i32>>, nat>(clauses.deep_view()),
        decreases n - pos,
    {
        let start: usize = pos;
        while pos < n && chars[pos] != '\n'
            invariant
                n == chars@.len(),
                start <= pos <= n,
                line_end(chars@, start as int) == line_end(chars@, pos as int),
            decreases n - pos,
        {
            pos += 1;
        }
        let end: usize = if pos < n && start < pos && chars[pos - 1] == '\r' {
            pos - 1
        } else {
            pos
        };
        let line = slice_subrange(chars.as_slice(), start, end);
        line_number += 1;
        let ghost lines = seen.push(line@);
        proof {
            assert(line@ == line_at(chars@, start as int));
            assert(lines + lines_from(chars@, pos + 1) =~= seen + lines_from(
                chars@,
                start as int,
            ));
            assert(lines.drop_last() =~= seen);
            assert(header_only(lines) <==> header_only(seen) && is_header(line@)) by {
                if header_only(lines) {
                    assert(is_header(lines[seen.len() as int]));
                    assert forall|i: int| 0 <= i < seen.len() implies is_header(
                        #[trigger] seen[i],
                    ) by {
                        assert(lines[i] == seen[i]);
                    }
                }
                if header_only(seen) && is_header(line@) {
                    assert forall|i: int| 0 <= i < lines.len() implies is_header(
                        #[trigger] lines[i],
                    ) by {
                        if i < seen.len() {
                            assert(lines[i] == seen[i]);
                        }
                    }
                }
            }
        }
        if in_header && (line.len() == 0 || line[0] == 'c' || line[0] == 'p') {
        } else {
            in_header = false;
            match parse_clause(line) {
                None => {
                    proof {
                        lemma_clauses_of_error(lines, lines_from(chars@, pos + 1));
                    }
                    return Err(ParseError { line: line_number });
                },
                Some(clause) => {
                    let ghost before = clauses.deep_view();
                    clauses.push(clause);
                    proof {
                        assert(clause.deep_view() =~= clause@);
                        assert(clauses.deep_view() =~= before.push(clause@));
                    }
                },
            }
        }
        proof {
            seen = lines;
        }
        if pos < n {
            pos += 1;
        }
    }
    Ok(clauses)
}

} // verus!
