use vstd::prelude::*;

use vstd::string::StrSliceExecFns;

use crate::MAX_COORD;

verus! {

/// Why a read of the drill text failed, with the character index at which
/// the failure was detected.
#[derive(Clone, Copy, PartialEq, Eq, Structural, Debug)]
pub enum ParseError {
    /// Input ended where more was expected.
    UnexpectedEof { at: usize },
    /// A literal did not match the character found.
    CharacterMismatch { at: usize },
    /// A number was expected and no valid one was found.
    InvalidNumber { at: usize },
    /// A number was valid but larger than the supported coordinate range.
    NumberOutOfRange { at: usize },
    /// A hit location appeared while no defined tool was selected.
    NoCurrentTool { at: usize },
}

/// A forward-only cursor over a decoded character sequence.
pub struct Parser {
    pub chars: Vec<char>,
    pub idx: usize,
}

/// An ASCII decimal digit.
pub open spec fn is_digit_char(c: char) -> bool {
    48 <= (c as u32) <= 57
}

/// The numeric value of an ASCII decimal digit.
pub open spec fn digit_val(c: char) -> int {
    (c as u32) - 48
}

/// A character that may appear in a decimal number.
pub open spec fn is_float_char(c: char) -> bool {
    is_digit_char(c) || c == '.' || c == '-'
}

/// The first index at or after i that does not hold a digit, or the length.
pub open spec fn digits_end(s: Seq<char>, i: int) -> int
    decreases s.len() - i,
{
    if i >= s.len() || !is_digit_char(s[i]) {
        i
    } else {
        digits_end(s, i + 1)
    }
}

/// The first index in [i, e) that does not hold a digit, or e.
pub open spec fn digits_end_before(s: Seq<char>, i: int, e: int) -> int
    decreases e - i,
{
    if i >= e || !is_digit_char(s[i]) {
        i
    } else {
        digits_end_before(s, i + 1, e)
    }
}

/// The first index at or after i that does not hold a number character, or
/// the length.
pub open spec fn float_end(s: Seq<char>, i: int) -> int
    decreases s.len() - i,
{
    if i >= s.len() || !is_float_char(s[i]) {
        i
    } else {
        float_end(s, i + 1)
    }
}

/// One past the next newline at or after i, or the length.
pub open spec fn line_end(s: Seq<char>, i: int) -> int
    decreases s.len() - i,
{
    if i >= s.len() {
        i
    } else if s[i] == '\n' {
        i + 1
    } else {
        line_end(s, i + 1)
    }
}

/// The decimal value of the digit run in [i, j).
pub open spec fn digits_val(s: Seq<char>, i: int, j: int) -> int
    decreases j - i,
{
    if j <= i {
        0
    } else {
        digits_val(s, i, j - 1) * 10 + digit_val(s[j - 1])
    }
}

/// The digit run's value accumulated with a cap: once the value passes the
/// cap it sticks there.
pub open spec fn digits_val_capped(s: Seq<char>, i: int, j: int, cap: int) -> int
    decreases j - i,
{
    if j <= i {
        0
    } else {
        let v = digits_val_capped(s, i, j - 1, cap) * 10 + digit_val(s[j - 1]);
        if v > cap {
            cap
        } else {
            v
        }
    }
}

/// A maximal run of matching characters determines the run-end function.
pub proof fn lemma_digits_end_run(s: Seq<char>, i: int, j: int)
    requires
        0 <= i <= j <= s.len(),
        forall|k: int| i <= k < j ==> is_digit_char(#[trigger] s[k]),
        j == s.len() || !is_digit_char(s[j]),
    ensures
        digits_end(s, i) == j,
    decreases j - i,
{
    if i < j {
        lemma_digits_end_run(s, i + 1, j);
    }
}

/// A maximal bounded run of digits determines the bounded run-end function.
pub proof fn lemma_digits_end_before_run(s: Seq<char>, i: int, j: int, e: int)
    requires
        0 <= i <= j <= e <= s.len(),
        forall|k: int| i <= k < j ==> is_digit_char(#[trigger] s[k]),
        j == e || !is_digit_char(s[j]),
    ensures
        digits_end_before(s, i, e) == j,
    decreases j - i,
{
    if i < j {
        lemma_digits_end_before_run(s, i + 1, j, e);
    }
}

/// A maximal run of number characters determines the run-end function.
pub proof fn lemma_float_end_run(s: Seq<char>, i: int, j: int)
    requires
        0 <= i <= j <= s.len(),
        forall|k: int| i <= k < j ==> is_float_char(#[trigger] s[k]),
        j == s.len() || !is_float_char(s[j]),
    ensures
        float_end(s, i) == j,
    decreases j - i,
{
    if i < j {
        lemma_float_end_run(s, i + 1, j);
    }
}

/// The digit-run end lies between its start and the length.
pub proof fn lemma_digits_end_range(s: Seq<char>, i: int)
    requires
        0 <= i <= s.len(),
    ensures
        i <= digits_end(s, i) <= s.len(),
    decreases s.len() - i,
{
    if i < s.len() && is_digit_char(s[i]) {
        lemma_digits_end_range(s, i + 1);
    }
}

/// The number-run end lies between its start and the length.
pub proof fn lemma_float_end_range(s: Seq<char>, i: int)
    requires
        0 <= i <= s.len(),
    ensures
        i <= float_end(s, i) <= s.len(),
    decreases s.len() - i,
{
    if i < s.len() && is_float_char(s[i]) {
        lemma_float_end_range(s, i + 1);
    }
}

/// The cursor position `expect` leaves lies between its start and the length.
pub proof fn lemma_spec_expect_range(s: Seq<char>, i: int, lit: Seq<char>)
    requires
        0 <= i <= s.len(),
    ensures
        i <= spec_expect(s, i, lit).1 <= s.len(),
    decreases lit.len(),
{
    if lit.len() > 0 && i < s.len() && s[i] == lit[0] {
        lemma_spec_expect_range(s, i + 1, lit.drop_first());
    }
}

/// Run ends lie between their start and the length.
pub proof fn lemma_line_end_range(s: Seq<char>, i: int)
    requires
        0 <= i <= s.len(),
    ensures
        i <= line_end(s, i) <= s.len(),
    decreases s.len() - i,
{
    if i < s.len() && s[i] != '\n' {
        lemma_line_end_range(s, i + 1);
    }
}

/// The value of a run of digits is non-negative.
pub proof fn lemma_digits_val_nonneg(s: Seq<char>, i: int, j: int)
    requires
        forall|k: int| i <= k < j ==> is_digit_char(#[trigger] s[k]),
    ensures
        digits_val(s, i, j) >= 0,
    decreases j - i,
{
    if j > i {
        lemma_digits_val_nonneg(s, i, j - 1);
    }
}

/// The capped value is the minimum of the true value and the cap.
pub proof fn lemma_digits_val_capped(s: Seq<char>, i: int, j: int, cap: int)
    requires
        0 <= cap,
        forall|k: int| i <= k < j ==> is_digit_char(#[trigger] s[k]),
    ensures
        digits_val_capped(s, i, j, cap) == if digits_val(s, i, j) > cap {
            cap
        } else {
            digits_val(s, i, j)
        },
    decreases j - i,
{
    if j > i {
        lemma_digits_val_capped(s, i, j - 1, cap);
        lemma_digits_val_nonneg(s, i, j - 1);
    }
}

/// What `expect` consumes and returns: the literal is matched character by
/// character; the cursor stops right after the character that failed.
pub open spec fn spec_expect(s: Seq<char>, i: int, lit: Seq<char>) -> (Result<
    (),
    ParseError,
>, int)
    decreases lit.len(),
{
    if lit.len() == 0 {
        (Ok(()), i)
    } else if i >= s.len() {
        (Err(ParseError::UnexpectedEof { at: i as usize }), i)
    } else if s[i] != lit[0] {
        (Err(ParseError::CharacterMismatch { at: i as usize }), i + 1)
    } else {
        spec_expect(s, i + 1, lit.drop_first())
    }
}

/// What `parse_int` consumes and returns: the maximal digit run from i,
/// its decimal value if it is non-empty and fits a u32.
pub open spec fn spec_parse_int(s: Seq<char>, i: int) -> (Result<u32, ParseError>, int) {
    let e = digits_end(s, i);
    if e == i {
        (Err(ParseError::InvalidNumber { at: i as usize }), e)
    } else if digits_val(s, i, e) > 0xFFFFFFFF {
        (Err(ParseError::NumberOutOfRange { at: i as usize }), e)
    } else {
        (Ok(digits_val(s, i, e) as u32), e)
    }
}

/// Where the digits of a decimal start, after an optional leading minus.
pub open spec fn decimal_digits_start(s: Seq<char>, i: int, e: int) -> int {
    if i < e && s[i] == '-' {
        i + 1
    } else {
        i
    }
}

/// Whether the run [i, e) is a valid decimal: an optional minus, then
/// digits, then optionally a dot and digits, with at least one digit.
pub open spec fn valid_decimal(s: Seq<char>, i: int, e: int) -> bool {
    let d0 = decimal_digits_start(s, i, e);
    let p = digits_end_before(s, d0, e);
    if p == e {
        p > d0
    } else {
        &&& s[p] == '.'
        &&& digits_end_before(s, p + 1, e) == e
        &&& (d0 < p || p + 1 < e)
    }
}

/// The value of the fraction digits from i, in millionths: the first six
/// digits weigh 100000 down to 1 and further digits are truncated away.
pub open spec fn frac_val_e6(s: Seq<char>, i: int, e: int, pow: int) -> int
    decreases e - i,
{
    if i >= e || pow <= 0 {
        0
    } else {
        digit_val(s[i]) * pow + frac_val_e6(s, i + 1, e, pow / 10)
    }
}

/// The magnitude of a valid decimal run [i, e) in millionths.
pub open spec fn decimal_magnitude_e6(s: Seq<char>, i: int, e: int) -> int {
    let d0 = decimal_digits_start(s, i, e);
    let p = digits_end_before(s, d0, e);
    let ip = digits_val(s, d0, p);
    let frac = if p < e {
        frac_val_e6(s, p + 1, e, 100000)
    } else {
        0
    };
    ip * 1000000 + frac
}

/// The signed value of a valid decimal run [i, e) in millionths.
pub open spec fn decimal_value_e6(s: Seq<char>, i: int, e: int) -> int {
    if i < e && s[i] == '-' {
        -decimal_magnitude_e6(s, i, e)
    } else {
        decimal_magnitude_e6(s, i, e)
    }
}

/// What `parse_float` consumes and returns: the maximal run of number
/// characters from i, its value in millionths if the run is a valid decimal
/// of magnitude at most MAX_COORD.
pub open spec fn spec_parse_decimal(s: Seq<char>, i: int) -> (Result<i64, ParseError>, int) {
    let e = float_end(s, i);
    if !valid_decimal(s, i, e) {
        (Err(ParseError::InvalidNumber { at: i as usize }), e)
    } else if decimal_magnitude_e6(s, i, e) > MAX_COORD {
        (Err(ParseError::NumberOutOfRange { at: i as usize }), e)
    } else {
        (Ok(decimal_value_e6(s, i, e) as i64), e)
    }
}

fn ascii_digit(c: char) -> (r: bool)
    ensures
        r == is_digit_char(c),
{
    let u = c as u32;
    48 <= u && u <= 57
}

fn float_character(c: char) -> (r: bool)
    ensures
        r == is_float_char(c),
{
    let u = c as u32;
    (48 <= u && u <= 57) || c == '.' || c == '-'
}

impl Parser {
    /// The cursor never points past the end of the input.
    pub open spec fn wf(self) -> bool {
        self.idx <= self.chars@.len()
    }

    /// A cursor over the characters of the given string, at the start.
    pub fn new(string: &str) -> (r: Self)
        ensures
            r.chars@ == string@,
            r.idx == 0,
            r.wf(),
    {
        let n = string.unicode_len();
        let mut chars: Vec<char> = Vec::new();
        for i in 0..n
            invariant
                n == string@.len(),
                chars@ == string@.subrange(0, i as int),
        {
            chars.push(string.get_char(i));
            proof {
                assert(chars@ =~= string@.subrange(0, i + 1));
            }
        }
        proof {
            assert(chars@ =~= string@);
        }
        Parser { chars, idx: 0 }
    }

    /// Whether the cursor is at the end of the input.
    pub fn is_eof(&self) -> (r: bool)
        ensures
            r == (self.idx >= self.chars@.len()),
    {
        self.idx >= self.chars.len()
    }

    /// Reads the character under the cursor and advances past it.
    pub fn next(&mut self) -> (r: char)
        requires
            old(self).idx < old(self).chars@.len(),
        ensures
            r == old(self).chars@[old(self).idx as int],
            final(self).chars == old(self).chars,
            final(self).idx == old(self).idx + 1,
    {
        let n = self.chars.len();
        let out = self.chars[self.idx];
        self.idx += 1;
        out
    }

    /// Reads the character under the cursor without advancing.
    pub fn peek(&self) -> (r: char)
        requires
            self.idx < self.chars@.len(),
        ensures
            r == self.chars@[self.idx as int],
    {
        self.chars[self.idx]
    }

    /// Advances while the predicate holds of the character under the cursor,
    /// stopping at the first non-matching character or the end of input.
    pub fn take_while<F: Fn(char) -> bool>(&mut self, predicate: F)
        requires
            old(self).wf(),
            forall|c: char| #[trigger] call_requires(predicate, (c,)),
        ensures
            final(self).chars == old(self).chars,
            old(self).idx <= final(self).idx <= final(self).chars@.len(),
            forall|j: int|
                old(self).idx <= j < final(self).idx ==> call_ensures(
                    predicate,
                    (final(self).chars@[j],),
                    true,
                ),
            final(self).idx < final(self).chars@.len() ==> call_ensures(
                predicate,
                (final(self).chars@[final(self).idx as int],),
                false,
            ),
            final(self).wf(),
    {
        let ghost chars0 = self.chars;
        let ghost idx0 = self.idx;
        loop
            invariant
                self.chars == chars0,
                idx0 <= self.idx <= self.chars@.len(),
                forall|c: char| #[trigger] call_requires(predicate, (c,)),
                forall|j: int|
                    idx0 <= j < self.idx ==> call_ensures(
                        predicate,
                        (self.chars@[j],),
                        true,
                    ),
            ensures
                self.chars == chars0,
                idx0 <= self.idx <= self.chars@.len(),
                forall|j: int|
                    idx0 <= j < self.idx ==> call_ensures(
                        predicate,
                        (self.chars@[j],),
                        true,
                    ),
                self.idx < self.chars@.len() ==> call_ensures(
                    predicate,
                    (self.chars@[self.idx as int],),
                    false,
                ),
            decreases self.chars@.len() - self.idx,
        {
            if self.idx >= self.chars.len() {
                break;
            }
            let c = self.chars[self.idx];
            if !predicate(c) {
                break;
            }
            self.idx += 1;
        }
    }

    /// Consumes and compares the input against the literal character by
    /// character, stopping right after the first discrepancy.
    pub fn expect(&mut self, expected: &str) -> (r: Result<(), ParseError>)
        requires
            old(self).wf(),
        ensures
            final(self).chars == old(self).chars,
            final(self).wf(),
            old(self).idx <= final(self).idx,
            (r, final(self).idx as int) == spec_expect(
                old(self).chars@,
                old(self).idx as int,
                expected@,
            ),
    {
        let n = expected.unicode_len();
        let ghost chars0 = self.chars;
        let ghost s = self.chars@;
        let ghost start = self.idx as int;
        proof {
            assert(expected@.skip(0) =~= expected@);
        }
        for k in 0..n
            invariant
                self.chars == chars0,
                chars0 == old(self).chars,
                self.chars@ == s,
                s == old(self).chars@,
                start == old(self).idx as int,
                start <= self.idx as int,
                self.idx <= s.len(),
                n == expected@.len(),
                spec_expect(s, start, expected@) == spec_expect(
                    s,
                    self.idx as int,
                    expected@.skip(k as int),
                ),
        {
            proof {
                assert(expected@.skip(k as int).len() == n - k);
                assert(expected@.skip(k as int)[0] == expected@[k as int]);
            }
            if self.is_eof() {
                return Err(ParseError::UnexpectedEof { at: self.idx });
            }
            let at = self.idx;
            let c = self.next();
            let e = expected.get_char(k);
            if c != e {
                return Err(ParseError::CharacterMismatch { at });
            }
            proof {
                assert(expected@.skip(k as int).drop_first() =~= expected@.skip(k + 1));
            }
        }
        proof {
            assert(expected@.skip(n as int).len() == 0);
        }
        Ok(())
    }

    /// Parses the maximal digit run at the cursor as a decimal integer; the
    /// cursor ends after the run whether or not a value comes out.
    pub fn parse_int(&mut self) -> (r: Result<u32, ParseError>)
        requires
            old(self).wf(),
        ensures
            final(self).chars == old(self).chars,
            final(self).wf(),
            old(self).idx <= final(self).idx,
            (r, final(self).idx as int) == spec_parse_int(old(self).chars@, old(self).idx as int),
    {
        let ghost s = self.chars@;
        let start = self.idx;
        self.take_while(ascii_digit);
        proof {
            assert forall|k: int| start <= k < self.idx implies is_digit_char(#[trigger] s[k]) by {
                assert(call_ensures(ascii_digit, (s[k],), true));
            }
            if (self.idx as int) < s.len() {
                assert(call_ensures(ascii_digit, (s[self.idx as int],), false));
            }
            lemma_digits_end_run(s, start as int, self.idx as int);
        }
        let e = self.idx;
        if e == start {
            return Err(ParseError::InvalidNumber { at: start });
        }
        let ghost chars0 = self.chars;
        let mut acc: u64 = 0;
        let mut j = start;
        while j < e
            invariant
                self.chars == chars0,
                chars0 == old(self).chars,
                self.chars@ == s,
                self.idx == e,
                start <= j <= e <= s.len(),
                forall|k: int| start <= k < e ==> is_digit_char(#[trigger] s[k]),
                acc == digits_val_capped(s, start as int, j as int, 0x100000000),
                acc <= 0x100000000,
            decreases e - j,
        {
            let c = self.chars[j];
            let d = (c as u32) - 48;
            let v = acc * 10 + (d as u64);
            acc = if v > 0x100000000 {
                0x100000000
            } else {
                v
            };
            j += 1;
        }
        proof {
            lemma_digits_val_capped(s, start as int, e as int, 0x100000000);
            lemma_digits_val_nonneg(s, start as int, e as int);
        }
        if acc > 0xFFFFFFFF {
            return Err(ParseError::NumberOutOfRange { at: start });
        }
        Ok(acc as u32)
    }

    /// Parses the maximal run of number characters at the cursor as a
    /// decimal, yielding its value in millionths of a board unit; the cursor
    /// ends after the run whether or not a value comes out.
    pub fn parse_float(&mut self) -> (r: Result<i64, ParseError>)
        requires
            old(self).wf(),
        ensures
            final(self).chars == old(self).chars,
            final(self).wf(),
            old(self).idx <= final(self).idx,
            (r, final(self).idx as int) == spec_parse_decimal(old(self).chars@, old(self).idx as int),
    {
        let ghost s = self.chars@;
        let start = self.idx;
        self.take_while(float_character);
        proof {
            assert forall|k: int| start <= k < self.idx implies is_float_char(#[trigger] s[k]) by {
                assert(call_ensures(float_character, (s[k],), true));
            }
            if (self.idx as int) < s.len() {
                assert(call_ensures(float_character, (s[self.idx as int],), false));
            }
            lemma_float_end_run(s, start as int, self.idx as int);
        }
        let e = self.idx;
        let neg = start < e && self.chars[start] == '-';
        let d0 = if neg {
            start + 1
        } else {
            start
        };
        let ghost chars0 = self.chars;
        let mut p = d0;
        let mut acc: u64 = 0;
        loop
            invariant
                self.chars == chars0,
                chars0 == old(self).chars,
                self.chars@ == s,
                self.idx == e,
                d0 <= p <= e <= s.len(),
                forall|k: int| d0 <= k < p ==> is_digit_char(#[trigger] s[k]),
                acc == digits_val_capped(s, d0 as int, p as int, 0x80000001),
                acc <= 0x80000001,
            ensures
                self.chars == chars0,
                chars0 == old(self).chars,
                self.chars@ == s,
                self.idx == e,
                d0 <= p <= e <= s.len(),
                forall|k: int| d0 <= k < p ==> is_digit_char(#[trigger] s[k]),
                p == e || !is_digit_char(s[p as int]),
                acc == digits_val_capped(s, d0 as int, p as int, 0x80000001),
                acc <= 0x80000001,
            decreases e - p,
        {
            if p >= e {
                break;
            }
            let c = self.chars[p];
            if !ascii_digit(c) {
                break;
            }
            let d = (c as u32) - 48;
            let v = acc * 10 + (d as u64);
            acc = if v > 0x80000001 {
                0x80000001
            } else {
                v
            };
            p += 1;
        }
        proof {
            lemma_digits_end_before_run(s, d0 as int, p as int, e as int);
        }
        if p == e {
            if p == d0 {
                return Err(ParseError::InvalidNumber { at: start });
            }
        } else {
            if self.chars[p] != '.' {
                return Err(ParseError::InvalidNumber { at: start });
            }
            let mut q = p + 1;
            loop
                invariant
                    self.chars == chars0,
                    chars0 == old(self).chars,
                    self.chars@ == s,
                    self.idx == e,
                    p + 1 <= q <= e <= s.len(),
                    forall|k: int| p + 1 <= k < q ==> is_digit_char(#[trigger] s[k]),
                ensures
                    self.chars == chars0,
                    chars0 == old(self).chars,
                    self.chars@ == s,
                    self.idx == e,
                    p + 1 <= q <= e <= s.len(),
                    forall|k: int| p + 1 <= k < q ==> is_digit_char(#[trigger] s[k]),
                    q == e || !is_digit_char(s[q as int]),
                decreases e - q,
            {
                if q >= e {
                    break;
                }
                if !ascii_digit(self.chars[q]) {
                    break;
                }
                q += 1;
            }
            proof {
                lemma_digits_end_before_run(s, p + 1, q as int, e as int);
            }
            if q != e {
                return Err(ParseError::InvalidNumber { at: start });
            }
            if p == d0 && p + 1 == e {
                return Err(ParseError::InvalidNumber { at: start });
            }
        }
        let mut frac: u64 = 0;
        if p < e {
            let mut pow: u64 = 100000;
            let mut q = p + 1;
            while q < e && pow > 0
                invariant
                    self.chars == chars0,
                    chars0 == old(self).chars,
                    self.chars@ == s,
                    self.idx == e,
                    p + 1 <= q <= e <= s.len(),
                    p < e,
                    forall|k: int| p + 1 <= k < e ==> is_digit_char(#[trigger] s[k]),
                    pow <= 100000,
                    frac + frac_val_e6(s, q as int, e as int, pow as int) == frac_val_e6(
                        s,
                        p + 1,
                        e as int,
                        100000,
                    ),
                    frac + 10 * pow <= 1000000,
                decreases e - q,
            {
                let c = self.chars[q];
                let d = ((c as u32) - 48) as u64;
                proof {
                    assert((d as int) * (pow as int) <= 9 * (pow as int)) by (nonlinear_arith)
                        requires (d as int) <= 9 && 0 <= pow as int;
                    assert(0 <= (d as int) * (pow as int)) by (nonlinear_arith)
                        requires 0 <= d as int && 0 <= pow as int;
                }
                frac = frac + d * pow;
                pow = pow / 10;
                q += 1;
            }
            proof {
                assert(frac_val_e6(s, q as int, e as int, pow as int) == 0);
            }
        }
        proof {
            lemma_digits_val_capped(s, d0 as int, p as int, 0x80000001);
            lemma_digits_val_nonneg(s, d0 as int, p as int);
        }
        let mag: u64 = acc * 1000000 + frac;
        if mag > MAX_COORD as u64 {
            return Err(ParseError::NumberOutOfRange { at: start });
        }
        let v = mag as i64;
        if neg {
            Ok(-v)
        } else {
            Ok(v)
        }
    }

    /// Consumes characters up to and including the next newline, or to the
    /// end of the input.
    pub fn next_line(&mut self)
        requires
            old(self).wf(),
        ensures
            final(self).chars == old(self).chars,
            final(self).wf(),
            old(self).idx <= final(self).idx,
            final(self).idx as int == line_end(old(self).chars@, old(self).idx as int),
    {
        let ghost chars0 = self.chars;
        let ghost s = self.chars@;
        let ghost start = self.idx as int;
        loop
            invariant_except_break
                line_end(s, start) == line_end(s, self.idx as int),
            invariant
                self.chars == chars0,
                chars0 == old(self).chars,
                self.chars@ == s,
                s == old(self).chars@,
                start == old(self).idx as int,
                start <= self.idx <= s.len(),
            ensures
                self.chars == chars0,
                self.chars@ == s,
                self.idx as int == line_end(s, start),
            decreases s.len() - self.idx,
        {
            if self.idx >= self.chars.len() {
                break;
            }
            let c = self.chars[self.idx];
            self.idx += 1;
            if c == '\n' {
                break;
            }
        }
    }
}

} // verus!
