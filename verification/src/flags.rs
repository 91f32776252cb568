//! Command-line configuration values and the parsing of their text form.
//! Reading the actual process arguments is left to the surrounding program;
//! the numeric tick-rate text is decoded and validated here.

use vstd::prelude::*;

verus! {

/// Configuration chosen on the command line: the gravity tick period in
/// milliseconds.
pub struct Flags {
    pub tick: u32,
}

/// An error carrying a human-readable description of a rejected input.
#[derive(Debug)]
pub struct ParseError {
    details: String,
}

impl View for ParseError {
    type V = Seq<char>;

    closed spec fn view(&self) -> Seq<char> {
        self.details@
    }
}

impl ParseError {
    pub fn new(msg: &str) -> (r: ParseError)
        ensures
            r@ == msg@,
    {
        ParseError { details: msg.to_owned() }
    }

    /// The description this error was built with.
    pub fn message(&self) -> (m: &str)
        ensures
            m@ == self@,
    {
        self.details.as_str()
    }
}

/// The numeric value denoted by a sequence of decimal digits, most
/// significant first.
pub open spec fn spec_digits_value(s: Seq<char>) -> int
    decreases s.len(),
{
    if s.len() == 0 {
        0
    } else {
        spec_digits_value(s.drop_last()) * 10 + (s.last() as int - '0' as int)
    }
}

pub open spec fn spec_is_digit(c: char) -> bool {
    '0' as int <= c as int <= '9' as int
}

/// The digit part of a numeral: everything after an optional leading plus
/// sign.
pub open spec fn spec_numeral_body(s: Seq<char>) -> Seq<char> {
    if s.len() > 0 && s[0] == '+' {
        s.skip(1)
    } else {
        s
    }
}

/// Whether `s` denotes a `u32`: an optional leading plus sign, then at least
/// one decimal digit, with the denoted value in range.
pub open spec fn spec_is_u32_numeral(s: Seq<char>) -> bool {
    &&& spec_numeral_body(s).len() > 0
    &&& (forall|i: int|
        0 <= i < spec_numeral_body(s).len() ==> spec_is_digit(#[trigger] spec_numeral_body(s)[i]))
    &&& spec_digits_value(spec_numeral_body(s)) <= u32::MAX
}

/// Appending digits never decreases the denoted value.
pub proof fn lemma_digits_value_monotone(s: Seq<char>, i: int, j: int)
    requires
        0 <= i <= j <= s.len(),
        forall|k: int| 0 <= k < s.len() ==> spec_is_digit(#[trigger] s[k]),
    ensures
        spec_digits_value(s.take(i)) <= spec_digits_value(s.take(j)),
        spec_digits_value(s.take(i)) >= 0,
    decreases j - i,
{
    if i == j {
        lemma_digits_value_nonneg(s.take(i));
    } else {
        lemma_digits_value_monotone(s, i, j - 1);
        assert(s.take(j).drop_last() =~= s.take(j - 1));
        lemma_digits_value_nonneg(s.take(j - 1));
    }
}

proof fn lemma_digits_value_nonneg(s: Seq<char>)
    requires
        forall|k: int| 0 <= k < s.len() ==> spec_is_digit(#[trigger] s[k]),
    ensures
        spec_digits_value(s) >= 0,
    decreases s.len(),
{
    if s.len() > 0 {
        lemma_digits_value_nonneg(s.drop_last());
    }
}

/// Decode a decimal numeral in the form the tick-rate flag accepts: an
/// optional leading `+`, then one or more digits denoting a value that fits
/// in a `u32`. Any other text is rejected with a description of the flag.
pub fn parse_tick(s: &str) -> (r: Result<u32, ParseError>)
    ensures
        r is Ok <==> spec_is_u32_numeral(s@),
        r matches Ok(v) ==> v == spec_digits_value(spec_numeral_body(s@)),
        r matches Err(e) ==> e@ == "Wrong value for 'tick-rate' flag. Must be integer."@,
{
    let n = s.unicode_len();
    let mut i: usize = 0;
    if n > 0 && s.get_char(0) == '+' {
        i = 1;
    }
    let ghost body = spec_numeral_body(s@);
    assert(body =~= s@.skip(i as int));
    if i == n {
        return Err(ParseError::new("Wrong value for 'tick-rate' flag. Must be integer."));
    }
    let mut acc: u32 = 0;
    let start = i;
    while i < n
        invariant
            start <= i <= n,
            n == s@.len(),
            start <= 1,
            body == spec_numeral_body(s@),
            body == s@.skip(start as int),
            forall|k: int| 0 <= k < i - start ==> spec_is_digit(#[trigger] body[k]),
            acc == spec_digits_value(body.take(i - start)),
        decreases n - i,
    {
        let c = s.get_char(i);
        let cv = c as u32;
        if cv < 48 || cv > 57 {
            proof {
                assert(body[i - start] == s@[i as int]);
                assert(!spec_is_digit(spec_numeral_body(s@)[i - start]));
            }
            return Err(ParseError::new("Wrong value for 'tick-rate' flag. Must be integer."));
        }
        let d = cv - 48;
        if acc > (u32::MAX - d) / 10 {
            // The digits read so far already exceed the range; any further
            // digits can only make the value larger.
            proof {
                if spec_is_u32_numeral(s@) {
                    assert(body == spec_numeral_body(s@));
                    assert(forall|k: int|
                        0 <= k < body.len() ==> spec_is_digit(#[trigger] body[k]));
                    assert(0 <= i + 1 - start <= body.len());
                    lemma_digits_value_monotone(body, i + 1 - start, body.len() as int);
                    assert(body.take(i + 1 - start).drop_last() =~= body.take(i - start));
                    assert(spec_digits_value(body.take(i + 1 - start)) > u32::MAX);
                    assert(body.take(body.len() as int) =~= body);
                }
            }
            return Err(ParseError::new("Wrong value for 'tick-rate' flag. Must be integer."));
        }
        proof {
            assert(body.take(i + 1 - start).drop_last() =~= body.take(i - start));
        }
        acc = acc * 10 + d;
        i = i + 1;
    }
    proof {
        assert(body.take(n - start) =~= body);
    }
    Ok(acc)
}

} // verus!
