use vstd::prelude::*;
use vstd::utf8::{decode_utf8, valid_utf8};

use crate::error::{Error, Shape};
use crate::lexical::{after_sign, after_sign_exec, digit_run, digit_run_exec, is_exponent_mark};

verus! {

/// A decoded reply line.
#[derive(Debug, Clone, PartialEq)]
pub enum CommandResult {
    /// No data: only for commands that let the instrument stay silent.
    Nothing,
    /// A one-digit flag, `1` or `0`.
    Boolean(bool),
    /// A number in decimal or exponent notation, kept as received so that no
    /// digit is lost; it always reads as a floating-point literal.
    Number(String),
    /// Any other text.
    Text(String),
}

/// The mathematical value of a `CommandResult`.
pub enum ResultView {
    Nothing,
    Boolean(bool),
    Number(Seq<char>),
    Text(Seq<char>),
}

impl ResultView {
    pub open spec fn shape(self) -> Shape {
        match self {
            ResultView::Nothing => Shape::Nothing,
            ResultView::Boolean(_) => Shape::Boolean,
            ResultView::Number(_) => Shape::Number,
            ResultView::Text(_) => Shape::Text,
        }
    }
}

impl View for CommandResult {
    type V = ResultView;

    open spec fn view(&self) -> ResultView {
        match self {
            CommandResult::Nothing => ResultView::Nothing,
            CommandResult::Boolean(b) => ResultView::Boolean(*b),
            CommandResult::Number(s) => ResultView::Number(s@),
            CommandResult::Text(s) => ResultView::Text(s@),
        }
    }
}

/// `s` from index `i` on is an exponent value: an optional sign, then at least one
/// digit, up to the end.
pub open spec fn exponent_tail(s: Seq<u8>, i: int) -> bool {
    let j = after_sign(s, i);
    digit_run(s, j) > 0 && j + digit_run(s, j) == s.len()
}

/// `s` is a number in standard decimal or exponent notation:
/// `[sign] digits [. digits] [(e|E) [sign] digits]`, with at least one digit
/// before the exponent, on either side of the point.
pub open spec fn is_number_literal(s: Seq<u8>) -> bool {
    let a = after_sign(s, 0);
    let int_len = digit_run(s, a);
    let b = a + int_len;
    let has_point = b < s.len() && s[b] == 46;
    let frac_len = if has_point {
        digit_run(s, b + 1)
    } else {
        0
    };
    let c = if has_point {
        b + 1 + frac_len
    } else {
        b
    };
    int_len + frac_len > 0 && (c == s.len() || (is_exponent_mark(s[c]) && exponent_tail(s, c + 1)))
}

/// The line without one trailing `\r\n`, where it has one.
pub open spec fn strip_terminator(line: Seq<u8>) -> Seq<u8> {
    if line.len() >= 2 && line[line.len() - 2] == 13 && line[line.len() - 1] == 10 {
        line.subrange(0, line.len() - 2)
    } else {
        line
    }
}

/// What a reply line decodes to. Checked in this order: empty, the flag digits
/// `1` and `0`, the encoding, a number, and text for everything else.
pub open spec fn decoded(line: Seq<u8>, allow_absent: bool) -> Result<ResultView, Error> {
    let s = strip_terminator(line);
    if s.len() == 0 {
        if allow_absent {
            Ok(ResultView::Nothing)
        } else {
            Err(Error::EmptyResponse)
        }
    } else if s == seq![49u8] {
        Ok(ResultView::Boolean(true))
    } else if s == seq![48u8] {
        Ok(ResultView::Boolean(false))
    } else if !valid_utf8(s) {
        Err(Error::MalformedResponseEncoding)
    } else if is_number_literal(s) {
        Ok(ResultView::Number(decode_utf8(s)))
    } else {
        Ok(ResultView::Text(decode_utf8(s)))
    }
}

/// A reply that is exactly the digit `1` or `0` (with or without its `\r\n`)
/// decodes to a boolean, never to a number, whether or not a missing reply is
/// allowed.
pub proof fn lemma_flag_digits_decode_as_booleans(allow_absent: bool)
    ensures
        decoded(seq![49u8], allow_absent) == Ok::<ResultView, Error>(ResultView::Boolean(true)),
        decoded(seq![48u8], allow_absent) == Ok::<ResultView, Error>(ResultView::Boolean(false)),
        decoded(seq![49u8, 13u8, 10u8], allow_absent) == Ok::<ResultView, Error>(
            ResultView::Boolean(true),
        ),
        decoded(seq![48u8, 13u8, 10u8], allow_absent) == Ok::<ResultView, Error>(
            ResultView::Boolean(false),
        ),
{
    assert(strip_terminator(seq![49u8, 13u8, 10u8]) =~= seq![49u8]);
    assert(strip_terminator(seq![48u8, 13u8, 10u8]) =~= seq![48u8]);
    assert(seq![49u8] != seq![48u8]) by {
        assert(seq![49u8][0] != seq![48u8][0]);
    }
}

/// Relies on `String::from_utf8`: it takes exactly the valid UTF-8 byte
/// sequences, and the string holds the characters they encode.
#[verifier::external_body]
fn string_from_utf8(bytes: Vec<u8>) -> (r: Option<String>)
    ensures
        r is Some <==> valid_utf8(bytes@),
        r matches Some(s) ==> s@ == decode_utf8(bytes@),
{
    String::from_utf8(bytes).ok()
}

/// Whether the bytes spell a number in decimal or exponent notation.
pub fn number_literal(s: &[u8]) -> (r: bool)
    ensures
        r == is_number_literal(s@),
{
    let len = s.len();
    let a = after_sign_exec(s, 0);
    let int_len = digit_run_exec(s, a);
    let b = a + int_len;
    let has_point = b < s.len() && s[b] == 46;
    let frac_len = if has_point {
        digit_run_exec(s, b + 1)
    } else {
        0
    };
    let c = if has_point {
        b + 1 + frac_len
    } else {
        b
    };
    if int_len + frac_len == 0 {
        return false;
    }
    if c == len {
        return true;
    }
    if !(s[c] == 69 || s[c] == 101) {
        return false;
    }
    let j = after_sign_exec(s, c + 1);
    let exp_len = digit_run_exec(s, j);
    exp_len > 0 && j + exp_len == s.len()
}

impl CommandResult {
    /// Decodes one reply line, as read from the port with or without its
    /// `\r\n`. An empty line is `Nothing` where `allow_absent` holds and an
    /// error otherwise.
    pub fn parse_line(line: &[u8], allow_absent: bool) -> (r: Result<CommandResult, Error>)
        ensures
            decoded(line@, allow_absent) matches Ok(v) ==> (r matches Ok(x) && x@ == v),
            decoded(line@, allow_absent) matches Err(e) ==> r == Err::<CommandResult, Error>(e),
    {
        let n = line.len();
        let end: usize = if n >= 2 && line[n - 2] == 13 && line[n - 1] == 10 {
            n - 2
        } else {
            n
        };
        let mut body: Vec<u8> = Vec::new();
        let mut i: usize = 0;
        while i < end
            invariant
                end <= n == line@.len(),
                i <= end,
                body@ == line@.subrange(0, i as int),
            decreases end - i,
        {
            body.push(line[i]);
            i = i + 1;
            assert(body@ =~= line@.subrange(0, i as int));
        }
        assert(body@ =~= strip_terminator(line@));
        if end == 0 {
            return if allow_absent {
                Ok(CommandResult::Nothing)
            } else {
                Err(Error::EmptyResponse)
            };
        }
        if end == 1 && body[0] == 49 {
            assert(body@ =~= seq![49u8]);
            return Ok(CommandResult::Boolean(true));
        }
        if end == 1 && body[0] == 48 {
            assert(body@ =~= seq![48u8]);
            return Ok(CommandResult::Boolean(false));
        }
        assert(body@ != seq![49u8] && body@ != seq![48u8]) by {
            if end == 1 {
                assert(seq![49u8][0] == 49);
                assert(seq![48u8][0] == 48);
            } else {
                assert(seq![49u8].len() == 1);
            }
        }
        let numeric = number_literal(body.as_slice());
        match string_from_utf8(body) {
            None => Err(Error::MalformedResponseEncoding),
            Some(text) => if numeric {
                Ok(CommandResult::Number(text))
            } else {
                Ok(CommandResult::Text(text))
            },
        }
    }

    pub fn shape(&self) -> (r: Shape)
        ensures
            r == self@.shape(),
    {
        match self {
            CommandResult::Nothing => Shape::Nothing,
            CommandResult::Boolean(_) => Shape::Boolean,
            CommandResult::Number(_) => Shape::Number,
            CommandResult::Text(_) => Shape::Text,
        }
    }

    /// The flag of a `Boolean` reply; any other shape is an error naming both.
    pub fn try_into_bool(self) -> (r: Result<bool, Error>)
        ensures
            self@ matches ResultView::Boolean(b) ==> r == Ok::<bool, Error>(b),
            !(self@ is Boolean) ==> r == Err::<bool, Error>(
                Error::UnexpectedResponseShape { expected: Shape::Boolean, actual: self@.shape() },
            ),
    {
        match self {
            CommandResult::Boolean(b) => Ok(b),
            other => Err(Error::UnexpectedResponseShape { expected: Shape::Boolean, actual: other.shape() }),
        }
    }

    /// The literal of a `Number` reply; any other shape is an error naming both.
    pub fn try_into_number(self) -> (r: Result<String, Error>)
        ensures
            self@ matches ResultView::Number(t) ==> (r matches Ok(s) && s@ == t),
            !(self@ is Number) ==> r == Err::<String, Error>(
                Error::UnexpectedResponseShape { expected: Shape::Number, actual: self@.shape() },
            ),
    {
        match self {
            CommandResult::Number(s) => Ok(s),
            other => Err(Error::UnexpectedResponseShape { expected: Shape::Number, actual: other.shape() }),
        }
    }

    /// The text of a `Text` reply; any other shape is an error naming both.
    pub fn try_into_text(self) -> (r: Result<String, Error>)
        ensures
            self@ matches ResultView::Text(t) ==> (r matches Ok(s) && s@ == t),
            !(self@ is Text) ==> r == Err::<String, Error>(
                Error::UnexpectedResponseShape { expected: Shape::Text, actual: self@.shape() },
            ),
    {
        match self {
            CommandResult::Text(s) => Ok(s),
            other => Err(Error::UnexpectedResponseShape { expected: Shape::Text, actual: other.shape() }),
        }
    }
}

} // verus!
