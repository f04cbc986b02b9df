//! The random word: one line of the word list, drawn afresh for each request.

use rand::seq::IteratorRandom;
use vstd::prelude::*;
use vstd::utf8::{decode_utf8, valid_utf8};
use crate::text::texts;

verus! {

/// Why no word can be given.
#[derive(Debug, Clone, Copy, PartialEq, Eq, Structural)]
pub enum WordError {
    /// The word list could not be opened or read.
    Unavailable,
    /// A line of the word list is not UTF-8.
    Malformed,
    /// The word list holds no line.
    Empty,
}

/// What came of reading the word list.
#[derive(Debug)]
pub enum WordFile {
    /// The file could not be opened or read.
    Unavailable,
    /// The bytes of the file.
    Contents(Vec<u8>),
}

/// What is sent back for a request: a status and a body of plain text.
#[derive(Debug)]
pub struct Reply {
    pub status: u16,
    pub body: String,
}

impl WordError {
    /// The text that tells the client what went wrong.
    pub open spec fn diagnostic(self) -> Seq<char> {
        match self {
            WordError::Unavailable => "the word list could not be read"@,
            WordError::Malformed => "the word list holds a line that is not text"@,
            WordError::Empty => "the word list holds no line"@,
        }
    }

    /// The diagnostic as a string.
    pub fn message(&self) -> (text: String)
        ensures
            text@ == self.diagnostic(),
    {
        match self {
            WordError::Unavailable => "the word list could not be read".to_string(),
            WordError::Malformed => "the word list holds a line that is not text".to_string(),
            WordError::Empty => "the word list holds no line".to_string(),
        }
    }
}

/// The byte that ends a line.
pub const NEWLINE: u8 = 10;

/// The byte that is dropped where it stands just before the end of a line.
pub const CARRIAGE_RETURN: u8 = 13;

/// How many bytes stand before the first newline, or the length of `bytes`
/// where there is none.
pub open spec fn line_end(bytes: Seq<u8>) -> nat
    decreases bytes.len(),
{
    if bytes.len() == 0 || bytes[0] == NEWLINE {
        0
    } else {
        1 + line_end(bytes.drop_first())
    }
}

/// A line without the carriage return at its end, if it has one.
pub open spec fn without_return(line: Seq<u8>) -> Seq<u8> {
    if line.len() > 0 && line.last() == CARRIAGE_RETURN {
        line.drop_last()
    } else {
        line
    }
}

/// The lines of a file. A newline ends a line and belongs to none; a carriage
/// return just before it is dropped with it. What follows the last newline is
/// a line too, taken as it stands, unless nothing follows.
pub open spec fn byte_lines(bytes: Seq<u8>) -> Seq<Seq<u8>>
    decreases bytes.len(),
{
    let end = line_end(bytes) as int;
    if bytes.len() == 0 {
        Seq::empty()
    } else if end >= bytes.len() {
        seq![bytes]
    } else {
        seq![without_return(bytes.take(end))] + byte_lines(bytes.skip(end + 1))
    }
}

/// Every line is UTF-8.
pub open spec fn all_text(lines: Seq<Seq<u8>>) -> bool {
    forall|i: int| 0 <= i < lines.len() ==> valid_utf8(#[trigger] lines[i])
}

/// The lines as texts.
pub open spec fn decoded(lines: Seq<Seq<u8>>) -> Seq<Seq<char>> {
    lines.map_values(|line: Seq<u8>| decode_utf8(line))
}

/// A line ends where the first newline stands, or where the bytes end.
proof fn line_end_found(bytes: Seq<u8>, end: int)
    requires
        0 <= end <= bytes.len(),
        forall|k: int| 0 <= k < end ==> bytes[k] != NEWLINE,
        end < bytes.len() ==> bytes[end] == NEWLINE,
    ensures
        line_end(bytes) == end,
    decreases bytes.len(),
{
    if end > 0 {
        assert(bytes[0] != NEWLINE);
        line_end_found(bytes.drop_first(), end - 1);
    }
}

/// A file holds no line exactly when it holds no byte.
pub proof fn no_line_means_no_byte(bytes: Seq<u8>)
    ensures
        byte_lines(bytes).len() == 0 <==> bytes.len() == 0,
{
}

/// No line holds a newline.
pub proof fn lines_hold_no_newline(bytes: Seq<u8>, i: int, k: int)
    requires
        0 <= i < byte_lines(bytes).len(),
        0 <= k < byte_lines(bytes)[i].len(),
    ensures
        byte_lines(bytes)[i][k] != NEWLINE,
    decreases bytes.len(),
{
    let end = line_end(bytes) as int;
    line_end_bounds(bytes);
    if end < bytes.len() && i > 0 {
        lines_hold_no_newline(bytes.skip(end + 1), i - 1, k);
    }
}

/// The first line ends within the bytes, and holds no newline.
proof fn line_end_bounds(bytes: Seq<u8>)
    ensures
        line_end(bytes) <= bytes.len(),
        forall|k: int| 0 <= k < line_end(bytes) ==> bytes[k] != NEWLINE,
        line_end(bytes) < bytes.len() ==> bytes[line_end(bytes) as int] == NEWLINE,
    decreases bytes.len(),
{
    if !(bytes.len() == 0 || bytes[0] == NEWLINE) {
        let rest = bytes.drop_first();
        line_end_bounds(rest);
        assert forall|k: int| 0 <= k < line_end(bytes) implies bytes[k] != NEWLINE by {
            if k > 0 {
                assert(bytes[k] == rest[k - 1]);
            }
        }
        assert(line_end(bytes) < bytes.len() ==> bytes[line_end(bytes) as int] == rest[line_end(
            rest,
        ) as int]);
    }
}

/// Reads bytes as a string.
///
/// Calls `String::from_utf8`. Taken on trust: it gives a string exactly when
/// the bytes are UTF-8, and the string then holds the characters that the
/// bytes encode.
#[verifier::external_body]
fn decode_line(bytes: Vec<u8>) -> (text: Option<String>)
    ensures
        text is Some <==> valid_utf8(bytes@),
        text matches Some(line) ==> line@ == decode_utf8(bytes@),
{
    String::from_utf8(bytes).ok()
}

/// Splits the word list into its lines, each read as text. Lines are taken
/// as they stand: a blank line is a line like any other. One line that is not
/// UTF-8 spoils the list.
pub fn word_lines(bytes: &[u8]) -> (outcome: Result<Vec<String>, WordError>)
    ensures
        match outcome {
            Ok(lines) => all_text(byte_lines(bytes@)) && texts(lines@) == decoded(
                byte_lines(bytes@),
            ),
            Err(error) => error == WordError::Malformed && !all_text(byte_lines(bytes@)),
        },
{
    let n: usize = bytes.len();
    let mut lines: Vec<String> = Vec::new();
    let mut start: usize = 0;
    let ghost mut done: Seq<Seq<u8>> = Seq::empty();
    proof {
        assert(bytes@.skip(0) =~= bytes@);
        assert(texts(lines@) =~= decoded(done));
    }
    while start < n
        invariant
            n == bytes@.len(),
            start <= n,
            byte_lines(bytes@) == done + byte_lines(bytes@.skip(start as int)),
            all_text(done),
            texts(lines@) == decoded(done),
        decreases n - start,
    {
        let ghost rest = bytes@.skip(start as int);
        let mut line: Vec<u8> = Vec::new();
        let mut end: usize = start;
        while end < n && bytes[end] != NEWLINE
            invariant
                n == bytes@.len(),
                start <= end <= n,
                line@ == bytes@.subrange(start as int, end as int),
                forall|k: int| start <= k < end ==> bytes@[k] != NEWLINE,
            decreases n - end,
        {
            line.push(bytes[end]);
            proof {
                assert(line@ =~= bytes@.subrange(start as int, end + 1));
            }
            end += 1;
        }
        proof {
            line_end_found(rest, end - start);
            assert(rest.take(end - start) =~= line@);
        }
        let next: usize;
        if end < n {
            let len: usize = line.len();
            if len > 0 && line[len - 1] == CARRIAGE_RETURN {
                line.pop();
            }
            next = end + 1;
            proof {
                assert(rest.skip(end - start + 1) =~= bytes@.skip(next as int));
            }
        } else {
            next = end;
            proof {
                assert(line@ =~= rest);
                assert(byte_lines(bytes@.skip(next as int)) =~= Seq::<Seq<u8>>::empty());
            }
        }
        let ghost current = line@;
        proof {
            assert(byte_lines(rest) =~= seq![current] + byte_lines(bytes@.skip(next as int)));
            assert(byte_lines(bytes@) =~= done.push(current) + byte_lines(
                bytes@.skip(next as int),
            ));
        }
        match decode_line(line) {
            Some(text) => {
                let ghost read = texts(lines@);
                lines.push(text);
                proof {
                    assert(texts(lines@) =~= read.push(text@));
                    assert(decoded(done.push(current)) =~= decoded(done).push(
                        decode_utf8(current),
                    ));
                    done = done.push(current);
                }
            },
            None => {
                proof {
                    assert(byte_lines(bytes@)[done.len() as int] == current);
                }
                return Err(WordError::Malformed);
            },
        }
        start = next;
    }
    proof {
        assert(byte_lines(bytes@) =~= done);
    }
    Ok(lines)
}

/// Draws a position below `count`, each with the same chance.
///
/// Calls `rand::seq::IteratorRandom::choose` on the range from zero up to
/// `count`, with the generator of `rand::thread_rng`. Taken on trust: nothing
/// is drawn from an empty range and nothing else gives `None`, and what is
/// drawn lies in the range. Which position comes is left open. The generator
/// is seeded by the system on a thread's first draw, and `rand` panics where
/// the system has no seed to give.
#[verifier::external_body]
fn choose_index(count: usize) -> (choice: Option<usize>)
    ensures
        choice is None <==> count == 0,
        choice matches Some(index) ==> index < count,
{
    (0..count).choose(&mut rand::thread_rng())
}

/// The line at the drawn position, unchanged; without a position there was
/// no line to draw from.
pub fn select_line(lines: &Vec<String>, choice: Option<usize>) -> (outcome: Result<
    String,
    WordError,
>)
    requires
        choice matches Some(index) ==> index < lines@.len(),
    ensures
        match choice {
            Some(index) => outcome matches Ok(word) && word@ == lines@[index as int]@,
            None => outcome == Err::<String, WordError>(WordError::Empty),
        },
{
    match choice {
        Some(index) => Ok(lines[index].clone()),
        None => Err(WordError::Empty),
    }
}

/// One of the lines, drawn at random and unchanged, or the error of a list
/// without lines.
pub fn draw_line(lines: &Vec<String>) -> (outcome: Result<String, WordError>)
    ensures
        match outcome {
            Ok(word) => texts(lines@).contains(word@),
            Err(error) => error == WordError::Empty && lines@.len() == 0,
        },
{
    let choice: Option<usize> = choose_index(lines.len());
    let outcome = select_line(lines, choice);
    proof {
        if let Some(index) = choice {
            assert(texts(lines@)[index as int] == lines@[index as int]@);
        }
    }
    outcome
}

/// One line of the word list, drawn at random: exactly as it stands in the
/// file, with nothing added and nothing trimmed. A file that could not be
/// read, a line that is not text, and a file without lines give their error
/// instead, in this order of precedence.
pub fn rand_five_letter(file: &WordFile) -> (outcome: Result<String, WordError>)
    ensures
        match *file {
            WordFile::Unavailable => outcome == Err::<String, WordError>(WordError::Unavailable),
            WordFile::Contents(bytes) => if !all_text(byte_lines(bytes@)) {
                outcome == Err::<String, WordError>(WordError::Malformed)
            } else if bytes@.len() == 0 {
                outcome == Err::<String, WordError>(WordError::Empty)
            } else {
                outcome matches Ok(word) && decoded(byte_lines(bytes@)).contains(word@)
            },
        },
{
    match file {
        WordFile::Unavailable => Err(WordError::Unavailable),
        WordFile::Contents(bytes) => {
            proof {
                no_line_means_no_byte(bytes@);
            }
            match word_lines(bytes.as_slice()) {
                Ok(lines) => {
                    assert(texts(lines@).len() == byte_lines(bytes@).len());
                    draw_line(&lines)
                },
                Err(error) => Err(error),
            }
        },
    }
}

/// The reply to a request for a word: the word with status 200, or the
/// error's diagnostic with status 500. An error fails the one request and
/// nothing else.
pub fn word_reply(outcome: Result<String, WordError>) -> (reply: Reply)
    ensures
        match outcome {
            Ok(word) => reply.status == 200 && reply.body@ == word@,
            Err(error) => reply.status == 500 && reply.body@ == error.diagnostic(),
        },
{
    match outcome {
        Ok(word) => Reply { status: 200, body: word },
        Err(error) => Reply { status: 500, body: error.message() },
    }
}

} // verus!
