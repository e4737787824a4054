//! What can go wrong in a stage, and how a run's failures are reported.

use vstd::prelude::*;
use vstd::string::StringExecFns;

verus! {

/// The failure of one pipeline stage.
#[derive(Debug, Clone, PartialEq, Eq)]
pub enum StageError {
    /// The source failed; the text is the source's own account.
    Read(String),
    /// A length prefix was cut off after this many of its four bytes.
    IllegalLength(usize),
    /// The stream ended inside the nonce or the body of a frame.
    UnexpectedEof,
    /// A length prefix declared this many bytes, too few for a nonce, a tag
    /// and one byte of ciphertext.
    Format(usize),
    /// The cipher refused to seal a chunk.
    Encrypt,
    /// A frame did not authenticate.
    Decrypt,
    /// The sink failed; the text is the sink's own account.
    Write(String),
}

/// The text of one decimal digit.
pub open spec fn digit_text(d: nat) -> Seq<char> {
    if d == 0 {
        "0"@
    } else if d == 1 {
        "1"@
    } else if d == 2 {
        "2"@
    } else if d == 3 {
        "3"@
    } else if d == 4 {
        "4"@
    } else if d == 5 {
        "5"@
    } else if d == 6 {
        "6"@
    } else if d == 7 {
        "7"@
    } else if d == 8 {
        "8"@
    } else {
        "9"@
    }
}

/// The decimal notation of `n`, without sign or leading zeros.
pub open spec fn decimal_text(n: nat) -> Seq<char>
    decreases n,
{
    if n < 10 {
        digit_text(n)
    } else {
        decimal_text(n / 10) + digit_text(n % 10)
    }
}

/// The description under which a failure is reported.
pub open spec fn description(e: StageError) -> Seq<char> {
    match e {
        StageError::Read(text) => "read error: "@ + text@,
        StageError::IllegalLength(got) => "read error, illegal length "@ + decimal_text(got as nat),
        StageError::UnexpectedEof => "read error: failed to fill whole buffer"@,
        StageError::Format(declared) => "format error, illegal frame length "@ + decimal_text(
            declared as nat,
        ),
        StageError::Encrypt => "encrypt error: aead::Error"@,
        StageError::Decrypt => "decrypt error: aead::Error"@,
        StageError::Write(text) => "write error: "@ + text@,
    }
}

/// The descriptions of the stages that failed, in stage order.
pub open spec fn failures(
    reader: Result<(), StageError>,
    transform: Result<(), StageError>,
    writer: Result<(), StageError>,
) -> Seq<Seq<char>> {
    failure(reader) + failure(transform) + failure(writer)
}

/// The description of one stage's failure, or nothing where it succeeded.
pub open spec fn failure(outcome: Result<(), StageError>) -> Seq<Seq<char>> {
    match outcome {
        Ok(_) => Seq::empty(),
        Err(e) => seq![description(e)],
    }
}

fn digit(d: usize) -> (text: &'static str)
    requires
        d < 10,
    ensures
        text@ == digit_text(d as nat),
{
    if d == 0 {
        "0"
    } else if d == 1 {
        "1"
    } else if d == 2 {
        "2"
    } else if d == 3 {
        "3"
    } else if d == 4 {
        "4"
    } else if d == 5 {
        "5"
    } else if d == 6 {
        "6"
    } else if d == 7 {
        "7"
    } else if d == 8 {
        "8"
    } else {
        "9"
    }
}

/// Writes `n` in decimal.
pub fn decimal(n: usize) -> (text: String)
    ensures
        text@ == decimal_text(n as nat),
    decreases n,
{
    if n < 10 {
        String::from_str(digit(n))
    } else {
        decimal(n / 10).concat(digit(n % 10))
    }
}

impl StageError {
    /// The description under which this failure is reported.
    pub fn describe(&self) -> (text: String)
        ensures
            text@ == description(*self),
    {
        match self {
            StageError::Read(text) => String::from_str("read error: ").concat(text.as_str()),
            StageError::IllegalLength(got) => String::from_str("read error, illegal length ").concat(
                decimal(*got).as_str(),
            ),
            StageError::UnexpectedEof => String::from_str("read error: failed to fill whole buffer"),
            StageError::Format(declared) => String::from_str(
                "format error, illegal frame length ",
            ).concat(decimal(*declared).as_str()),
            StageError::Encrypt => String::from_str("encrypt error: aead::Error"),
            StageError::Decrypt => String::from_str("decrypt error: aead::Error"),
            StageError::Write(text) => String::from_str("write error: ").concat(text.as_str()),
        }
    }
}

/// Gathers the outcomes of the three stages into the outcome of the run:
/// success where every stage succeeded, else the description of every stage
/// that failed, reader first, writer last.
pub fn collect_outcomes(
    reader: Result<(), StageError>,
    transform: Result<(), StageError>,
    writer: Result<(), StageError>,
) -> (outcome: Result<(), Vec<String>>)
    ensures
        outcome.is_ok() <==> reader.is_ok() && transform.is_ok() && writer.is_ok(),
        match outcome {
            Ok(_) => true,
            Err(list) => list.deep_view() == failures(reader, transform, writer),
        },
{
    let mut list: Vec<String> = Vec::new();
    if let Err(e) = &reader {
        list.push(e.describe());
    }
    assert(list.deep_view() =~= failure(reader));
    if let Err(e) = &transform {
        list.push(e.describe());
    }
    assert(list.deep_view() =~= failure(reader) + failure(transform));
    if let Err(e) = &writer {
        list.push(e.describe());
    }
    assert(list.deep_view() =~= failures(reader, transform, writer));
    if list.is_empty() {
        Ok(())
    } else {
        Err(list)
    }
}

} // verus!
