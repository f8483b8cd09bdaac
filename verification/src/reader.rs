//! The input source: one trimmed line of text per call, so a test can feed
//! scripted input and the program can read the terminal.
//!
//! A source that can be inspected — a byte slice — models its remaining
//! input (`remaining`, guarded by `models_input`), and the contracts then
//! pin which line each call hands back: the bytes up to and including the
//! first line feed, decoded and trimmed. The terminal models nothing; over
//! it the contracts promise only the error discipline.

use vstd::prelude::*;
use vstd::utf8::{decode_utf8, valid_utf8};
use crate::PickupError;
use crate::text::{trim_str, trimmed};
use std::io::BufRead;

verus! {

/// The length of the first line of a byte stream: everything up to and
/// including the first line feed, or all of it when none remains.
pub open spec fn line_split(bytes: Seq<u8>) -> int
    decreases bytes.len(),
{
    if bytes.len() == 0 {
        0
    } else if bytes.first() == 10u8 {
        1
    } else {
        1 + line_split(bytes.drop_first())
    }
}

/// Supplies one line of trimmed text per call. At the end of the stream the
/// result is the empty string, not an error; a failure of the underlying
/// stream surfaces as `IoFailure` and nothing else. Where the source models
/// its input, each call consumes exactly the first line of what remains and
/// hands it back decoded and trimmed.
pub trait ReadInput: Sized {
    /// Whether the source behind this value models its remaining input.
    open spec fn in_models(&self) -> bool {
        false
    }

    /// The bytes the source has not yet handed out, where modeled.
    open spec fn in_remaining(&self) -> Seq<u8> {
        Seq::<u8>::empty()
    }

    /// The next line, with surrounding whitespace removed.
    fn read_input(&mut self) -> (r: Result<String, PickupError>)
        ensures
            r matches Err(e) ==> e == PickupError::IoFailure,
            (*old(self)).in_models() ==> {
                let bytes = (*old(self)).in_remaining();
                let k = line_split(bytes);
                &&& (r is Ok <==> valid_utf8(bytes.take(k)))
                &&& (r matches Ok(line) ==> {
                    &&& (*final(self)).in_models()
                    &&& line@ == trimmed(decode_utf8(bytes.take(k)))
                    &&& (*final(self)).in_remaining() == bytes.skip(k)
                })
            },
    ;
}

/// A raw stream of lines that a [`Reader`] takes its input from: the
/// terminal in the program, a byte slice in a test. A stream that can be
/// inspected models its remaining bytes.
pub trait LineSource: Sized {
    /// Whether this stream models its remaining input. The default — it
    /// does not — fits streams with no readable state, such as the
    /// terminal.
    open spec fn models_input(&self) -> bool {
        false
    }

    /// The bytes this stream has not yet handed out, where modeled.
    open spec fn remaining(&self) -> Seq<u8> {
        Seq::<u8>::empty()
    }

    /// The next line as the stream holds it, terminator included; the empty
    /// string at the end of the stream.
    fn read_raw(&mut self) -> (r: Result<String, PickupError>)
        ensures
            r matches Err(e) ==> e == PickupError::IoFailure,
            (*old(self)).models_input() ==> {
                let bytes = (*old(self)).remaining();
                let k = line_split(bytes);
                &&& (r is Ok <==> valid_utf8(bytes.take(k)))
                &&& (r matches Ok(line) ==> {
                    &&& (*final(self)).models_input()
                    &&& line@ == decode_utf8(bytes.take(k))
                    &&& (*final(self)).remaining() == bytes.skip(k)
                })
            },
    ;
}

/// The locked standard input stream, read through `std::io`.
#[verifier::external_type_specification]
#[verifier::external_body]
pub struct ExStdinLock<'a>(std::io::StdinLock<'a>);

impl<'a> LineSource for std::io::StdinLock<'a> {
    fn read_raw(&mut self) -> (r: Result<String, PickupError>) {
        bufread_line(self)
    }
}

impl<'a> LineSource for &'a [u8] {
    /// A byte slice models its input: it is the slice's contents.
    open spec fn models_input(&self) -> bool {
        true
    }

    open spec fn remaining(&self) -> Seq<u8> {
        self@
    }

    fn read_raw(&mut self) -> (r: Result<String, PickupError>) {
        slice_read_line(self)
    }
}

/// Relies on std's `BufRead::read_line`: the next line of the stream with
/// its terminator, or the empty string at the end of the stream; fails only
/// when the stream does.
#[verifier::external_body]
fn bufread_line<R: std::io::BufRead>(reader: &mut R) -> (r: Result<String, PickupError>)
    ensures
        r matches Err(e) ==> e == PickupError::IoFailure,
{
    let mut buf = String::new();
    match reader.read_line(&mut buf) {
        Ok(_) => Ok(buf),
        Err(_) => Err(PickupError::IoFailure),
    }
}

/// Relies on std's `BufRead::read_line` on a byte slice: it takes the bytes
/// up to and including the first line feed — all of them when none is left,
/// none at the end of the slice — and decodes them as UTF-8. A slice reads
/// by copying from memory and has no other failure source, so the call
/// succeeds exactly when those bytes are valid UTF-8; on a failure nothing
/// is claimed of the slice's position.
#[verifier::external_body]
fn slice_read_line<'a>(reader: &mut &'a [u8]) -> (r: Result<String, PickupError>)
    ensures
        ({
            let bytes = (*old(reader))@;
            let k = line_split(bytes);
            &&& (r is Ok <==> valid_utf8(bytes.take(k)))
            &&& (r matches Ok(line) ==> {
                &&& line@ == decode_utf8(bytes.take(k))
                &&& (*final(reader))@ == bytes.skip(k)
            })
            &&& (r matches Err(e) ==> e == PickupError::IoFailure)
        }),
{
    let mut buf = String::new();
    match reader.read_line(&mut buf) {
        Ok(_) => Ok(buf),
        Err(_) => Err(PickupError::IoFailure),
    }
}

/// The production source: any raw line stream.
pub struct Reader<R> {
    pub reader: R,
}

impl<R> Reader<R> {
    /// A source over the given stream.
    pub fn new(reader: R) -> (r: Reader<R>)
        ensures
            r.reader == reader,
    {
        Reader { reader }
    }
}

impl<R: LineSource> ReadInput for Reader<R> {
    open spec fn in_models(&self) -> bool {
        self.reader.models_input()
    }

    open spec fn in_remaining(&self) -> Seq<u8> {
        self.reader.remaining()
    }

    /// One raw line from the stream, trimmed by verified code.
    fn read_input(&mut self) -> (r: Result<String, PickupError>)
        ensures
            r matches Ok(line) ==> exists|raw: Seq<char>| line@ == trimmed(raw),
    {
        match self.reader.read_raw() {
            Ok(raw) => {
                let line = trim_str(raw.as_str());
                proof {
                    assert(line@ == trimmed(raw@));
                }
                Ok(line)
            },
            Err(e) => Err(e),
        }
    }
}

} // verus!
