//! The output sink: user-facing text goes through a [`Print`] value, so a
//! test can capture it and the program can hand it the terminal.
//!
//! A sink that can be inspected — a byte buffer — models the text it has
//! taken (`taken`, guarded by `models_output`), and the contracts of
//! [`Print::print`] and [`Print::println`] then pin what reaches it: the
//! text's bytes exactly, with exactly one line terminator after them for
//! `println`. The terminal models nothing; over it the contracts promise
//! only the error discipline.

use vstd::prelude::*;
use vstd::string::StringExecFns;
use vstd::string::StringSliceAdditionalSpecFns;
use vstd::utf8::encode_utf8;
use crate::PickupError;
use crate::text::push_char;
use std::io::Write;

verus! {

/// Writes user-facing text. A failure of the underlying stream surfaces as
/// `IoFailure`; nothing else may be reported. Where the sink models its
/// output, a successful call hands it exactly the text's bytes — `println`
/// with one line terminator appended.
pub trait Print: Sized {
    /// Whether the sink behind this value models the text it takes.
    open spec fn out_models(&self) -> bool {
        false
    }

    /// The bytes the sink behind this value has taken, where modeled.
    open spec fn out_taken(&self) -> Seq<u8> {
        Seq::<u8>::empty()
    }

    /// Whether the sink behind this value can never fail, as a byte buffer
    /// cannot.
    open spec fn out_never_fails(&self) -> bool {
        false
    }

    /// Writes the text exactly, without a line terminator.
    fn print(&mut self, text: &str) -> (r: Result<(), PickupError>)
        ensures
            r matches Err(e) ==> e == PickupError::IoFailure,
            (*old(self)).out_models() ==> (*final(self)).out_models(),
            (*old(self)).out_models() && r is Ok ==> (*final(self)).out_taken() == (*old(self)).out_taken()
                + text.spec_bytes(),
            (*old(self)).out_models() && r is Err ==> (*final(self)).out_taken() == (*old(self)).out_taken(),
            (*old(self)).out_never_fails() ==> r is Ok && (*final(self)).out_never_fails(),
    ;

    /// Writes the text followed by exactly one line terminator.
    fn println(&mut self, text: &str) -> (r: Result<(), PickupError>)
        ensures
            r matches Err(e) ==> e == PickupError::IoFailure,
            (*old(self)).out_models() ==> (*final(self)).out_models(),
            (*old(self)).out_models() && r is Ok ==> (*final(self)).out_taken() == (*old(self)).out_taken()
                + encode_utf8(text@ + seq!['\n']),
            (*old(self)).out_models() && r is Err ==> (*final(self)).out_taken() == (*old(self)).out_taken(),
            (*old(self)).out_never_fails() ==> r is Ok && (*final(self)).out_never_fails(),
    ;
}

/// A raw stream of text that a [`Printer`] writes to: the terminal in the
/// program, a byte buffer in a test. A stream that can be inspected models
/// the bytes it has taken; a modeling stream takes each text whole or not
/// at all.
pub trait SinkStream: Sized {
    /// Whether this stream models the text it takes. The default — it does
    /// not — fits streams with no readable state, such as the terminal.
    open spec fn models_output(&self) -> bool {
        false
    }

    /// The bytes this stream has taken, where modeled.
    open spec fn taken(&self) -> Seq<u8> {
        Seq::<u8>::empty()
    }

    /// Whether this stream can never fail, as a byte buffer cannot. The
    /// default — it can — fits the terminal.
    open spec fn never_fails(&self) -> bool {
        false
    }

    /// Hands the text to the stream as it is.
    fn send(&mut self, text: &str) -> (r: Result<(), PickupError>)
        ensures
            r matches Err(e) ==> e == PickupError::IoFailure,
            (*old(self)).models_output() ==> (*final(self)).models_output(),
            (*old(self)).models_output() && r is Ok ==> (*final(self)).taken() == (*old(self)).taken()
                + text.spec_bytes(),
            (*old(self)).models_output() && r is Err ==> (*final(self)).taken() == (*old(self)).taken(),
            (*old(self)).never_fails() ==> r is Ok && (*final(self)).never_fails(),
    ;
}

/// The standard output stream, written through `std::io`.
#[verifier::external_type_specification]
#[verifier::external_body]
pub struct ExStdout(std::io::Stdout);

impl SinkStream for std::io::Stdout {
    fn send(&mut self, text: &str) -> (r: Result<(), PickupError>) {
        stdout_write(self, text)
    }
}

/// Relies on std's `write!` on `Stdout`: writes the text verbatim, and
/// fails only when the stream does.
#[verifier::external_body]
fn stdout_write(out: &mut std::io::Stdout, text: &str) -> (r: Result<(), PickupError>)
    ensures
        r matches Err(e) ==> e == PickupError::IoFailure,
{
    match write!(out, "{}", text) {
        Ok(()) => Ok(()),
        Err(_) => Err(PickupError::IoFailure),
    }
}

impl SinkStream for Vec<u8> {
    /// A byte buffer models its output: it is the buffer's contents.
    open spec fn models_output(&self) -> bool {
        true
    }

    open spec fn taken(&self) -> Seq<u8> {
        self@
    }

    open spec fn never_fails(&self) -> bool {
        true
    }

    /// A byte buffer takes every byte of the text and cannot fail.
    fn send(&mut self, text: &str) -> (r: Result<(), PickupError>)
        ensures
            r is Ok,
    {
        let bytes = text.as_bytes();
        let m = bytes.len();
        let mut i: usize = 0;
        while i < m
            invariant
                i <= m,
                m == text.spec_bytes().len(),
                bytes@ == text.spec_bytes(),
                self@ == old(self)@ + text.spec_bytes().take(i as int),
            decreases m - i,
        {
            self.push(bytes[i]);
            proof {
                assert(old(self)@ + text.spec_bytes().take(i as int) + seq![
                    text.spec_bytes()[i as int],
                ] =~= old(self)@ + text.spec_bytes().take(i + 1));
            }
            i = i + 1;
        }
        proof {
            assert(text.spec_bytes().take(m as int) =~= text.spec_bytes());
        }
        Ok(())
    }
}

impl<'a, T: SinkStream> SinkStream for &'a mut T {
    /// A borrowed stream models whatever the stream behind it models.
    open spec fn models_output(&self) -> bool {
        (**self).models_output()
    }

    open spec fn taken(&self) -> Seq<u8> {
        (**self).taken()
    }

    open spec fn never_fails(&self) -> bool {
        (**self).never_fails()
    }

    fn send(&mut self, text: &str) -> (r: Result<(), PickupError>) {
        (*self).send(text)
    }
}

/// The production sink: any raw stream.
pub struct Printer<W> {
    pub writer: W,
}

impl<W> Printer<W> {
    /// A sink over the given stream.
    pub fn new(writer: W) -> (r: Printer<W>)
        ensures
            r.writer == writer,
    {
        Printer { writer }
    }
}

impl<W: SinkStream> Print for Printer<W> {
    open spec fn out_models(&self) -> bool {
        self.writer.models_output()
    }

    open spec fn out_taken(&self) -> Seq<u8> {
        self.writer.taken()
    }

    open spec fn out_never_fails(&self) -> bool {
        self.writer.never_fails()
    }

    fn print(&mut self, text: &str) -> (r: Result<(), PickupError>) {
        self.writer.send(text)
    }

    fn println(&mut self, text: &str) -> (r: Result<(), PickupError>) {
        let mut line = String::from_str(text);
        push_char(&mut line, '\n');
        proof {
            assert(line@ =~= text@ + seq!['\n']);
        }
        self.writer.send(line.as_str())
    }
}

} // verus!
