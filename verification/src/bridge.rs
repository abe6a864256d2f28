//! The texts that pass between a host application, this library and the
//! typesetting tool that the host runs. Nothing here calls the tool or
//! touches memory of the host: these are the texts handed over.

use vstd::prelude::*;
use vstd::string::*;
use vstd::utf8::{decode_utf8, valid_utf8};

verus! {

/// The error with which `String::from_utf8` turns down bytes that are no
/// UTF-8.
#[verifier::external_type_specification]
#[verifier::external_body]
pub struct ExFromUtf8Error(std::string::FromUtf8Error);

/// The bytes that the error holds: those that `String::from_utf8` was asked
/// to read, which `FromUtf8Error::into_bytes` hands back.
pub uninterp spec fn held_bytes(error: std::string::FromUtf8Error) -> Seq<u8>;

/// The text that `Display` writes for the error with which
/// `String::from_utf8` turns down `bytes`.
pub uninterp spec fn complaint_text(bytes: Seq<u8>) -> Seq<char>;

/// `String::from_utf8` gives the text that valid UTF-8 encodes, and for any
/// other bytes an error that holds them.
pub assume_specification[ String::from_utf8 ](bytes: Vec<u8>) -> (r: Result<
    String,
    std::string::FromUtf8Error,
>)
    ensures
        match r {
            Ok(text) => valid_utf8(bytes@) && text@ == decode_utf8(bytes@),
            Err(error) => !valid_utf8(bytes@) && held_bytes(error) == bytes@,
        },
;

/// What `Display` writes for the error of `String::from_utf8`: a text that
/// the bytes that were turned down decide.
#[verifier::external_body]
fn complaint(error: &std::string::FromUtf8Error) -> (text: String)
    ensures
        text@ == complaint_text(held_bytes(*error)),
{
    format!("{:#}", error)
}

/// The text that stands for `bytes`: the text they encode in UTF-8, or else
/// the description of what is wrong with them.
pub open spec fn stream_text(bytes: Seq<u8>) -> Seq<char> {
    if valid_utf8(bytes) {
        decode_utf8(bytes)
    } else {
        complaint_text(bytes)
    }
}

/// The report on one run of the tool, from what it wrote to its output and
/// to its error stream.
pub open spec fn report_text(output: Seq<char>, error: Seq<char>) -> Seq<char> {
    "Output: "@ + output + "\nError: "@ + error
}

/// The reply to a call that is only echoed.
pub fn echo_reply(call: &str) -> (text: String)
    ensures
        text@ == "Received:"@ + call@,
{
    let mut text = String::from_str("Received:");
    text.append(call);
    text
}

/// `text` closed by the NUL character, as a host that reads C strings wants
/// it.
pub fn terminated(text: &str) -> (closed: String)
    ensures
        closed@ == text@ + "\0"@,
{
    let mut closed = String::from_str(text);
    closed.append("\0");
    closed
}

/// Where the typesetting tool lies, seen from the directory the caller runs
/// in: the root of the host application if it calls from afar, else the
/// directory of this library.
pub fn bin_location(called_from_afar: bool) -> (path: &'static str)
    ensures
        path@ == if called_from_afar {
            "./src/app/utils/interop/library/src/graphemy"@
        } else {
            "./src/graphemy"@
        },
{
    if called_from_afar {
        "./src/app/utils/interop/library/src/graphemy"
    } else {
        "./src/graphemy"
    }
}

/// The arguments with which the tool typesets `text` in the language that
/// `file` describes.
pub fn typeset_args<'a>(file: &'a str, text: &'a str) -> (args: Vec<&'a str>)
    ensures
        args.deep_view() == seq!["typeset"@, "--lang"@, file@, "from-arg"@, text@],
{
    let mut args: Vec<&'a str> = Vec::new();
    args.push("typeset");
    args.push("--lang");
    args.push(file);
    args.push("from-arg");
    args.push(text);
    args
}

/// The report on one run of the tool: what it wrote to its output, and what
/// it wrote to its error stream, each under its heading.
pub fn report(output: &str, error: &str) -> (text: String)
    ensures
        text@ == report_text(output@, error@),
{
    let mut text = String::from_str("Output: ");
    text.append(output);
    text.append("\nError: ");
    text.append(error);
    text
}

/// Reads `bytes` as UTF-8: the text they encode, or else a description of
/// what is wrong with them.
pub fn decode(bytes: Vec<u8>) -> (r: Result<String, String>)
    ensures
        match r {
            Ok(text) => valid_utf8(bytes@) && text@ == decode_utf8(bytes@),
            Err(description) => !valid_utf8(bytes@) && description@ == complaint_text(bytes@),
        },
{
    match String::from_utf8(bytes) {
        Ok(text) => Ok(text),
        Err(error) => Err(complaint(&error)),
    }
}

/// The text that `bytes` encode in UTF-8. Bytes that encode none are no
/// failure here: the description of what is wrong with them takes the
/// place of the text.
pub fn decoded(bytes: Vec<u8>) -> (text: String)
    ensures
        text@ == stream_text(bytes@),
{
    match decode(bytes) {
        Ok(text) => text,
        Err(description) => description,
    }
}

/// The report on one run of the tool, from the bytes it wrote to its output
/// and to its error stream. A stream that is no UTF-8 is reported by the
/// description of what is wrong with it, and the other stream all the same.
pub fn typeset_report(stdout: Vec<u8>, stderr: Vec<u8>) -> (text: String)
    ensures
        text@ == report_text(stream_text(stdout@), stream_text(stderr@)),
{
    let output = decoded(stdout);
    let error = decoded(stderr);
    report(output.as_str(), error.as_str())
}

} // verus!
