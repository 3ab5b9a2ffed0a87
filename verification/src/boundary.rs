//! The boundary operations: evaluate source text, export the result as JSON
//! text or as the binary wire format, and report failures through an error
//! slot scoped to one `Boundary` value.

use vstd::prelude::*;
use vstd::string::StringExecFns;

use colorchoice::ColorChoice;
use nickel_lang_core::error::report::report_as_str;
use nickel_lang_core::eval::cache::CacheImpl;
use nickel_lang_core::eval::value::NickelValue;
use nickel_lang_core::program::ProgramBuilder;
use nickel_lang_core::serialize;
use nickel_lang_core::serialize::ExportFormat;

use crate::encode::encode_value;
use crate::encode::wire;
use crate::value::Value;
use crate::value::check_wf;
use crate::value::wf;

verus! {

#[verifier::external_type_specification]
#[verifier::external_body]
pub struct ExNickelValue(NickelValue);

/// Relies on nickel_lang_core: `ProgramBuilder::add_source_string` and
/// `build` register the source as the only input, with warnings and trace
/// output discarded (`NullReporter`, `io::sink`); `Program::eval_full_for_export`
/// parses and fully evaluates it; `error::report::report_as_str` renders a
/// parse or evaluation failure as diagnostic text.
#[verifier::external_body]
fn eval_source(code: &str) -> (r: Result<NickelValue, String>) {
    let built = ProgramBuilder::new().add_source_string(code, "<memory>").build::<CacheImpl>();
    let mut program = match built {
        Ok(p) => p,
        Err(e) => return Err(format!("Parse error: {}", e)),
    };
    match program.eval_full_for_export() {
        Ok(value) => Ok(value),
        Err(e) => Err(report_as_str(&mut program.files(), e, ColorChoice::Never)),
    }
}

/// Relies on nickel_lang_core's `serialize::to_string` with the JSON format:
/// it returns JSON text for a serializable value tree and an export error for
/// a tree that JSON cannot represent (for example a function value).
#[verifier::external_body]
fn export_json(value: &NickelValue) -> (r: Result<String, String>) {
    match serialize::to_string(ExportFormat::Json, value) {
        Ok(text) => Ok(text),
        Err(e) => Err(format!("Serialization error: {:?}", e)),
    }
}

/// An owned byte buffer plus its length, handed to the caller as a single
/// unit as the result of a successful binary export.
pub struct NativeBuffer {
    pub data: Vec<u8>,
    pub len: usize,
}

/// The message recorded when a caller hands in no source text at all.
pub open spec fn null_source_msg() -> Seq<char> {
    "null source: nothing to evaluate"@
}

/// One boundary: its error slot holds the most recent failure message.
///
/// A host keeps one `Boundary` per thread; values on different threads never
/// share a slot. The slot is written only on failure paths and deliberately
/// not cleared by a later success.
pub struct Boundary {
    last_error: Option<String>,
}

impl Boundary {
    /// The current content of the error slot.
    pub closed spec fn error_msg(self) -> Option<Seq<char>> {
        match self.last_error {
            Some(s) => Some(s@),
            None => None,
        }
    }

    /// A fresh boundary whose error slot is empty.
    pub fn new() -> (b: Boundary)
        ensures
            b.error_msg() is None,
    {
        Boundary { last_error: None }
    }

    /// Replace the error slot's content with `msg`.
    pub fn set_error(&mut self, msg: String)
        ensures
            final(self).error_msg() == Some(msg@),
    {
        self.last_error = Some(msg);
    }

    /// Record a failure, substituting a fixed message when the diagnostic
    /// came back empty, so that a failure is always observable.
    fn record_failure(&mut self, msg: String)
        ensures
            final(self).error_msg() matches Some(m) && m.len() > 0,
            msg@.len() > 0 ==> final(self).error_msg() == Some(msg@),
    {
        if msg.as_str().is_empty() {
            let fallback = String::from_str("evaluation failed with no diagnostic");
            proof {
                reveal_strlit("evaluation failed with no diagnostic");
            }
            self.last_error = Some(fallback);
        } else {
            self.last_error = Some(msg);
        }
    }

    /// A read-only view of the most recent failure message, or `None` if no
    /// failure has ever been recorded on this boundary.
    pub fn last_error(&self) -> (r: Option<&String>)
        ensures
            match r {
                Some(s) => self.error_msg() == Some(s@),
                None => self.error_msg() is None,
            },
    {
        self.last_error.as_ref()
    }

    /// Turn source text into a fully-evaluated value tree, or record why it
    /// could not be done. An absent source fails immediately, with a fixed
    /// message, and never reaches the evaluator; a success leaves the error
    /// slot untouched.
    pub fn evaluate(&mut self, source: Option<&str>) -> (r: Option<NickelValue>)
        ensures
            source is None ==> r is None && final(self).error_msg() == Some(null_source_msg()),
            r is None ==> (final(self).error_msg() matches Some(m) && m.len() > 0),
            r is Some ==> final(self).error_msg() == old(self).error_msg(),
    {
        match source {
            None => {
                let msg = String::from_str("null source: nothing to evaluate");
                proof {
                    reveal_strlit("null source: nothing to evaluate");
                }
                self.last_error = Some(msg);
                None
            },
            Some(code) => match eval_source(code) {
                Ok(value) => Some(value),
                Err(m) => {
                    self.record_failure(m);
                    None
                },
            },
        }
    }

    /// Evaluate source text and export the result as JSON text. Fails, with
    /// the error slot set to a non-empty message, when the source is absent,
    /// does not parse, fails during evaluation, or yields a value that JSON
    /// cannot represent; a success leaves the error slot untouched.
    pub fn eval_to_text(&mut self, source: Option<&str>) -> (r: Option<String>)
        ensures
            source is None ==> r is None && final(self).error_msg() == Some(null_source_msg()),
            r is None ==> (final(self).error_msg() matches Some(m) && m.len() > 0),
            r is Some ==> final(self).error_msg() == old(self).error_msg(),
    {
        let value = match self.evaluate(source) {
            Some(value) => value,
            None => {
                return None;
            },
        };
        match export_json(&value) {
            Ok(text) => Some(text),
            Err(m) => {
                self.record_failure(m);
                None
            },
        }
    }

    /// Serialize a value tree into an owned binary buffer in the wire format.
    /// Succeeds on every well-formed tree; fails, recording a message, only
    /// when some length in the tree exceeds what a 4-byte count can hold, and
    /// then hands back no partial buffer.
    pub fn export_binary(&mut self, v: &Value) -> (r: Option<NativeBuffer>)
        ensures
            wf(*v) ==> r is Some,
            r matches Some(b) ==> {
                &&& wf(*v)
                &&& b.data@ == wire(*v)
                &&& b.len == b.data@.len()
                &&& final(self).error_msg() == old(self).error_msg()
            },
            r is None ==> !wf(*v) && (final(self).error_msg() matches Some(m) && m.len() > 0),
    {
        if check_wf(v) {
            let data = encode_value(v);
            let len = data.len();
            Some(NativeBuffer { data, len })
        } else {
            let msg = String::from_str("value too large for the wire format");
            proof {
                reveal_strlit("value too large for the wire format");
            }
            self.record_failure(msg);
            None
        }
    }
}

/// Release a text result. Releasing an absent result is a no-op; a present
/// result is dropped exactly once, here.
pub fn release_text(text: Option<String>) {
    let _ = text;
}

/// Release a binary result. Releasing an absent result is a no-op; a present
/// buffer is dropped exactly once, here.
pub fn release_binary(buffer: Option<NativeBuffer>) {
    let _ = buffer;
}

} // verus!
