use vstd::prelude::*;
use crate::reader::SourceInfo;
use crate::runner::{FileWrite, HurlResult, Output, RunnerError, description_text, fixme_text, last_response, output_view, write_effect};
use crate::http::response_bytes;
use crate::term::{Stdout, written};

verus! {

/// Whether response bodies are prettified.
#[derive(Clone, Copy, Debug, PartialEq, Eq)]
pub enum PrettyMode {
    /// Bodies are written as received.
    Off,
    /// Bodies that read as JSON are prettified.
    Automatic,
    /// Bodies that read as JSON are prettified.
    Force,
}

/// Whether a pretty mode prettifies bodies.
pub open spec fn prettifies(pretty: PrettyMode) -> bool {
    pretty != PrettyMode::Off
}

impl PrettyMode {
    pub fn prettifies(&self) -> (b: bool)
        ensures
            b == prettifies(*self),
    {
        match self {
            PrettyMode::Off => false,
            _ => true,
        }
    }
}

/// A failure to write the output of a run.
#[derive(Clone, Debug, PartialEq, Eq)]
pub struct OutputError(pub RunnerError);

impl From<RunnerError> for OutputError {
    fn from(error: RunnerError) -> (r: OutputError) {
        OutputError(error)
    }
}

impl vstd::std_specs::convert::FromSpecImpl<RunnerError> for OutputError {
    open spec fn obeys_from_spec() -> bool {
        true
    }

    open spec fn from_spec(error: RunnerError) -> OutputError {
        OutputError(error)
    }
}

impl OutputError {
    pub fn source_info(&self) -> (s: SourceInfo)
        ensures
            s == self.0.source_info,
    {
        self.0.source_info
    }

    pub fn description(&self) -> (s: String)
        ensures
            s@ == description_text(self.0.kind@),
    {
        self.0.description()
    }

    #[allow(unused_variables)]
    pub fn fixme(&self, content: &[&str]) -> (s: String)
        ensures
            s@ == fixme_text(self.0.kind@),
    {
        self.0.fixme()
    }
}

/// The response that a run's output is: that of the last call of its last
/// entry.
pub open spec fn last_body_response(r: HurlResult) -> Option<crate::http::Response> {
    if r.entries@.len() == 0 {
        None
    } else {
        last_response(r.entries@.last())
    }
}

/// Writes the `hurl_result` last response to the file `filename_out`.
///
/// When `include_headers` is true, the last HTTP response headers are written before the body response.
/// When `filename_out` is `None`, standard output is used.
/// When `append` is true, any existing file will be appended instead of being truncated.
/// The body can be prettified based on `pretty`: unless it is `Off`, a body
/// that reads as JSON is laid out one member or element per line (see
/// `pretty_json`). `color` changes nothing written. A file output is handed
/// back as a `FileWrite` for the caller to perform.
pub fn write_last_body(
    hurl_result: &HurlResult,
    include_headers: bool,
    color: bool,
    pretty: PrettyMode,
    filename_out: Option<&Output>,
    stdout: &mut Stdout,
    append: bool,
) -> (r: Result<Option<FileWrite>, OutputError>)
    ensures
        r is Ok,
        match last_body_response(*hurl_result) {
            None => final(stdout)@ == old(stdout)@ && r == Ok::<Option<FileWrite>, OutputError>(None),
            Some(resp) => r matches Ok(fw) && write_effect(output_view(filename_out), response_bytes(resp, include_headers, prettifies(pretty)),
                append, old(stdout)@, final(stdout)@, fw),
        },
        last_body_response(*hurl_result) matches Some(resp) ==> (filename_out matches Some(Output::File(path)) ==> (r matches Ok(Some(fw))
            && fw.path@ == path@ && fw.append == append
            && fw.bytes@ == response_bytes(resp, include_headers, prettifies(pretty))
            && final(stdout)@ == old(stdout)@)),
        last_body_response(*hurl_result) matches Some(resp) ==> (!(filename_out matches Some(Output::File(_))) ==> (r == Ok::<Option<FileWrite>, OutputError>(None)
            && final(stdout)@ == written(old(stdout)@, response_bytes(resp, include_headers, prettifies(pretty))))),
{
    // Get the last call of the Hurl result.
    let n = hurl_result.entries.len();
    if n == 0 {
        return Ok(None);
    }
    let last_entry = &hurl_result.entries[n - 1];
    let source_info = last_entry.source_info;
    match last_entry.write_response(filename_out, stdout, include_headers, color, pretty, append, source_info) {
        Ok(w) => Ok(w),
        Err(e) => Err(OutputError::from(e)),
    }
}

} // verus!
