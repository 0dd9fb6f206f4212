use vstd::prelude::*;
use crate::http::{Call, Response, response_bytes};
use crate::path::{ContextDir, access_allowed, is_absolute, resolved};
use crate::reader::{SourceInfo, chars_of};
use crate::term::{Stdout, StdoutV, written};
use std::time::Duration;

verus! {

/// Where a write goes: a file, or standard output.
#[derive(Clone, Debug, PartialEq, Eq)]
pub enum Output {
    /// Write to file.
    File(String),
    /// Write to standard output.
    Stdout,
}

pub enum OutputV {
    File(Seq<char>),
    Stdout,
}

impl View for Output {
    type V = OutputV;

    open spec fn view(&self) -> OutputV {
        match self {
            Output::File(f) => OutputV::File(f@),
            Output::Stdout => OutputV::Stdout,
        }
    }
}

/// The output that a file name designates: `-` is standard output.
pub open spec fn output_for(filename: Seq<char>) -> OutputV {
    if filename == seq!['-'] {
        OutputV::Stdout
    } else {
        OutputV::File(filename)
    }
}

/// How an output is shown: its file name, or `-`.
pub open spec fn output_text(o: OutputV) -> Seq<char> {
    match o {
        OutputV::File(f) => f,
        OutputV::Stdout => seq!['-'],
    }
}

/// Showing the output made from a file name gives back that file name.
pub proof fn lemma_output_text_roundtrip(filename: Seq<char>)
    ensures
        output_text(output_for(filename)) == filename,
{
}

#[derive(Clone, Debug, PartialEq, Eq)]
pub enum RunnerErrorKind {
    UnauthorizedFileAccess { path: String },
    FileWriteAccess { path: String, error: String },
}

pub enum RunnerErrorKindV {
    UnauthorizedFileAccess { path: Seq<char> },
    FileWriteAccess { path: Seq<char>, error: Seq<char> },
}

impl View for RunnerErrorKind {
    type V = RunnerErrorKindV;

    open spec fn view(&self) -> RunnerErrorKindV {
        match self {
            RunnerErrorKind::UnauthorizedFileAccess { path } => RunnerErrorKindV::UnauthorizedFileAccess { path: path@ },
            RunnerErrorKind::FileWriteAccess { path, error } => RunnerErrorKindV::FileWriteAccess { path: path@, error: error@ },
        }
    }
}

/// A failure of a run, at a place of the Hurl file; `assertion` tells an
/// assert failure from others.
#[derive(Clone, Debug, PartialEq, Eq)]
pub struct RunnerError {
    pub source_info: SourceInfo,
    pub kind: RunnerErrorKind,
    pub assertion: bool,
}

/// The one-line description of an error kind.
pub open spec fn description_text(k: RunnerErrorKindV) -> Seq<char> {
    match k {
        RunnerErrorKindV::UnauthorizedFileAccess { .. } => "Unauthorized file access"@,
        RunnerErrorKindV::FileWriteAccess { .. } => "File write access"@,
    }
}

/// The advice shown with an error kind.
pub open spec fn fixme_text(k: RunnerErrorKindV) -> Seq<char> {
    match k {
        RunnerErrorKindV::UnauthorizedFileAccess { path } => "unauthorized access to file "@ + path
            + ", check --file-root option"@,
        RunnerErrorKindV::FileWriteAccess { path, error } => path + " can not be written ("@ + error + ")"@,
    }
}

impl RunnerError {
    pub fn new(source_info: SourceInfo, kind: RunnerErrorKind, assertion: bool) -> (e: RunnerError)
        ensures
            e.source_info == source_info,
            e.kind == kind,
            e.assertion == assertion,
    {
        RunnerError { source_info, kind, assertion }
    }

    pub fn description(&self) -> (s: String)
        ensures
            s@ == description_text(self.kind@),
    {
        match &self.kind {
            RunnerErrorKind::UnauthorizedFileAccess { .. } => String::from_str("Unauthorized file access"),
            RunnerErrorKind::FileWriteAccess { .. } => String::from_str("File write access"),
        }
    }

    pub fn fixme(&self) -> (s: String)
        ensures
            s@ == fixme_text(self.kind@),
    {
        match &self.kind {
            RunnerErrorKind::UnauthorizedFileAccess { path } => {
                let mut s = String::from_str("unauthorized access to file ");
                s.append(path.as_str());
                s.append(", check --file-root option");
                s
            },
            RunnerErrorKind::FileWriteAccess { path, error } => {
                let mut s = path.clone();
                s.append(" can not be written (");
                s.append(error.as_str());
                s.append(")");
                s
            },
        }
    }
}

impl Output {
    /// Creates a new output from a string filename.
    pub fn new(filename: &str) -> (o: Output)
        ensures
            o@ == output_for(filename@),
    {
        let v = chars_of(filename);
        if v.len() == 1 && v[0] == '-' {
            proof {
                assert(v@ =~= seq!['-']);
            }
            Output::Stdout
        } else {
            proof {
                if v@.len() == 1 {
                    assert(v@ != seq!['-']) by {
                        assert(seq!['-'][0] == '-');
                    }
                }
            }
            Output::File(String::from_str(filename))
        }
    }

    /// The output as text: its file name, or `-` for standard output.
    pub fn to_string(&self) -> (s: String)
        ensures
            s@ == output_text(self@),
    {
        match self {
            Output::File(f) => f.clone(),
            Output::Stdout => {
                proof {
                    reveal_strlit("-");
                }
                String::from_str("-")
            },
        }
    }

    /// Consume an output and returns a new output given a `context_dir`.
    ///
    /// If the output is a file, and the file is not allowed to write given this `context_dir`, this
    /// method returns an error.
    pub fn try_with(self, context_dir: &ContextDir, source_info: SourceInfo) -> (r: Result<Output, RunnerError>)
        ensures
            match self@ {
                OutputV::Stdout => r matches Ok(o) && o@ == OutputV::Stdout,
                OutputV::File(f) => if access_allowed(*context_dir, f) {
                    r matches Ok(o) && o@ == OutputV::File(resolved(*context_dir, f))
                        && (is_absolute(f) ==> o@ == OutputV::File(f))
                } else {
                    r matches Err(e) && e.source_info == source_info && e.kind@
                        == (RunnerErrorKindV::UnauthorizedFileAccess { path: f }) && !e.assertion
                },
            },
    {
        let output = match self {
            Output::Stdout => Output::Stdout,
            Output::File(filename) => {
                if !context_dir.is_access_allowed(filename.as_str()) {
                    let kind = RunnerErrorKind::UnauthorizedFileAccess { path: filename };
                    let error = RunnerError::new(source_info, kind, false);
                    return Err(error);
                }
                let path = context_dir.resolved_path(filename.as_str());
                Output::File(path)
            },
        };
        Ok(output)
    }
}

/// A write to a file that the caller carries out.
#[derive(Clone, Debug, PartialEq, Eq)]
pub struct FileWrite {
    pub path: String,
    pub bytes: Vec<u8>,
    pub append: bool,
}

/// A position among the entries of a Hurl file, from 1.
#[derive(Clone, Copy, Debug, PartialEq, Eq, Default)]
pub struct Index {
    value: usize,
}

impl Index {
    pub fn new(value: usize) -> (i: Index)
        ensures
            i.get() == value,
    {
        Index { value }
    }

    pub closed spec fn get(&self) -> usize {
        self.value
    }

    pub fn value(&self) -> (v: usize)
        ensures
            v == self.get(),
    {
        self.value
    }
}

/// The result of running one entry.
#[derive(Debug, Default)]
pub struct EntryResult {
    pub entry_index: Index,
    pub source_info: SourceInfo,
    pub calls: Vec<Call>,
}

/// The result of running a Hurl file.
#[derive(Debug, Default)]
pub struct HurlResult {
    pub entries: Vec<EntryResult>,
    pub duration: Duration,
    pub success: bool,
}

/// The response that an entry writes: that of its last call.
pub open spec fn last_response(e: EntryResult) -> Option<Response> {
    if e.calls@.len() == 0 {
        None
    } else {
        Some(e.calls@.last().response)
    }
}

/// What writing `bytes` to `output` does: standard output takes them (when
/// no output is given too); a file write is handed back.
pub open spec fn write_effect(output: Option<OutputV>, bytes: Seq<u8>, append: bool, before: StdoutV, after: StdoutV, r: Option<FileWrite>) -> bool {
    match output {
        Some(OutputV::File(path)) => {
            &&& after == before
            &&& r matches Some(fw) && fw.path@ == path && fw.bytes@ == bytes && fw.append == append
        },
        _ => after == written(before, bytes) && r is None,
    }
}

pub open spec fn output_view(o: Option<&Output>) -> Option<OutputV> {
    match o {
        Some(x) => Some(x@),
        None => None,
    }
}

impl EntryResult {
    /// Writes the response of the last call of this entry to `output`
    /// (standard output when `None`), its headers first when
    /// `include_headers` holds. The body is prettified unless `pretty` is
    /// `Off` (see `pretty_json`); `color` changes nothing written. A file
    /// output is handed back as a `FileWrite`, opened in append mode when
    /// `append` holds.
    #[allow(unused_variables)]
    pub fn write_response(
        &self,
        output: Option<&Output>,
        stdout: &mut Stdout,
        include_headers: bool,
        color: bool,
        pretty: crate::output::PrettyMode,
        append: bool,
        source_info: SourceInfo,
    ) -> (r: Result<Option<FileWrite>, RunnerError>)
        ensures
            r is Ok,
            match last_response(*self) {
                None => final(stdout)@ == old(stdout)@ && r == Ok::<Option<FileWrite>, RunnerError>(None),
                Some(resp) => r matches Ok(fw) && write_effect(output_view(output), response_bytes(resp, include_headers, crate::output::prettifies(pretty)),
                    append, old(stdout)@, final(stdout)@, fw),
            },
            last_response(*self) matches Some(resp) ==> (output matches Some(Output::File(path)) ==> (r matches Ok(Some(fw))
                && fw.path@ == path@ && fw.append == append
                && fw.bytes@ == response_bytes(resp, include_headers, crate::output::prettifies(pretty))
                && final(stdout)@ == old(stdout)@)),
            last_response(*self) matches Some(resp) ==> (!(output matches Some(Output::File(_))) ==> (r == Ok::<Option<FileWrite>, RunnerError>(None)
                && final(stdout)@ == written(old(stdout)@, response_bytes(resp, include_headers, crate::output::prettifies(pretty))))),
    {
        let n = self.calls.len();
        if n == 0 {
            return Ok(None);
        }
        let response = &self.calls[n - 1].response;
        let bytes = response.output_bytes(include_headers, pretty.prettifies());
        match output {
            Some(Output::File(path)) => Ok(Some(FileWrite { path: path.clone(), bytes, append })),
            _ => {
                stdout.write_all(bytes.as_slice());
                Ok(None)
            },
        }
    }
}


/// A file write hands back the caller's `append` flag as it is: with
/// `append` false the file is truncated before the bytes are written, with
/// `append` true they are added after what it holds. Standard output is
/// left untouched by a file write.
pub proof fn law_file_write_keeps_append(path: Seq<char>, bytes: Seq<u8>, append: bool, before: StdoutV, after: StdoutV, r: Option<FileWrite>)
    requires
        write_effect(Some(OutputV::File(path)), bytes, append, before, after, r),
    ensures
        r matches Some(fw) && fw.append == append && fw.path@ == path && fw.bytes@ == bytes,
        !append ==> (r matches Some(fw) && !fw.append),
        after == before,
{
}

} // verus!
