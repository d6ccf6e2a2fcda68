//! What a session asks of the outside, what it hears back, and what it prints.

use vstd::prelude::*;
use vstd::utf8::encode_utf8;

use crate::exit::{Output, OutputView};
use crate::text::{copy_words, words};

verus! {

/// A program and its arguments.
#[derive(Debug, PartialEq, Eq)]
pub struct CommandLine {
    pub program: String,
    pub args: Vec<Vec<u8>>,
}

/// The model of a [`CommandLine`].
#[verifier::ext_equal]
pub struct CommandView {
    pub program: Seq<char>,
    pub args: Seq<Seq<u8>>,
}

impl CommandView {
    /// A program without arguments.
    pub open spec fn program(program: Seq<char>) -> CommandView {
        CommandView { program, args: Seq::empty() }
    }

    /// One more argument, given as text.
    pub open spec fn with(self, arg: Seq<char>) -> CommandView {
        CommandView { program: self.program, args: self.args.push(encode_utf8(arg)) }
    }

    /// More arguments, given as bytes.
    pub open spec fn with_all(self, args: Seq<Seq<u8>>) -> CommandView {
        CommandView { program: self.program, args: self.args + args }
    }
}

impl View for CommandLine {
    type V = CommandView;

    open spec fn view(&self) -> CommandView {
        CommandView { program: self.program@, args: words(self.args@) }
    }
}

impl CommandLine {
    /// A program without arguments.
    pub(crate) fn new(program: &str) -> (res: Self)
        ensures
            res@ == CommandView::program(program@),
    {
        let res = CommandLine { program: program.to_owned(), args: Vec::new() };
        assert(words(res.args@) =~= Seq::empty());
        res
    }

    /// One more argument.
    pub(crate) fn arg(self, arg: &str) -> (res: Self)
        ensures
            res@ == self@.with(arg@),
    {
        let ghost before = self@.args;
        let mut args = self.args;
        args.push(arg.as_bytes_vec());
        assert(words(args@) =~= before.push(encode_utf8(arg@)));
        CommandLine { program: self.program, args }
    }

    /// More arguments.
    pub(crate) fn args(self, more: &Vec<Vec<u8>>) -> (res: Self)
        ensures
            res@ == self@.with_all(words(more@)),
    {
        let ghost before = self@.args;
        let mut args = self.args;
        let mut tail = copy_words(more.as_slice(), 0, more.len());
        let ghost added = words(tail@);
        assert(added =~= words(more@));
        args.append(&mut tail);
        assert(words(args@) =~= before + added);
        CommandLine { program: self.program, args }
    }
}

/// One thing to do outside.
#[derive(Debug, PartialEq, Eq)]
pub enum Request {
    /// Run a command with its output captured.
    Capture(CommandLine),
    /// Run a command with standard input and output inherited.
    Forward(CommandLine),
    /// Create a directory, with its parents, and write a file in it.
    WriteFile { dir: Vec<u8>, path: Vec<u8>, body: Vec<u8> },
    /// Delete a file.
    RemoveFile(Vec<u8>),
    /// Look whether a file exists.
    Exists(Vec<u8>),
}

/// The model of a [`Request`].
#[verifier::ext_equal]
pub enum RequestView {
    Capture(CommandView),
    Forward(CommandView),
    WriteFile { dir: Seq<u8>, path: Seq<u8>, body: Seq<u8> },
    RemoveFile(Seq<u8>),
    Exists(Seq<u8>),
}

impl View for Request {
    type V = RequestView;

    open spec fn view(&self) -> RequestView {
        match self {
            Request::Capture(line) => RequestView::Capture(line@),
            Request::Forward(line) => RequestView::Forward(line@),
            Request::WriteFile { dir, path, body } => RequestView::WriteFile {
                dir: dir@,
                path: path@,
                body: body@,
            },
            Request::RemoveFile(path) => RequestView::RemoveFile(path@),
            Request::Exists(path) => RequestView::Exists(path@),
        }
    }
}

/// What came of a [`Request`].
#[derive(Debug, PartialEq, Eq)]
pub enum Reply {
    /// A captured command finished.
    Output(Output),
    /// A forwarded command finished with this exit code, or by a signal.
    Status(Option<i32>),
    /// A file was written or deleted.
    Done,
    /// Whether the file exists.
    Exists(bool),
    /// It could not be done: the command did not start, or the file operation failed.
    Failed(String),
}

/// The model of a [`Reply`].
#[verifier::ext_equal]
pub enum ReplyView {
    Output(OutputView),
    Status(Option<i32>),
    Done,
    Exists(bool),
    Failed(Seq<char>),
}

impl View for Reply {
    type V = ReplyView;

    open spec fn view(&self) -> ReplyView {
        match self {
            Reply::Output(output) => ReplyView::Output(output@),
            Reply::Status(status) => ReplyView::Status(*status),
            Reply::Done => ReplyView::Done,
            Reply::Exists(found) => ReplyView::Exists(*found),
            Reply::Failed(reason) => ReplyView::Failed(reason@),
        }
    }
}

/// Whether a reply is of a kind that a request can get.
pub open spec fn answers(request: RequestView, reply: ReplyView) -> bool {
    match request {
        RequestView::Capture(_) => reply is Output || reply is Failed,
        RequestView::Forward(_) => reply is Status || reply is Failed,
        RequestView::WriteFile { .. } => reply is Done || reply is Failed,
        RequestView::RemoveFile(_) => reply is Done || reply is Failed,
        RequestView::Exists(_) => reply is Exists,
    }
}

/// One piece of output.
#[derive(Debug, PartialEq, Eq)]
pub enum Emit {
    /// Text for standard output.
    Print(String),
    /// Bytes for standard output, as a subprocess wrote them.
    Pass(Vec<u8>),
    /// Text for standard error.
    Report(String),
}

/// The model of an [`Emit`].
#[verifier::ext_equal]
pub enum EmitView {
    Print(Seq<char>),
    Pass(Seq<u8>),
    Report(Seq<char>),
}

impl View for Emit {
    type V = EmitView;

    open spec fn view(&self) -> EmitView {
        match self {
            Emit::Print(text) => EmitView::Print(text@),
            Emit::Pass(bytes) => EmitView::Pass(bytes@),
            Emit::Report(text) => EmitView::Report(text@),
        }
    }
}

/// The model of a list of pieces of output.
pub open spec fn emits_view(emits: Seq<Emit>) -> Seq<EmitView> {
    Seq::new(emits.len(), |i: int| emits[i]@)
}

// ---------------------------------------------------------------------------
// Laws
// ---------------------------------------------------------------------------

/// The model of a request holds all of it: the program, every argument, and every path
/// and body as it is.
pub proof fn requests_are_modelled_whole(
    line: CommandLine,
    dir: Vec<u8>,
    path: Vec<u8>,
    body: Vec<u8>,
)
    ensures
        line@.program == line.program@,
        line@.args.len() == line.args@.len(),
        forall|i: int| 0 <= i < line.args@.len() ==> #[trigger] line@.args[i] == line.args@[i]@,
        Request::Capture(line)@ == RequestView::Capture(line@),
        Request::Forward(line)@ == RequestView::Forward(line@),
        Request::RemoveFile(path)@ == RequestView::RemoveFile(path@),
        Request::Exists(path)@ == RequestView::Exists(path@),
        (Request::WriteFile { dir, path, body })@ == (RequestView::WriteFile {
            dir: dir@,
            path: path@,
            body: body@,
        }),
{
}

/// The model of a reply holds all of it.
pub proof fn replies_are_modelled_whole(
    result: Output,
    status: Option<i32>,
    found: bool,
    reason: String,
)
    ensures
        Reply::Output(result)@ == ReplyView::Output(
            OutputView {
                status: result.status,
                stdout: result.stdout@,
                stderr: result.stderr@,
            },
        ),
        Reply::Status(status)@ == ReplyView::Status(status),
        Reply::Done@ == ReplyView::Done,
        Reply::Exists(found)@ == ReplyView::Exists(found),
        Reply::Failed(reason)@ == ReplyView::Failed(reason@),
{
}

/// The model of output holds all of it: each piece, in order.
pub proof fn output_is_modelled_whole(emits: Seq<Emit>, text: String, bytes: Vec<u8>)
    ensures
        emits_view(emits).len() == emits.len(),
        forall|i: int| 0 <= i < emits.len() ==> #[trigger] emits_view(emits)[i] == emits[i]@,
        Emit::Print(text)@ == EmitView::Print(text@),
        Emit::Pass(bytes)@ == EmitView::Pass(bytes@),
        Emit::Report(text)@ == EmitView::Report(text@),
{
}

} // verus!
