//! The messages that travel between the server and a client, and how the
//! server reads a request and packs what it sends.

use vstd::prelude::*;
use crate::block::{blocks_view, BlockView, CodeBlock};
use crate::file_tree::FileTree;
use crate::markup::output_section;
use crate::renderer::{text_or_empty, ExecutionResult, Renderer, ResultView};
use crate::text::{decimal, same_text, to_decimal};

verus! {

/// What a client asks for.
#[derive(Debug)]
pub enum Request {
    /// Render the note at `path` and run its commands.
    OpenFile { path: String },
    /// List the files of the notes' directory.
    GetTree,
}

/// The mathematical content of a [`Request`].
pub enum RequestView {
    OpenFile { path: Seq<char> },
    GetTree,
}

impl View for Request {
    type V = RequestView;

    open spec fn view(&self) -> RequestView {
        match self {
            Request::OpenFile { path } => RequestView::OpenFile { path: path@ },
            Request::GetTree => RequestView::GetTree,
        }
    }
}

/// The request that a command of the plain-text protocol stands
/// for: `init` asks for the file tree, `get ` followed by a path asks for
/// the note at that path. Any other text is no request.
pub open spec fn plain_request(text: Seq<char>) -> Option<RequestView> {
    if text == "init"@ {
        Some(RequestView::GetTree)
    } else if "get "@.is_prefix_of(text) {
        Some(RequestView::OpenFile { path: text.skip(4) })
    } else {
        None
    }
}

impl Request {
    /// Reads a command of the plain-text protocol.
    pub fn from_plain_text(text: &str) -> (request: Option<Request>)
        ensures
            match request {
                Some(r) => plain_request(text@) == Some(r@),
                None => plain_request(text@) is None,
            },
    {
        proof {
            reveal_strlit("get ");
            reveal_strlit("init");
        }
        if same_text(text, "init") {
            return Some(Request::GetTree);
        }
        let len = text.unicode_len();
        if len >= 4 && text.get_char(0) == 'g' && text.get_char(1) == 'e' && text.get_char(2) == 't'
            && text.get_char(3) == ' ' {
            let path = text.substring_char(4, len);
            assert("get "@ =~= text@.subrange(0, 4));
            assert(text@.skip(4) =~= text@.subrange(4, len as int));
            Some(Request::OpenFile { path: String::from_str(path) })
        } else {
            assert(!"get "@.is_prefix_of(text@)) by {
                if "get "@.is_prefix_of(text@) {
                    assert(text@.subrange(0, 4) == "get "@);
                    assert(text@[0] == text@.subrange(0, 4)[0]);
                    assert(text@[1] == text@.subrange(0, 4)[1]);
                    assert(text@[2] == text@.subrange(0, 4)[2]);
                    assert(text@[3] == text@.subrange(0, 4)[3]);
                }
            }
            None
        }
    }
}

/// The stream that a piece of output came from.
#[derive(Clone, Copy, Debug, PartialEq, Eq, Structural)]
pub enum OutputType {
    Stdout,
    Stderr,
}

/// One section of output, ready to be shown under its block.
#[derive(Debug)]
pub struct OutputBlock {
    /// The stream that the output came from.
    pub output_type: OutputType,
    /// The ordinal of the block whose command printed it.
    pub index: usize,
    /// The section, as HTML.
    pub output: String,
}

/// The mathematical content of an [`OutputBlock`].
pub struct OutputBlockView {
    pub output_type: OutputType,
    pub index: nat,
    pub output: Seq<char>,
}

impl View for OutputBlock {
    type V = OutputBlockView;

    open spec fn view(&self) -> OutputBlockView {
        OutputBlockView {
            output_type: self.output_type,
            index: self.index as nat,
            output: self.output@,
        }
    }
}

/// The output blocks of a list, as mathematical values.
pub open spec fn outputs_view(outputs: Seq<OutputBlock>) -> Seq<OutputBlockView> {
    Seq::new(outputs.len(), |i: int| outputs[i]@)
}

/// The sections that show what the command of a block printed: one titled
/// "Output" for the output stream, then one titled "Error" for the error
/// stream, each only where its stream holds something.
pub open spec fn block_outputs(block: BlockView, stdout: Seq<char>, stderr: Seq<char>) -> Seq<
    OutputBlockView,
> {
    let cmd = text_or_empty(block.options.cmd);
    let output = if stdout.len() > 0 {
        seq![
            OutputBlockView {
                output_type: OutputType::Stdout,
                index: block.index,
                output: output_section("Output"@, cmd, stdout),
            },
        ]
    } else {
        Seq::empty()
    };
    let error = if stderr.len() > 0 {
        seq![
            OutputBlockView {
                output_type: OutputType::Stderr,
                index: block.index,
                output: output_section("Error"@, cmd, stderr),
            },
        ]
    } else {
        Seq::empty()
    };
    output + error
}

/// Packs what the command of `block` printed into sections for the page.
pub fn output_blocks(renderer: &Renderer, block: &CodeBlock, stdout: &str, stderr: &str) -> (outputs:
    Vec<OutputBlock>)
    ensures
        outputs_view(outputs@) == block_outputs(block@, stdout@, stderr@),
        outputs@.len() <= 2,
{
    let cmd = match &block.options.cmd {
        Some(cmd) => cmd.clone(),
        None => String::new(),
    };
    let mut outputs: Vec<OutputBlock> = Vec::new();
    if !stdout.is_empty() {
        outputs.push(
            OutputBlock {
                output_type: OutputType::Stdout,
                index: block.index,
                output: renderer.output_wrapper("Output", cmd.as_str(), stdout),
            },
        );
    }
    if !stderr.is_empty() {
        outputs.push(
            OutputBlock {
                output_type: OutputType::Stderr,
                index: block.index,
                output: renderer.output_wrapper("Error", cmd.as_str(), stderr),
            },
        );
    }
    assert(outputs_view(outputs@) =~= block_outputs(block@, stdout@, stderr@));
    outputs
}

/// A message to a client: what it is for, and its content.
#[derive(Debug)]
pub struct JsonMsg {
    /// What the message is for: `document`, `file-tree`, or the ordinal of
    /// the block whose output it carries.
    pub id: String,
    /// The content, as HTML.
    pub data: String,
}

/// The mathematical content of a [`JsonMsg`].
pub struct MsgView {
    pub id: Seq<char>,
    pub data: Seq<char>,
}

impl View for JsonMsg {
    type V = MsgView;

    open spec fn view(&self) -> MsgView {
        MsgView { id: self.id@, data: self.data@ }
    }
}

impl JsonMsg {
    /// The message that carries the page of a note.
    pub fn document(html: String) -> (msg: JsonMsg)
        ensures
            msg@ == (MsgView { id: "document"@, data: html@ }),
    {
        JsonMsg { id: String::from_str("document"), data: html }
    }

    /// The message that carries the file tree.
    pub fn file_tree(html: String) -> (msg: JsonMsg)
        ensures
            msg@ == (MsgView { id: "file-tree"@, data: html@ }),
    {
        JsonMsg { id: String::from_str("file-tree"), data: html }
    }

    /// The message that tells of something that went wrong.
    pub fn error(html: String) -> (msg: JsonMsg)
        ensures
            msg@ == (MsgView { id: "error"@, data: html@ }),
    {
        JsonMsg { id: String::from_str("error"), data: html }
    }

    /// The message that carries one section of output; its identifier is
    /// the ordinal of the block, in decimal.
    pub fn output(block: OutputBlock) -> (msg: JsonMsg)
        ensures
            msg@ == (MsgView { id: decimal(block@.index), data: block@.output }),
    {
        JsonMsg { id: to_decimal(block.index), data: block.output }
    }
}

/// The messages of a list, as mathematical values.
pub open spec fn messages_view(messages: Seq<JsonMsg>) -> Seq<MsgView> {
    Seq::new(messages.len(), |i: int| messages[i]@)
}

/// The position of the first block at or after `from` with the given
/// identifier, or the number of blocks where there is none.
pub open spec fn find_block(blocks: Seq<BlockView>, id: Seq<char>, from: nat) -> nat
    decreases blocks.len() - from,
{
    if from >= blocks.len() {
        blocks.len()
    } else if blocks[from as int].id() == id {
        from
    } else {
        find_block(blocks, id, from + 1)
    }
}

/// The messages that carry output sections, one for each.
pub open spec fn output_messages(outputs: Seq<OutputBlockView>) -> Seq<MsgView> {
    Seq::new(
        outputs.len(),
        |i: int| MsgView { id: decimal(outputs[i].index), data: outputs[i].output },
    )
}

/// The messages that tell a client of a result: the output sections of
/// the block that the result belongs to, or, where it belongs to none (as
/// the one result of a session that failed), one error message that shows
/// the result's error stream.
pub open spec fn result_messages_of(blocks: Seq<BlockView>, result: ResultView) -> Seq<MsgView> {
    let at = find_block(blocks, result.block_id, 0);
    if at < blocks.len() {
        output_messages(block_outputs(blocks[at as int], result.stdout, result.stderr))
    } else {
        seq![
            MsgView {
                id: "error"@,
                data: output_section("Error"@, Seq::empty(), result.stderr),
            },
        ]
    }
}

/// Packs a result of the renderer's note into the messages that tell a
/// client of it, in the order in which they are to be sent.
pub fn result_messages(renderer: &Renderer, result: &ExecutionResult) -> (messages: Vec<JsonMsg>)
    ensures
        messages_view(messages@) == result_messages_of(renderer@.blocks, result@),
{
    let blocks = renderer.blocks();
    let ghost all = blocks_view(blocks@);
    let mut at: usize = 0;
    while at < blocks.len()
        invariant
            at <= blocks@.len(),
            all == blocks_view(blocks@),
            all == renderer@.blocks,
            find_block(all, result@.block_id, at as nat) == find_block(all, result@.block_id, 0),
        decreases blocks@.len() - at,
    {
        assert(all[at as int] == blocks@[at as int]@);
        let id = blocks[at].id();
        if same_text(id.as_str(), result.block_id.as_str()) {
            let outputs = output_blocks(
                renderer,
                &blocks[at],
                result.stdout.as_str(),
                result.stderr.as_str(),
            );
            let ghost wanted = outputs_view(outputs@);
            let mut messages: Vec<JsonMsg> = Vec::new();
            assert(messages_view(messages@) =~= output_messages(wanted.take(0)));
            for output in it: outputs
                invariant
                    outputs_view(it.seq()) == wanted,
                    messages_view(messages@) == output_messages(wanted.take(it.index() as int)),
            {
                let ghost n = it.index() as int;
                let ghost sent = messages_view(messages@);
                assert(outputs_view(it.seq())[n] == output@);
                let message = JsonMsg::output(output);
                messages.push(message);
                assert(messages_view(messages@) =~= sent.push(message@));
                assert(messages_view(messages@) =~= output_messages(wanted.take(n + 1)));
            }
            assert(wanted.take(wanted.len() as int) =~= wanted);
            assert(find_block(all, result@.block_id, at as nat) == at);
            return messages;
        }
        at += 1;
    }
    let empty = String::new();
    let mut messages: Vec<JsonMsg> = Vec::new();
    messages.push(
        JsonMsg::error(renderer.output_wrapper("Error", empty.as_str(), result.stderr.as_str())),
    );
    assert(messages_view(messages@) =~= result_messages_of(renderer@.blocks, result@));
    messages
}

/// The result of a command as the typed protocol sends it.
#[derive(Debug)]
pub enum AppMessage {
    /// A client asks for the note at `path`.
    OpenFile { path: String },
    /// A client asks for the file tree.
    GetTree,
    /// The page of the note at `path`.
    Markdown { path: String, markdown: String },
    /// What the command of the block `id` printed.
    Output { id: String, stdout: String, stderr: String },
    /// Something went wrong with a request.
    Error { error: String },
    /// The files and folders of the notes' directory.
    FileTree { root: Vec<FileTree> },
    /// The file at `path` has changed.
    FileUpdate { path: String },
}

impl AppMessage {
    /// The request that a message makes, if it makes one: only the two
    /// kinds that a client sends do.
    pub fn request(self) -> (request: Option<Request>)
        ensures
            match self {
                AppMessage::OpenFile { path } => request == Some(Request::OpenFile { path }),
                AppMessage::GetTree => request == Some(Request::GetTree),
                _ => request is None,
            },
    {
        match self {
            AppMessage::OpenFile { path } => Some(Request::OpenFile { path }),
            AppMessage::GetTree => Some(Request::GetTree),
            _ => None,
        }
    }

    /// The message that answers a request for a note with its page.
    pub fn markdown(path: String, html: String) -> (msg: AppMessage)
        ensures
            msg == (AppMessage::Markdown { path, markdown: html }),
    {
        AppMessage::Markdown { path, markdown: html }
    }

    /// The message that tells a client that its request has failed.
    pub fn error(error: String) -> (msg: AppMessage)
        ensures
            msg == (AppMessage::Error { error }),
    {
        AppMessage::Error { error }
    }

    /// The message that answers a request for the file tree.
    pub fn file_tree(root: Vec<FileTree>) -> (msg: AppMessage)
        ensures
            msg == (AppMessage::FileTree { root }),
    {
        AppMessage::FileTree { root }
    }

    /// The message that tells the clients of a file that was written.
    pub fn file_update(path: String) -> (msg: AppMessage)
        ensures
            msg == (AppMessage::FileUpdate { path }),
    {
        AppMessage::FileUpdate { path }
    }

    /// The message that carries the result of one command.
    pub fn output(result: ExecutionResult) -> (msg: AppMessage)
        ensures
            msg == (AppMessage::Output {
                id: result.block_id,
                stdout: result.stdout,
                stderr: result.stderr,
            }),
    {
        AppMessage::Output { id: result.block_id, stdout: result.stdout, stderr: result.stderr }
    }
}

} // verus!
