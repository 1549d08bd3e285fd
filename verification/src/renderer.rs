//! Rendering a note to a page, and running its commands one block at a
//! time.

use vstd::prelude::*;
use crate::block::{blocks_view, BlockView, CodeBlock};
use crate::docker::{
    build_command, exec_command, kill_command, start_command, success_marker, Container,
    ContainerView, Image,
};
use crate::events::{
    event_tokens, events_html, fragment_event, html_event, markdown_events, markdown_tokens,
    parse_events, tokens_of, tokens_view, write_html,
};
use crate::markup::{
    block_begin, block_end, exec_error_text, internal_error_text, output_section, section_begin,
    section_end,
};
use crate::splicer::{extract, extract_blocks, splice, spliced, targets_in_range};
use crate::text::{occurs_in, same_text, strings_view, trimmed};

verus! {

/// What one command printed.
#[derive(Debug)]
pub struct ExecutionResult {
    /// The identifier of the block whose command was run.
    pub block_id: String,
    /// What the command wrote to its output stream.
    pub stdout: String,
    /// What the command wrote to its error stream.
    pub stderr: String,
}

/// The mathematical content of an [`ExecutionResult`].
pub struct ResultView {
    pub block_id: Seq<char>,
    pub stdout: Seq<char>,
    pub stderr: Seq<char>,
}

impl View for ExecutionResult {
    type V = ResultView;

    open spec fn view(&self) -> ResultView {
        ResultView { block_id: self.block_id@, stdout: self.stdout@, stderr: self.stderr@ }
    }
}

/// The results of a list, as mathematical values.
pub open spec fn results_view(results: Seq<ExecutionResult>) -> Seq<ResultView> {
    Seq::new(results.len(), |i: int| results[i]@)
}

/// The text of an optional string, empty where there is none.
pub open spec fn text_or_empty(text: Option<Seq<char>>) -> Seq<char> {
    match text {
        Some(s) => s,
        None => Seq::empty(),
    }
}

/// The sections that show one result: one for the output stream and one
/// for the error stream, each only where the stream holds something.
pub open spec fn result_sections(cmd: Seq<char>, result: ResultView) -> Seq<Seq<char>> {
    let output = if result.stdout.len() > 0 {
        seq![output_section("Output"@, cmd, result.stdout)]
    } else {
        Seq::empty()
    };
    let error = if result.stderr.len() > 0 {
        seq![output_section("Error"@, cmd, result.stderr)]
    } else {
        Seq::empty()
    };
    output + error
}

/// The sections for those of the results that belong to the block, in the
/// order of the results.
pub open spec fn block_result_sections(block: BlockView, results: Seq<ResultView>) -> Seq<
    Seq<char>,
>
    decreases results.len(),
{
    if results.len() == 0 {
        Seq::empty()
    } else {
        let before = block_result_sections(block, results.drop_last());
        if results.last().block_id == block.id() {
            before + result_sections(text_or_empty(block.options.cmd), results.last())
        } else {
            before
        }
    }
}

/// The fragments that go in front of a block: the opening of the block's
/// list and, unless the block is hidden, the opening of its "Input"
/// section, with the block's file name beside the title.
pub open spec fn sections_before(block: BlockView) -> Seq<Seq<char>> {
    if block.options.hide == Some(true) {
        seq![block_begin(block.id())]
    } else {
        seq![block_begin(block.id()), section_begin("Input"@, text_or_empty(block.options.name))]
    }
}

/// The fragments that go behind a block: the closing of its "Input"
/// section unless the block is hidden, the sections of its results, and
/// the closing of the block's list.
pub open spec fn sections_after(block: BlockView, results: Seq<ResultView>) -> Seq<Seq<char>> {
    let input_end = if block.options.hide == Some(true) {
        Seq::empty()
    } else {
        seq![section_end()]
    };
    input_end + block_result_sections(block, results) + seq![block_end()]
}

/// The sections, each aimed at the same target.
pub open spec fn sections_at(target: usize, sections: Seq<Seq<char>>) -> Seq<(usize, Seq<char>)> {
    Seq::new(sections.len(), |i: int| (target, sections[i]))
}

/// The insertions that wrap one block: the fragments in front of it at the
/// block's opening event, those behind it right after its closing event.
/// A block that was never closed is left as it is.
pub open spec fn block_fragments(block: BlockView, results: Seq<ResultView>) -> Seq<
    (usize, Seq<char>),
> {
    if block.is_closed() {
        sections_at(block.start_index as usize, sections_before(block)) + sections_at(
            (block.end_index + 1) as usize,
            sections_after(block, results),
        )
    } else {
        Seq::empty()
    }
}

/// The insertions that wrap the blocks of a note, block after block.
pub open spec fn document_fragments(blocks: Seq<BlockView>, results: Seq<ResultView>) -> Seq<
    (usize, Seq<char>),
>
    decreases blocks.len(),
{
    if blocks.len() == 0 {
        Seq::empty()
    } else {
        document_fragments(blocks.drop_last(), results) + block_fragments(blocks.last(), results)
    }
}

/// The insertions with each fragment turned into the event that carries
/// it.
pub open spec fn fragment_events(fragments: Seq<(usize, Seq<char>)>) -> Seq<
    (usize, pulldown_cmark::Event<'static>),
> {
    Seq::new(fragments.len(), |i: int| (fragments[i].0, fragment_event(fragments[i].1)))
}

/// The page of a note: the events of the markdown text with the wrapping
/// fragments of its blocks spliced in, written as HTML.
pub open spec fn annotated_html(markdown: Seq<char>, results: Seq<ResultView>) -> Seq<char> {
    events_html(
        spliced(
            markdown_events(markdown),
            fragment_events(
                document_fragments(extract_blocks(markdown_tokens(markdown)), results),
            ),
        ),
    )
}

/// The fragments of a list, as mathematical values.
pub open spec fn fragments_view(fragments: Seq<(usize, String)>) -> Seq<(usize, Seq<char>)> {
    Seq::new(fragments.len(), |i: int| (fragments[i].0, fragments[i].1@))
}

fn push_section(sections: &mut Vec<String>, section: String)
    ensures
        strings_view(final(sections)@) == strings_view(old(sections)@).push(section@),
{
    sections.push(section);
    assert(strings_view(sections@) =~= strings_view(old(sections)@).push(section@));
}

fn push_sections_at(fragments: &mut Vec<(usize, String)>, target: usize, sections: Vec<String>)
    ensures
        fragments_view(final(fragments)@) == fragments_view(old(fragments)@) + sections_at(
            target,
            strings_view(sections@),
        ),
{
    let ghost before = fragments_view(fragments@);
    let ghost all = sections@;
    assert(fragments_view(fragments@) =~= before + sections_at(
        target,
        strings_view(all).take(0),
    ));
    for section in it: sections
        invariant
            all == it.seq(),
            fragments_view(fragments@) == before + sections_at(
                target,
                strings_view(all).take(it.index() as int),
            ),
    {
        let ghost n = it.index() as int;
        let ghost so_far = fragments_view(fragments@);
        assert(section == all[n]);
        fragments.push((target, section));
        assert(fragments_view(fragments@) =~= so_far.push((target, section@)));
        assert(strings_view(all).take(n + 1) =~= strings_view(all).take(n).push(section@));
        assert(fragments_view(fragments@) =~= before + sections_at(
            target,
            strings_view(all).take(n + 1),
        ));
    }
    assert(strings_view(all).take(all.len() as int) =~= strings_view(all));
}

/// What the renderer asks its caller to do next.
#[derive(Debug)]
pub enum Action {
    /// Nothing, for now or for good.
    Idle,
    /// Build the image: run the container runtime with these arguments in
    /// the note's directory, and report what it printed.
    Build(Vec<String>),
    /// Start the container: run the container runtime with these
    /// arguments, and report what it printed.
    Start(Vec<String>),
    /// Run a block's command: run the container runtime with these
    /// arguments, and report what it printed.
    Exec(Vec<String>),
}

/// The mathematical content of an [`Action`].
pub enum ActionView {
    Idle,
    Build(Seq<Seq<char>>),
    Start(Seq<Seq<char>>),
    Exec(Seq<Seq<char>>),
}

impl View for Action {
    type V = ActionView;

    open spec fn view(&self) -> ActionView {
        match self {
            Action::Idle => ActionView::Idle,
            Action::Build(args) => ActionView::Build(strings_view(args@)),
            Action::Start(args) => ActionView::Start(strings_view(args@)),
            Action::Exec(args) => ActionView::Exec(strings_view(args@)),
        }
    }
}

/// What came of the command that the renderer asked for.
#[derive(Debug)]
pub enum Outcome {
    /// The command ran; what it wrote to its two streams.
    Output { stdout: String, stderr: String },
    /// The command could not be run.
    Failure,
}

/// The mathematical content of an [`Outcome`].
pub enum OutcomeView {
    Output { stdout: Seq<char>, stderr: Seq<char> },
    Failure,
}

impl View for Outcome {
    type V = OutcomeView;

    open spec fn view(&self) -> OutcomeView {
        match self {
            Outcome::Output { stdout, stderr } => OutcomeView::Output {
                stdout: stdout@,
                stderr: stderr@,
            },
            Outcome::Failure => OutcomeView::Failure,
        }
    }
}

/// Where the container of a session stands.
#[derive(Debug)]
pub enum Phase {
    /// Nothing has been asked of the container runtime.
    Uninitialized,
    /// The build of the image has been asked for.
    ImageBuilding,
    /// The image has been built.
    ImageReady(Image),
    /// The start of the container has been asked for.
    Starting(Image),
    /// The container is up and no command is running in it.
    Running(Container),
    /// The command of the block at the cursor is running in the container.
    Executing(Container),
    /// The container has been given up by `clean_up`.
    Stopped,
    /// The image could not be built or the container could not be started.
    Failed,
}

/// The mathematical content of a [`Phase`].
pub enum PhaseView {
    Uninitialized,
    ImageBuilding,
    ImageReady(Seq<char>),
    Starting(Seq<char>),
    Running(ContainerView),
    Executing(ContainerView),
    Stopped,
    Failed,
}

impl View for Phase {
    type V = PhaseView;

    open spec fn view(&self) -> PhaseView {
        match self {
            Phase::Uninitialized => PhaseView::Uninitialized,
            Phase::ImageBuilding => PhaseView::ImageBuilding,
            Phase::ImageReady(image) => PhaseView::ImageReady(image@),
            Phase::Starting(image) => PhaseView::Starting(image@),
            Phase::Running(container) => PhaseView::Running(container@),
            Phase::Executing(container) => PhaseView::Executing(container@),
            Phase::Stopped => PhaseView::Stopped,
            Phase::Failed => PhaseView::Failed,
        }
    }
}

/// Renders one note and runs its commands.
///
/// A renderer owns the blocks of the note it rendered last and at most one
/// container. It does no work on the outside itself: `next_action` says
/// what is to be done, and `execute` takes what came of it.
#[derive(Debug)]
pub struct Renderer {
    notebook_dir: String,
    phase: Phase,
    blocks: Vec<CodeBlock>,
    next: usize,
}

/// The mathematical content of a [`Renderer`].
pub struct RendererView {
    /// The directory of the note, which the container sees at its mount
    /// point.
    pub notebook_dir: Seq<char>,
    /// Where the container stands.
    pub phase: PhaseView,
    /// The blocks of the note, in document order.
    pub blocks: Seq<BlockView>,
    /// The cursor: the blocks before it have been dealt with.
    pub next: nat,
}

impl Renderer {
    #[verifier::type_invariant]
    spec fn consistent(self) -> bool {
        self@.well_formed()
    }
}

impl View for Renderer {
    type V = RendererView;

    closed spec fn view(&self) -> RendererView {
        RendererView {
            notebook_dir: self.notebook_dir@,
            phase: self.phase@,
            blocks: blocks_view(self.blocks@),
            next: self.next as nat,
        }
    }
}

/// The name under which the image of a session is built.
pub open spec fn image_name() -> Seq<char> {
    "notebook-image"@
}

/// The position of the first block at or after `from` that asks for a
/// command, or the number of blocks where there is none.
pub open spec fn next_directed(blocks: Seq<BlockView>, from: nat) -> nat
    decreases blocks.len() - from,
{
    if from >= blocks.len() {
        blocks.len()
    } else if blocks[from as int].is_directed() {
        from
    } else {
        next_directed(blocks, from + 1)
    }
}

/// The one result that stands for all commands of a session whose
/// container could not be had.
pub open spec fn error_result() -> ResultView {
    ResultView {
        block_id: internal_error_text(),
        stdout: internal_error_text(),
        stderr: internal_error_text(),
    }
}

/// The files that the blocks of a note ask to be written: for each block
/// with a file name, in document order, the name and the block's code.
pub open spec fn files_of(blocks: Seq<BlockView>) -> Seq<(Seq<char>, Seq<char>)>
    decreases blocks.len(),
{
    if blocks.len() == 0 {
        Seq::empty()
    } else {
        let before = files_of(blocks.drop_last());
        match blocks.last().options.name {
            Some(name) => before.push((name, blocks.last().code)),
            None => before,
        }
    }
}

impl RendererView {
    /// The cursor is within the blocks, and while a command runs it stands
    /// at the block whose command it is.
    pub open spec fn well_formed(self) -> bool {
        &&& self.next <= self.blocks.len()
        &&& self.phase is Executing ==> self.next < self.blocks.len()
            && self.blocks[self.next as int].is_directed()
    }

    /// A block at or after the cursor asks for a command.
    pub open spec fn has_pending(self) -> bool {
        next_directed(self.blocks, self.next) < self.blocks.len()
    }

    /// Nothing is left to run, or nothing can be run any more.
    pub open spec fn finished(self) -> bool {
        self.phase is Failed || self.phase is Stopped || !self.has_pending()
    }

    /// A renderer for the directory, before any note.
    pub open spec fn fresh(notebook_dir: Seq<char>) -> RendererView {
        RendererView {
            notebook_dir,
            phase: PhaseView::Uninitialized,
            blocks: Seq::empty(),
            next: 0,
        }
    }

    /// The state after a note with these blocks has been rendered: the
    /// cursor is at the first block, and a container that is up is kept.
    pub open spec fn loaded(self, blocks: Seq<BlockView>) -> RendererView {
        RendererView {
            phase: match self.phase {
                PhaseView::Executing(container) => PhaseView::Running(container),
                phase => phase,
            },
            blocks,
            next: 0,
            ..self
        }
    }

    /// What `next_action` does: the next state and the action asked for.
    ///
    /// Nothing is asked while a command is under way, nor once the session
    /// is finished. Else the image is built, then the container started,
    /// then the command of the next block that has one is run.
    pub open spec fn poll(self) -> (RendererView, ActionView) {
        if self.finished() {
            (self, ActionView::Idle)
        } else {
            match self.phase {
                PhaseView::Uninitialized => (
                    RendererView { phase: PhaseView::ImageBuilding, ..self },
                    ActionView::Build(build_command(image_name())),
                ),
                PhaseView::ImageReady(image) => (
                    RendererView { phase: PhaseView::Starting(image), ..self },
                    ActionView::Start(start_command(image, self.notebook_dir)),
                ),
                PhaseView::Running(container) => {
                    let at = next_directed(self.blocks, self.next);
                    let block = self.blocks[at as int];
                    (
                        RendererView { phase: PhaseView::Executing(container), next: at, ..self },
                        ActionView::Exec(
                            exec_command(
                                container.id,
                                text_or_empty(block.options.cmd),
                                block.code,
                            ),
                        ),
                    )
                },
                _ => (self, ActionView::Idle),
            }
        }
    }

    /// What `execute` does: the next state and the result to deliver.
    ///
    /// A build counts as done where its output shows the line of success,
    /// a start where nothing came on the error stream; any other outcome
    /// of the two fails the session and gives the one error result. What a
    /// command printed is the result of its block; where the command could
    /// not be run, the message for that is its error stream. An outcome that
    /// nothing was waiting for changes nothing.
    pub open spec fn report(self, outcome: OutcomeView) -> (RendererView, Option<ResultView>) {
        match self.phase {
            PhaseView::ImageBuilding => if outcome is Output && occurs_in(
                success_marker(image_name()),
                outcome->stdout,
            ) {
                (RendererView { phase: PhaseView::ImageReady(image_name()), ..self }, None)
            } else {
                (RendererView { phase: PhaseView::Failed, ..self }, Some(error_result()))
            },
            PhaseView::Starting(image) => if outcome is Output && outcome->stderr.len() == 0 {
                (
                    RendererView {
                        phase: PhaseView::Running(
                            ContainerView { id: trimmed(outcome->stdout), image },
                        ),
                        ..self
                    },
                    None,
                )
            } else {
                (RendererView { phase: PhaseView::Failed, ..self }, Some(error_result()))
            },
            PhaseView::Executing(container) => (
                RendererView { phase: PhaseView::Running(container), next: self.next + 1, ..self },
                Some(
                    match outcome {
                        OutcomeView::Output { stdout, stderr } => ResultView {
                            block_id: self.blocks[self.next as int].id(),
                            stdout,
                            stderr,
                        },
                        OutcomeView::Failure => ResultView {
                            block_id: self.blocks[self.next as int].id(),
                            stdout: Seq::empty(),
                            stderr: exec_error_text(),
                        },
                    },
                ),
            ),
            _ => (self, None),
        }
    }

    /// What `clean_up` does: the next state and the command that removes
    /// the container, where one is up.
    pub open spec fn teardown(self) -> (RendererView, Option<Seq<Seq<char>>>) {
        let stopped = RendererView { phase: PhaseView::Stopped, next: self.blocks.len(), ..self };
        match self.phase {
            PhaseView::Running(container) => (stopped, Some(kill_command(container.id))),
            PhaseView::Executing(container) => (stopped, Some(kill_command(container.id))),
            _ => (stopped, None),
        }
    }
}

/// The first block with a command at or after a position lies in range,
/// and no block between the position and it has a command.
pub proof fn lemma_next_directed(blocks: Seq<BlockView>, from: nat)
    requires
        from <= blocks.len(),
    ensures
        from <= next_directed(blocks, from) <= blocks.len(),
        next_directed(blocks, from) < blocks.len() ==> blocks[next_directed(
            blocks,
            from,
        ) as int].is_directed(),
        forall|k: int| from <= k < next_directed(blocks, from) ==> !(#[trigger] blocks[k]).is_directed(),
    decreases blocks.len() - from,
{
    if from < blocks.len() && !blocks[from as int].is_directed() {
        lemma_next_directed(blocks, from + 1);
    }
}

fn text_of_option(text: &Option<String>) -> (s: String)
    ensures
        s@ == text_or_empty(
            match text {
                Some(t) => Some(t@),
                None => None,
            },
        ),
{
    match text {
        Some(t) => t.clone(),
        None => String::new(),
    }
}

impl Renderer {
    /// The opening of a section of the page that can be folded.
    pub fn collabsible_wrapper_begin(&self, title: &str, subtext: &str) -> (html: String)
        ensures
            html@ == section_begin(title@, subtext@),
    {
        let mut html = String::from_str(
            "\n            <li class=\"uk-open\">\n                <a class=\"uk-accordion-title uk-text-small\" href=\"#\"><span class=\"uk-text-bold\">",
        );
        html.append(title);
        html.append("</span> <span class=\"uk-text-muted\">");
        html.append(subtext);
        html.append("</span></a>\n                <div class=\"uk-accordion-content\">");
        html
    }

    /// The closing of a section of the page that can be folded.
    pub fn collabsible_wrapper_end(&self) -> (html: String)
        ensures
            html@ == section_end(),
    {
        String::from_str("\n                </div>\n            </li>")
    }

    /// The message that stands in for output when the container could not be
    /// built, started or used.
    pub fn internal_error(&self) -> (message: String)
        ensures
            message@ == internal_error_text(),
    {
        String::from_str("Internal server error")
    }

    /// The message that stands in for the error stream of a command that
    /// could not be run in the container.
    pub fn exec_error(&self) -> (message: String)
        ensures
            message@ == exec_error_text(),
    {
        String::from_str("BashableNotes internal error")
    }

    fn block_wrapper_begin(&self, id: &str) -> (html: String)
        ensures
            html@ == block_begin(id@),
    {
        let mut html = String::from_str("<ul uk-accordion=\"multiple: true\" id=\"");
        html.append(id);
        html.append("\">");
        html
    }

    fn block_wrapper_end(&self) -> (html: String)
        ensures
            html@ == block_end(),
    {
        String::from_str("</ul>")
    }

    /// A section that shows what a command printed.
    pub fn output_wrapper(&self, title: &str, cmd: &str, output: &str) -> (html: String)
        ensures
            html@ == output_section(title@, cmd@, output@),
    {
        let mut html = self.collabsible_wrapper_begin(title, cmd);
        html.append("<pre><code class=\"language-nohighlight hljs\">");
        html.append(output);
        html.append("</code></pre>");
        let end = self.collabsible_wrapper_end();
        html.append(end.as_str());
        html
    }

    fn push_result_sections(&self, sections: &mut Vec<String>, cmd: &str, result: &ExecutionResult)
        ensures
            strings_view(final(sections)@) == strings_view(old(sections)@) + result_sections(
                cmd@,
                result@,
            ),
    {
        let ghost before = strings_view(sections@);
        if !result.stdout.as_str().is_empty() {
            push_section(sections, self.output_wrapper("Output", cmd, result.stdout.as_str()));
        }
        if !result.stderr.as_str().is_empty() {
            push_section(sections, self.output_wrapper("Error", cmd, result.stderr.as_str()));
        }
        assert(strings_view(sections@) =~= before + result_sections(cmd@, result@));
    }

    fn push_block_result_sections(
        &self,
        sections: &mut Vec<String>,
        block: &CodeBlock,
        results: &Vec<ExecutionResult>,
    )
        ensures
            strings_view(final(sections)@) == strings_view(old(sections)@) + block_result_sections(
                block@,
                results_view(results@),
            ),
    {
        let ghost before = strings_view(sections@);
        let ghost all = results_view(results@);
        let id = block.id();
        let cmd = text_of_option(&block.options.cmd);
        let mut i: usize = 0;
        assert(all.take(0) =~= Seq::<ResultView>::empty());
        assert(strings_view(sections@) =~= before + block_result_sections(block@, all.take(0)));
        while i < results.len()
            invariant
                i <= results@.len(),
                all == results_view(results@),
                id@ == block@.id(),
                cmd@ == text_or_empty(block@.options.cmd),
                strings_view(sections@) == before + block_result_sections(block@, all.take(i as int)),
            decreases results@.len() - i,
        {
            let ghost so_far = block_result_sections(block@, all.take(i as int));
            assert(all.take(i + 1).drop_last() =~= all.take(i as int));
            assert(all.take(i + 1).last() == results@[i as int]@);
            if same_text(results[i].block_id.as_str(), id.as_str()) {
                self.push_result_sections(sections, cmd.as_str(), &results[i]);
                assert(strings_view(sections@) =~= before + (so_far + result_sections(
                    cmd@,
                    results@[i as int]@,
                )));
            }
            i += 1;
        }
        assert(all.take(results@.len() as int) =~= all);
    }

    fn push_block_fragments(
        &self,
        fragments: &mut Vec<(usize, String)>,
        block: &CodeBlock,
        results: &Vec<ExecutionResult>,
    )
        requires
            block.end_index < usize::MAX,
        ensures
            fragments_view(final(fragments)@) == fragments_view(old(fragments)@) + block_fragments(
                block@,
                results_view(results@),
            ),
    {
        let ghost start = fragments_view(fragments@);
        if !block.is_closed() {
            assert(fragments_view(fragments@) =~= start + block_fragments(
                block@,
                results_view(results@),
            ));
            return ;
        }
        let hidden = match block.options.hide {
            Some(flag) => flag,
            None => false,
        };
        let id = block.id();
        let mut before: Vec<String> = Vec::new();
        let mut after: Vec<String> = Vec::new();
        assert(strings_view(before@) =~= Seq::<Seq<char>>::empty());
        assert(strings_view(after@) =~= Seq::<Seq<char>>::empty());
        push_section(&mut before, self.block_wrapper_begin(id.as_str()));
        if !hidden {
            let name = text_of_option(&block.options.name);
            push_section(&mut before, self.collabsible_wrapper_begin("Input", name.as_str()));
            push_section(&mut after, self.collabsible_wrapper_end());
        }
        assert(strings_view(before@) =~= sections_before(block@));
        let ghost input_end = strings_view(after@);
        self.push_block_result_sections(&mut after, block, results);
        push_section(&mut after, self.block_wrapper_end());
        assert(strings_view(after@) =~= sections_after(block@, results_view(results@)));
        push_sections_at(fragments, block.start_index, before);
        push_sections_at(fragments, block.end_index + 1, after);
        assert(fragments_view(fragments@) =~= start + block_fragments(
            block@,
            results_view(results@),
        ));
    }

    /// The insertions that wrap the blocks of a note and show the results
    /// that belong to each.
    fn wrap_blocks(&self, blocks: &Vec<CodeBlock>, results: &Vec<ExecutionResult>) -> (fragments: Vec<
        (usize, String),
    >)
        requires
            forall|k: int| 0 <= k < blocks@.len() ==> (#[trigger] blocks@[k]).end_index < usize::MAX,
        ensures
            fragments_view(fragments@) == document_fragments(
                blocks_view(blocks@),
                results_view(results@),
            ),
    {
        let ghost all = blocks_view(blocks@);
        let ghost shown = results_view(results@);
        let mut fragments: Vec<(usize, String)> = Vec::new();
        let mut i: usize = 0;
        assert(all.take(0) =~= Seq::<BlockView>::empty());
        assert(fragments_view(fragments@) =~= document_fragments(all.take(0), shown));
        while i < blocks.len()
            invariant
                i <= blocks@.len(),
                all == blocks_view(blocks@),
                shown == results_view(results@),
                forall|k: int|
                    0 <= k < blocks@.len() ==> (#[trigger] blocks@[k]).end_index < usize::MAX,
                fragments_view(fragments@) == document_fragments(all.take(i as int), shown),
            decreases blocks@.len() - i,
        {
            assert(all.take(i + 1).drop_last() =~= all.take(i as int));
            assert(all.take(i + 1).last() == blocks@[i as int]@);
            self.push_block_fragments(&mut fragments, &blocks[i], results);
            i += 1;
        }
        assert(all.take(blocks@.len() as int) =~= all);
        fragments
    }

    /// Renders a note with the results of its commands: finds the code
    /// blocks of the markdown text, wraps each closed block in its list,
    /// shows the results that carry the block's identifier behind the
    /// block, and writes the page. Returns the page and the blocks.
    pub fn annotate(&self, markdown: &str, results: &Vec<ExecutionResult>) -> (rendered: (
        String,
        Vec<CodeBlock>,
    ))
        ensures
            rendered.0@ == annotated_html(markdown@, results_view(results@)),
            blocks_view(rendered.1@) == extract_blocks(markdown_tokens(markdown@)),
    {
        let events = parse_events(markdown);
        let tokens = tokens_of(&events);
        let blocks = extract(&tokens);
        let len = events.len();
        assert(tokens@.len() == len) by {
            assert(tokens_view(tokens@).len() == event_tokens(events@).len());
        }
        assert forall|k: int| 0 <= k < blocks@.len() implies (#[trigger] blocks@[k]).end_index
            < usize::MAX by {
            if blocks@[k].end_index != 0 {
                assert(blocks@[k].end_index < tokens@.len());
            }
        }
        let fragments = self.wrap_blocks(&blocks, results);
        let ghost model = blocks_view(blocks@);
        let ghost shown = results_view(results@);
        let ghost wanted = document_fragments(model, shown);
        proof {
            assert forall|k: int| 0 <= k < model.len() implies block_fits(
                #[trigger] model[k],
                events@.len(),
            ) by {
                assert(model[k] == blocks@[k]@);
            }
            assert forall|k: int, l: int| 0 <= k < l < model.len() implies (
            #[trigger] model[k]).is_closed() && model[k].end_index < (
            #[trigger] model[l]).start_index by {
                assert(model[k] == blocks@[k]@);
                assert(model[l] == blocks@[l]@);
            }
            lemma_fragments_fit(model, shown, events@.len(), model.len());
            assert(model.take(model.len() as int) =~= model);
        }
        let mut insertions: Vec<(usize, pulldown_cmark::Event)> = Vec::new();
        assert(insertions@ =~= fragment_events(wanted.take(0)));
        for fragment in it: fragments
            invariant
                fragments_view(it.seq()) == wanted,
                insertions@ == fragment_events(wanted.take(it.index() as int)),
        {
            let ghost n = it.index() as int;
            assert(fragments_view(it.seq())[n] == (fragment.0, fragment.1@));
            let (target, html) = fragment;
            insertions.push((target, html_event(html)));
            assert(insertions@ =~= fragment_events(wanted.take(n + 1)));
        }
        assert(wanted.take(wanted.len() as int) =~= wanted);
        assert(targets_in_range(insertions@, events@.len())) by {
            assert forall|k: int| 0 <= k < insertions@.len() implies (
            #[trigger] insertions@[k]).0 <= events@.len() by {
                assert(wanted[k].0 <= events@.len());
            }
        }
        let annotated = splice(events, insertions);
        (write_html(annotated), blocks)
    }

    /// A renderer for the notes of a directory. The directory is the one
    /// that the container will see at its mount point.
    pub fn new(notebook_dir: &str) -> (renderer: Renderer)
        ensures
            renderer@ == RendererView::fresh(notebook_dir@),
            renderer@.well_formed(),
    {
        let renderer = Renderer {
            notebook_dir: String::from_str(notebook_dir),
            phase: Phase::Uninitialized,
            blocks: Vec::new(),
            next: 0,
        };
        assert(blocks_view(renderer.blocks@) =~= Seq::<BlockView>::empty());
        renderer
    }

    /// Renders a note to its page and takes over its blocks, with the
    /// cursor at the first of them. A container that is up stays up.
    pub fn render(&mut self, markdown: &str) -> (html: String)
        ensures
            html@ == annotated_html(markdown@, Seq::<ResultView>::empty()),
            final(self)@ == old(self)@.loaded(extract_blocks(markdown_tokens(markdown@))),
            final(self)@.well_formed(),
    {
        let results: Vec<ExecutionResult> = Vec::new();
        assert(results_view(results@) =~= Seq::<ResultView>::empty());
        let (html, blocks) = self.annotate(markdown, &results);
        let kept = match &self.phase {
            Phase::Executing(container) => Some(container.clone()),
            _ => None,
        };
        proof {
            use_type_invariant(&*self);
        }
        match kept {
            Some(container) => {
                self.phase = Phase::Running(container);
            },
            None => {},
        }
        self.next = 0;
        self.blocks = blocks;
        html
    }

    /// The blocks of the note rendered last, in document order.
    pub fn blocks(&self) -> (blocks: &Vec<CodeBlock>)
        ensures
            blocks_view(blocks@) == self@.blocks,
    {
        &self.blocks
    }

    /// The files that the note asks to be written into its directory
    /// before anything is run: the name and the content of each.
    pub fn named_files(&self) -> (files: Vec<(String, String)>)
        ensures
            files@.len() == files_of(self@.blocks).len(),
            forall|i: int|
                0 <= i < files@.len() ==> ((#[trigger] files@[i]).0@, files@[i].1@) == files_of(
                    self@.blocks,
                )[i],
    {
        let ghost all = blocks_view(self.blocks@);
        let mut files: Vec<(String, String)> = Vec::new();
        let mut i: usize = 0;
        assert(all.take(0) =~= Seq::<BlockView>::empty());
        while i < self.blocks.len()
            invariant
                i <= self.blocks@.len(),
                all == blocks_view(self.blocks@),
                files@.len() == files_of(all.take(i as int)).len(),
                forall|j: int|
                    0 <= j < files@.len() ==> ((#[trigger] files@[j]).0@, files@[j].1@) == files_of(
                        all.take(i as int),
                    )[j],
            decreases self.blocks@.len() - i,
        {
            assert(all.take(i + 1).drop_last() =~= all.take(i as int));
            assert(all.take(i + 1).last() == self.blocks@[i as int]@);
            match &self.blocks[i].options.name {
                Some(name) => {
                    files.push((name.clone(), self.blocks[i].code.clone()));
                },
                None => {},
            }
            i += 1;
        }
        assert(all.take(self.blocks@.len() as int) =~= all);
        files
    }

    fn next_directed_index(&self) -> (at: usize)
        ensures
            at == next_directed(self@.blocks, self@.next),
            self@.next <= at <= self@.blocks.len(),
            at < self@.blocks.len() ==> self@.blocks[at as int].is_directed(),
    {
        let ghost all = blocks_view(self.blocks@);
        let mut at = self.next;
        proof {
            use_type_invariant(self);
            lemma_next_directed(all, self.next as nat);
        }
        while at < self.blocks.len() && !self.blocks[at].is_directed()
            invariant
                self.next <= at <= self.blocks@.len(),
                all == blocks_view(self.blocks@),
                next_directed(all, at as nat) == next_directed(all, self.next as nat),
            decreases self.blocks@.len() - at,
        {
            assert(all[at as int] == self.blocks@[at as int]@);
            at += 1;
        }
        proof {
            if at < self.blocks@.len() {
                assert(all[at as int] == self.blocks@[at as int]@);
            }
        }
        at
    }

    /// Whether nothing is left to run: every block that asks for a command
    /// has had its result, or the session has failed or was cleaned up.
    pub fn execution_finished(&self) -> (finished: bool)
        ensures
            finished == self@.finished(),
    {
        match &self.phase {
            Phase::Failed => true,
            Phase::Stopped => true,
            _ => self.next_directed_index() >= self.blocks.len(),
        }
    }

    /// Says what is to be done next, and moves on to waiting for it.
    pub fn next_action(&mut self) -> (action: Action)
        ensures
            (final(self)@, action@) == old(self)@.poll(),
            final(self)@.well_formed(),
            !(action is Idle) ==> old(self)@.has_pending(),
    {
        proof {
            use_type_invariant(&*self);
        }
        if self.execution_finished() {
            return Action::Idle;
        }
        let at = self.next_directed_index();
        let ghost all = blocks_view(self.blocks@);
        assert(all[at as int] == self.blocks@[at as int]@);
        let step = match &self.phase {
            Phase::Uninitialized => Some(
                (Phase::ImageBuilding, Action::Build(Image::build_args("notebook-image")), self.next),
            ),
            Phase::ImageReady(image) => Some(
                (
                    Phase::Starting(image.clone()),
                    Action::Start(Container::start_args(image, self.notebook_dir.as_str())),
                    self.next,
                ),
            ),
            Phase::Running(container) => {
                let block = &self.blocks[at];
                let cmd = text_of_option(&block.options.cmd);
                Some(
                    (
                        Phase::Executing(container.clone()),
                        Action::Exec(container.exec(cmd.as_str(), block.code.as_str())),
                        at,
                    ),
                )
            },
            _ => None,
        };
        match step {
            Some((phase, action, next)) => {
                self.next = next;
                self.phase = phase;
                action
            },
            None => Action::Idle,
        }
    }

    /// Takes what came of the action asked for last, and returns the
    /// result to deliver, if there is one.
    pub fn execute(&mut self, outcome: Outcome) -> (result: Option<ExecutionResult>)
        ensures
            final(self)@ == old(self)@.report(outcome@).0,
            match result {
                Some(r) => old(self)@.report(outcome@).1 == Some(r@),
                None => old(self)@.report(outcome@).1 is None,
            },
            final(self)@.well_formed(),
    {
        let ghost all = blocks_view(self.blocks@);
        proof {
            use_type_invariant(&*self);
        }
        let step = match &self.phase {
            Phase::ImageBuilding => {
                let built = match &outcome {
                    Outcome::Output { stdout, stderr } => Image::build(
                        "notebook-image",
                        stdout.as_str(),
                    ),
                    Outcome::Failure => None,
                };
                match built {
                    Some(image) => Some((Phase::ImageReady(image), None, self.next)),
                    None => Some((Phase::Failed, Some(self.error()), self.next)),
                }
            },
            Phase::Starting(image) => {
                let started = match &outcome {
                    Outcome::Output { stdout, stderr } => Container::start(
                        image.clone(),
                        stdout.as_str(),
                        stderr.as_str(),
                    ),
                    Outcome::Failure => None,
                };
                match started {
                    Some(container) => Some((Phase::Running(container), None, self.next)),
                    None => Some((Phase::Failed, Some(self.error()), self.next)),
                }
            },
            Phase::Executing(container) => {
                assert(all[self.next as int] == self.blocks@[self.next as int]@);
                let len = self.blocks.len();
                assert(self.next < len);
                let block_id = self.blocks[self.next].id();
                let result = match outcome {
                    Outcome::Output { stdout, stderr } => ExecutionResult { block_id, stdout, stderr },
                    Outcome::Failure => ExecutionResult {
                        block_id,
                        stdout: String::new(),
                        stderr: self.exec_error(),
                    },
                };
                Some((Phase::Running(container.clone()), Some(result), self.next + 1))
            },
            _ => None,
        };
        match step {
            Some((phase, result, next)) => {
                self.phase = phase;
                self.next = next;
                result
            },
            None => None,
        }
    }

    fn error(&self) -> (result: ExecutionResult)
        ensures
            result@ == error_result(),
    {
        ExecutionResult {
            block_id: self.internal_error(),
            stdout: self.internal_error(),
            stderr: self.internal_error(),
        }
    }

    /// Ends the session. Where a container is up, returns the arguments
    /// of the container runtime that remove it; what comes of running
    /// them does not matter to the renderer.
    pub fn clean_up(&mut self) -> (kill: Option<Vec<String>>)
        ensures
            final(self)@ == old(self)@.teardown().0,
            match kill {
                Some(args) => old(self)@.teardown().1 == Some(strings_view(args@)),
                None => old(self)@.teardown().1 is None,
            },
            final(self)@.well_formed(),
            final(self)@.finished(),
    {
        proof {
            use_type_invariant(&*self);
        }
        let kill = match &self.phase {
            Phase::Running(container) => Some(container.clone().kill()),
            Phase::Executing(container) => Some(container.clone().kill()),
            _ => None,
        };
        self.phase = Phase::Stopped;
        self.next = self.blocks.len();
        proof {
            lemma_next_directed(blocks_view(self.blocks@), self.next as nat);
        }
        kill
    }
}

/// The block lies within a sequence of `len` events: where it is closed,
/// it starts before it ends, and ends before the sequence does.
pub open spec fn block_fits(block: BlockView, len: nat) -> bool {
    block.is_closed() ==> block.start_index < block.end_index < len
}

/// The fragments of blocks that lie within a sequence of events, one
/// after the other, aim into that sequence and never aim backwards, so
/// that the splice puts each where it is meant to stand.
pub proof fn lemma_fragments_fit(
    blocks: Seq<BlockView>,
    results: Seq<ResultView>,
    len: nat,
    m: nat,
)
    requires
        len <= usize::MAX,
        m <= blocks.len(),
        forall|k: int| 0 <= k < blocks.len() ==> block_fits(#[trigger] blocks[k], len),
        forall|k: int, l: int|
            0 <= k < l < blocks.len() ==> (#[trigger] blocks[k]).is_closed()
                && blocks[k].end_index < (#[trigger] blocks[l]).start_index,
    ensures
        forall|i: int|
            0 <= i < document_fragments(blocks.take(m as int), results).len() ==> (
            #[trigger] document_fragments(blocks.take(m as int), results)[i]).0 <= len,
        forall|i: int|
            0 <= i < document_fragments(blocks.take(m as int), results).len() && m < blocks.len()
                ==> (#[trigger] document_fragments(blocks.take(m as int), results)[i]).0
                <= blocks[m as int].start_index,
        forall|i: int, j: int|
            0 <= i <= j < document_fragments(blocks.take(m as int), results).len() ==> (
            #[trigger] document_fragments(blocks.take(m as int), results)[i]).0 <= (
            #[trigger] document_fragments(blocks.take(m as int), results)[j]).0,
    decreases m,
{
    if m > 0 {
        let n = (m - 1) as nat;
        lemma_fragments_fit(blocks, results, len, n);
        let before = document_fragments(blocks.take(n as int), results);
        let block = blocks[n as int];
        let own = block_fragments(block, results);
        let all = document_fragments(blocks.take(m as int), results);
        assert(blocks.take(m as int).drop_last() =~= blocks.take(n as int));
        assert(blocks.take(m as int).last() == block);
        assert(all == before + own);
        assert(block_fits(block, len));
        if m < blocks.len() {
            assert(block.is_closed() && block.end_index < blocks[m as int].start_index);
            assert(block_fits(blocks[m as int], len));
        }
        assert forall|i: int| 0 <= i < own.len() implies (#[trigger] own[i]).0 <= len && (
        #[trigger] own[i]).0 >= block.start_index && (m < blocks.len() ==> own[i].0
            <= blocks[m as int].start_index) by {}
        assert forall|i: int, j: int| 0 <= i <= j < own.len() implies (#[trigger] own[i]).0 <= (
        #[trigger] own[j]).0 by {}
        assert forall|i: int, j: int| 0 <= i <= j < all.len() implies (#[trigger] all[i]).0 <= (
        #[trigger] all[j]).0 by {
            if j >= before.len() {
                assert(all[j] == own[j - before.len()]);
                if i >= before.len() {
                    assert(all[i] == own[i - before.len()]);
                } else {
                    assert(all[i] == before[i]);
                }
            } else {
                assert(all[i] == before[i]);
                assert(all[j] == before[j]);
            }
        }
        assert forall|i: int| 0 <= i < all.len() implies (#[trigger] all[i]).0 <= len && (m
            < blocks.len() ==> all[i].0 <= blocks[m as int].start_index) by {
            if i >= before.len() {
                assert(all[i] == own[i - before.len()]);
            } else {
                assert(all[i] == before[i]);
            }
        }
    } else {
        assert(blocks.take(0) =~= Seq::<BlockView>::empty());
    }
}

} // verus!
