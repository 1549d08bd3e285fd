use bashable_notes::renderer::{Action, ExecutionResult, Outcome, Renderer};

const SECTION_BEGIN_A: &str = "\n            <li class=\"uk-open\">\n                <a class=\"uk-accordion-title uk-text-small\" href=\"#\"><span class=\"uk-text-bold\">";
const SECTION_BEGIN_B: &str = "</span> <span class=\"uk-text-muted\">";
const SECTION_BEGIN_C: &str = "</span></a>\n                <div class=\"uk-accordion-content\">";
const SECTION_END: &str = "\n                </div>\n            </li>";

fn section_begin(title: &str, subtext: &str) -> String {
    format!("{}{}{}{}{}", SECTION_BEGIN_A, title, SECTION_BEGIN_B, subtext, SECTION_BEGIN_C)
}

fn output(stdout: &str, stderr: &str) -> Outcome {
    Outcome::Output { stdout: stdout.to_string(), stderr: stderr.to_string() }
}

fn args_of(action: Action) -> Vec<String> {
    match action {
        Action::Build(args) => args,
        Action::Start(args) => args,
        Action::Exec(args) => args,
        Action::Idle => panic!("an action was expected"),
    }
}

const BUILT: &str = "Sending build context\nSuccessfully tagged notebook-image:latest\n";

#[test]
fn wrappers_have_their_exact_text() {
    let renderer = Renderer::new(".");
    assert_eq!(
        renderer.collabsible_wrapper_begin("Input", "a.txt"),
        "\n            <li class=\"uk-open\">\n                <a class=\"uk-accordion-title uk-text-small\" href=\"#\"><span class=\"uk-text-bold\">Input</span> <span class=\"uk-text-muted\">a.txt</span></a>\n                <div class=\"uk-accordion-content\">"
    );
    assert_eq!(renderer.collabsible_wrapper_end(), "\n                </div>\n            </li>");
    assert_eq!(renderer.internal_error(), "Internal server error");
    assert_eq!(renderer.exec_error(), "BashableNotes internal error");
    assert_eq!(
        renderer.output_wrapper("Output", "ls", "a.txt\n"),
        format!(
            "{}<pre><code class=\"language-nohighlight hljs\">a.txt\n</code></pre>{}",
            section_begin("Output", "ls"),
            SECTION_END
        )
    );
}

#[test]
fn render_wraps_a_code_block() {
    let mut renderer = Renderer::new("/notes");
    let html = renderer.render("# Title\n\n```\n{\"name\": \"a.txt\", \"cmd\": \"cat a.txt\"}\nhello\n```\n");
    let expected = format!(
        "<h1>Title</h1>\n<ul uk-accordion=\"multiple: true\" id=\"block-0\">{}\n<pre><code>{{&quot;name&quot;: &quot;a.txt&quot;, &quot;cmd&quot;: &quot;cat a.txt&quot;}}\nhello\n</code></pre>\n{}</ul>",
        section_begin("Input", "a.txt"),
        SECTION_END
    );
    assert_eq!(html, expected);
    let blocks = renderer.blocks();
    assert_eq!(blocks.len(), 1);
    assert_eq!(blocks[0].index, 0);
    assert_eq!(blocks[0].start_index, 3);
    assert_eq!(blocks[0].end_index, 6);
    assert_eq!(blocks[0].code, "hello\n");
}

#[test]
fn render_of_plain_markdown_adds_nothing() {
    let mut renderer = Renderer::new("/notes");
    let html = renderer.render("hello *world*\n");
    assert_eq!(html, "<p>hello <em>world</em></p>\n");
    assert!(renderer.blocks().is_empty());
    assert!(renderer.execution_finished());
}

#[test]
fn render_leaves_out_the_input_section_of_a_hidden_block() {
    let mut renderer = Renderer::new("/notes");
    let html = renderer.render("```\n{\"hide\": true}\nsecret\n```\n");
    assert_eq!(
        html,
        "<ul uk-accordion=\"multiple: true\" id=\"block-0\">\n<pre><code>{&quot;hide&quot;: true}\nsecret\n</code></pre>\n</ul>"
    );
}

#[test]
fn render_numbers_the_blocks_in_document_order() {
    let mut renderer = Renderer::new("/notes");
    let html = renderer.render("```\none\n```\n\ntext\n\n```\ntwo\n```\n");
    let first = html.find("id=\"block-0\"").expect("the first block");
    let second = html.find("id=\"block-1\"").expect("the second block");
    assert!(first < second);
    assert!(html.find("id=\"block-2\"").is_none());
    assert_eq!(html.matches("<span class=\"uk-text-bold\">Input</span>").count(), 2);
    assert_eq!(html.matches("</ul>").count(), 2);
    let code_one = html.find("one\n").expect("the first code");
    let code_two = html.find("two\n").expect("the second code");
    assert!(first < code_one && code_one < second && second < code_two);
}

#[test]
fn rendering_twice_gives_the_same_page_and_blocks() {
    let note = "# A\n\n```py\n{\"name\": \"a.py\", \"cmd\": \"python a.py\"}\nprint(1)\n```\n\nmore\n\n```\nplain\n```\n";
    let mut renderer = Renderer::new("/notes");
    let first = renderer.render(note);
    let first_blocks: Vec<(usize, usize, usize, String)> = renderer
        .blocks()
        .iter()
        .map(|b| (b.index, b.start_index, b.end_index, b.code.clone()))
        .collect();
    let second = renderer.render(note);
    let second_blocks: Vec<(usize, usize, usize, String)> = renderer
        .blocks()
        .iter()
        .map(|b| (b.index, b.start_index, b.end_index, b.code.clone()))
        .collect();
    assert_eq!(first, second);
    assert_eq!(first_blocks, second_blocks);
    let mut other = Renderer::new("/elsewhere");
    assert_eq!(other.render(note), first);
}

#[test]
fn annotate_shows_results_behind_their_block() {
    let renderer = Renderer::new("/notes");
    let results = vec![
        ExecutionResult { block_id: "block-1".to_string(), stdout: "out\n".to_string(), stderr: "err\n".to_string() },
        ExecutionResult { block_id: "block-0".to_string(), stdout: String::new(), stderr: String::new() },
        ExecutionResult { block_id: "block-9".to_string(), stdout: "lost".to_string(), stderr: String::new() },
    ];
    let (html, blocks) = renderer.annotate("```\n{\"cmd\": \"a\"}\n```\n\n```\n{\"cmd\": \"b\"}\n```\n", &results);
    assert_eq!(blocks.len(), 2);
    let expected = format!(
        "<ul uk-accordion=\"multiple: true\" id=\"block-0\">{input}\n<pre><code>{{&quot;cmd&quot;: &quot;a&quot;}}\n</code></pre>\n{end}</ul><ul uk-accordion=\"multiple: true\" id=\"block-1\">{input}\n<pre><code>{{&quot;cmd&quot;: &quot;b&quot;}}\n</code></pre>\n{end}{out}<pre><code class=\"language-nohighlight hljs\">out\n</code></pre>{end}{err}<pre><code class=\"language-nohighlight hljs\">err\n</code></pre>{end}</ul>",
        input = section_begin("Input", ""),
        end = SECTION_END,
        out = section_begin("Output", "b"),
        err = section_begin("Error", "b"),
    );
    assert_eq!(html, expected);
}

#[test]
fn named_files_lists_the_blocks_with_a_name() {
    let mut renderer = Renderer::new("/notes");
    renderer.render("```\n{\"name\": \"a.txt\"}\nalpha\n```\n\n```\nno name\n```\n\n```\n{\"name\": \"dir/b.txt\", \"cmd\": \"cat dir/b.txt\"}\nbeta\ngamma\n```\n");
    assert_eq!(
        renderer.named_files(),
        vec![
            ("a.txt".to_string(), "alpha\n".to_string()),
            ("dir/b.txt".to_string(), "beta\ngamma\n".to_string()),
        ]
    );
}

#[test]
fn a_note_without_commands_never_asks_for_a_container() {
    let mut renderer = Renderer::new("/notes");
    renderer.render("```\n{\"name\": \"a.txt\"}\nalpha\n```\n\n```\nplain\n```\n");
    assert!(renderer.execution_finished());
    for round in 0..6 {
        assert!(matches!(renderer.next_action(), Action::Idle));
        let outcome = if round % 2 == 0 { output(BUILT, "") } else { Outcome::Failure };
        assert!(renderer.execute(outcome).is_none());
        assert!(renderer.execution_finished());
    }
    assert!(renderer.clean_up().is_none());
}

#[test]
fn a_block_with_a_name_and_a_command_is_saved_and_run() {
    let mut renderer = Renderer::new("/notes");
    renderer.render("```\n{\"name\": \"a.txt\", \"cmd\": \"cat a.txt\"}\nhello\nworld\n```\n");
    let files = renderer.named_files();
    assert_eq!(files, vec![("a.txt".to_string(), "hello\nworld\n".to_string())]);
    assert!(!renderer.execution_finished());

    assert_eq!(
        args_of(renderer.next_action()),
        vec!["build", "--network=host", ".", "-t", "notebook-image"]
    );
    assert!(matches!(renderer.next_action(), Action::Idle));
    assert!(renderer.execute(output(BUILT, "")).is_none());

    assert_eq!(
        args_of(renderer.next_action()),
        vec!["run", "-i", "-d", "-v", "/notes:/home", "--net=host", "notebook-image"]
    );
    assert!(renderer.execute(output("c0ffee\n", "")).is_none());

    let exec = renderer.next_action();
    assert!(matches!(exec, Action::Exec(_)));
    assert_eq!(
        args_of(exec),
        vec!["exec", "--env", "CODE=hello\nworld\n", "c0ffee", "bash", "-c", "cd home && cat a.txt"]
    );
    assert!(!renderer.execution_finished());
    let result = renderer.execute(output(&files[0].1, "")).expect("the result of the block");
    assert_eq!(result.block_id, "block-0");
    assert_eq!(result.stdout, "hello\nworld\n");
    assert_eq!(result.stderr, "");

    assert!(renderer.execution_finished());
    assert!(matches!(renderer.next_action(), Action::Idle));
    assert_eq!(renderer.clean_up(), Some(vec!["kill".to_string(), "c0ffee".to_string()]));
    assert!(renderer.execution_finished());
    assert!(renderer.clean_up().is_none());
}

#[test]
fn a_failed_build_gives_one_error_and_no_start() {
    let mut renderer = Renderer::new("/notes");
    renderer.render("```\n{\"cmd\": \"ls\"}\n```\n\n```\n{\"cmd\": \"pwd\"}\n```\n");
    assert!(matches!(renderer.next_action(), Action::Build(_)));
    let result = renderer
        .execute(output("Step 1/1 : FROM nothing\npull access denied\n", ""))
        .expect("the error result");
    assert_eq!(result.block_id, "Internal server error");
    assert_eq!(result.stdout, "Internal server error");
    assert_eq!(result.stderr, "Internal server error");
    assert!(renderer.execution_finished());
    for _ in 0..4 {
        assert!(matches!(renderer.next_action(), Action::Idle));
        assert!(renderer.execute(output(BUILT, "")).is_none());
        assert!(renderer.execute(Outcome::Failure).is_none());
    }
    assert!(renderer.clean_up().is_none());
}

#[test]
fn a_build_that_cannot_be_run_fails_the_session() {
    let mut renderer = Renderer::new("/notes");
    renderer.render("```\n{\"cmd\": \"ls\"}\n```\n");
    assert!(matches!(renderer.next_action(), Action::Build(_)));
    let result = renderer.execute(Outcome::Failure).expect("the error result");
    assert_eq!(result.stderr, "Internal server error");
    assert!(renderer.execution_finished());
    assert!(matches!(renderer.next_action(), Action::Idle));
}

#[test]
fn a_failed_start_records_no_container() {
    let mut renderer = Renderer::new("/notes");
    renderer.render("```\n{\"cmd\": \"ls\"}\n```\n");
    assert!(matches!(renderer.next_action(), Action::Build(_)));
    assert!(renderer.execute(output(BUILT, "warning on the error stream")).is_none());
    assert!(matches!(renderer.next_action(), Action::Start(_)));
    let result = renderer
        .execute(output("", "docker: Error response from daemon.\n"))
        .expect("the error result");
    assert_eq!(result.block_id, "Internal server error");
    assert!(renderer.execution_finished());
    assert!(matches!(renderer.next_action(), Action::Idle));
    assert!(renderer.clean_up().is_none());
}

#[test]
fn commands_run_in_document_order_and_skip_blocks_without_one() {
    let mut renderer = Renderer::new("/n");
    renderer.render("```\nplain\n```\n\n```\n{\"cmd\": \"first\"}\n1\n```\n\n```\n{\"name\": \"x\"}\n```\n\n```\n{\"cmd\": \"second\"}\n2\n```\n\n```\nlast\n```\n");
    assert!(matches!(renderer.next_action(), Action::Build(_)));
    assert!(renderer.execute(output(BUILT, "")).is_none());
    assert!(matches!(renderer.next_action(), Action::Start(_)));
    assert!(renderer.execute(output("id1", "")).is_none());

    let first = args_of(renderer.next_action());
    assert_eq!(first[2], "CODE=1\n");
    assert_eq!(first[6], "cd home && first");
    let result = renderer.execute(output("", "oops")).expect("a result");
    assert_eq!(result.block_id, "block-1");
    assert_eq!(result.stdout, "");
    assert_eq!(result.stderr, "oops");
    assert!(!renderer.execution_finished());

    let second = args_of(renderer.next_action());
    assert_eq!(second[2], "CODE=2\n");
    assert_eq!(second[6], "cd home && second");
    let result = renderer.execute(Outcome::Failure).expect("a result");
    assert_eq!(result.block_id, "block-3");
    assert_eq!(result.stdout, "");
    assert_eq!(result.stderr, "BashableNotes internal error");

    assert!(renderer.execution_finished());
    assert!(matches!(renderer.next_action(), Action::Idle));
    assert_eq!(renderer.clean_up(), Some(vec!["kill".to_string(), "id1".to_string()]));
}

#[test]
fn an_outcome_that_nothing_waits_for_changes_nothing() {
    let mut renderer = Renderer::new("/n");
    renderer.render("```\n{\"cmd\": \"ls\"}\n```\n");
    assert!(renderer.execute(output(BUILT, "")).is_none());
    assert!(renderer.execute(Outcome::Failure).is_none());
    assert!(!renderer.execution_finished());
    assert!(matches!(renderer.next_action(), Action::Build(_)));
}

#[test]
fn clean_up_during_a_command_removes_the_container() {
    let mut renderer = Renderer::new("/n");
    renderer.render("```\n{\"cmd\": \"sleep 100\"}\n```\n");
    assert!(matches!(renderer.next_action(), Action::Build(_)));
    assert!(renderer.execute(output(BUILT, "")).is_none());
    assert!(matches!(renderer.next_action(), Action::Start(_)));
    assert!(renderer.execute(output("abc\n", "")).is_none());
    assert!(matches!(renderer.next_action(), Action::Exec(_)));
    assert_eq!(renderer.clean_up(), Some(vec!["kill".to_string(), "abc".to_string()]));
    assert!(renderer.execution_finished());
    assert!(renderer.execute(output("late", "")).is_none());
    assert!(matches!(renderer.next_action(), Action::Idle));
}

#[test]
fn a_second_note_uses_the_container_that_is_up() {
    let mut renderer = Renderer::new("/n");
    renderer.render("```\n{\"cmd\": \"one\"}\n```\n");
    assert!(matches!(renderer.next_action(), Action::Build(_)));
    assert!(renderer.execute(output(BUILT, "")).is_none());
    assert!(matches!(renderer.next_action(), Action::Start(_)));
    assert!(renderer.execute(output("abc\n", "")).is_none());
    assert!(matches!(renderer.next_action(), Action::Exec(_)));
    renderer.render("```\n{\"cmd\": \"two\"}\n```\n");
    let exec = args_of(renderer.next_action());
    assert_eq!(exec[3], "abc");
    assert_eq!(exec[6], "cd home && two");
}
