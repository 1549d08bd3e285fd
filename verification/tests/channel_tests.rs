use bashable_notes::block::CodeBlock;
use bashable_notes::channel::{
    output_blocks, result_messages, AppMessage, JsonMsg, OutputBlock, OutputType, Request,
};
use bashable_notes::file_tree::{build_file_tree, FileTree};
use bashable_notes::liveness::{
    Command, Liveness, TimeoutError, EXPIRE, EXPIRE_WINDOW, PING, PING_INTERVAL,
};
use bashable_notes::renderer::{ExecutionResult, Renderer};

#[test]
fn plain_text_commands_are_read_as_requests() {
    assert!(matches!(Request::from_plain_text("init"), Some(Request::GetTree)));
    match Request::from_plain_text("get notes/a.md") {
        Some(Request::OpenFile { path }) => assert_eq!(path, "notes/a.md"),
        other => panic!("unexpected {:?}", other),
    }
    match Request::from_plain_text("get ") {
        Some(Request::OpenFile { path }) => assert_eq!(path, ""),
        other => panic!("unexpected {:?}", other),
    }
    match Request::from_plain_text("get  é.md") {
        Some(Request::OpenFile { path }) => assert_eq!(path, " é.md"),
        other => panic!("unexpected {:?}", other),
    }
    assert!(Request::from_plain_text("").is_none());
    assert!(Request::from_plain_text("get").is_none());
    assert!(Request::from_plain_text("init ").is_none());
    assert!(Request::from_plain_text("Get a.md").is_none());
    assert!(Request::from_plain_text("hello").is_none());
}

#[test]
fn typed_messages_are_read_as_requests() {
    match (AppMessage::OpenFile { path: "a.md".to_string() }).request() {
        Some(Request::OpenFile { path }) => assert_eq!(path, "a.md"),
        other => panic!("unexpected {:?}", other),
    }
    assert!(matches!(AppMessage::GetTree.request(), Some(Request::GetTree)));
    assert!((AppMessage::Error { error: "x".to_string() }).request().is_none());
    assert!((AppMessage::FileUpdate { path: "a.md".to_string() }).request().is_none());
    assert!(AppMessage::markdown("a.md".to_string(), "<p></p>".to_string()).request().is_none());
}

#[test]
fn a_result_becomes_an_output_message() {
    let result = ExecutionResult {
        block_id: "block-2".to_string(),
        stdout: "out".to_string(),
        stderr: "err".to_string(),
    };
    match AppMessage::output(result) {
        AppMessage::Output { id, stdout, stderr } => {
            assert_eq!(id, "block-2");
            assert_eq!(stdout, "out");
            assert_eq!(stderr, "err");
        }
        other => panic!("unexpected {:?}", other),
    }
    match AppMessage::markdown("p".to_string(), "h".to_string()) {
        AppMessage::Markdown { path, markdown } => {
            assert_eq!(path, "p");
            assert_eq!(markdown, "h");
        }
        other => panic!("unexpected {:?}", other),
    }
}

#[test]
fn output_blocks_gives_a_section_for_each_stream_that_holds_something() {
    let renderer = Renderer::new(".");
    let mut block = CodeBlock::new(4, 10);
    block.options.cmd = Some("make".to_string());

    assert!(output_blocks(&renderer, &block, "", "").is_empty());

    let both = output_blocks(&renderer, &block, "built\n", "warning\n");
    assert_eq!(both.len(), 2);
    assert_eq!(both[0].output_type, OutputType::Stdout);
    assert_eq!(both[0].index, 4);
    assert_eq!(both[0].output, renderer.output_wrapper("Output", "make", "built\n"));
    assert_eq!(both[1].output_type, OutputType::Stderr);
    assert_eq!(both[1].index, 4);
    assert_eq!(both[1].output, renderer.output_wrapper("Error", "make", "warning\n"));

    let only_error = output_blocks(&renderer, &block, "", "bad");
    assert_eq!(only_error.len(), 1);
    assert_eq!(only_error[0].output_type, OutputType::Stderr);

    let only_output = output_blocks(&renderer, &block, "good", "");
    assert_eq!(only_output.len(), 1);
    assert_eq!(only_output[0].output_type, OutputType::Stdout);
    assert!(only_output[0].output.contains("<pre><code class=\"language-nohighlight hljs\">good</code></pre>"));
}

#[test]
fn messages_carry_their_purpose() {
    let msg = JsonMsg::document("<p>x</p>".to_string());
    assert_eq!(msg.id, "document");
    assert_eq!(msg.data, "<p>x</p>");
    let msg = JsonMsg::file_tree("<li></li>".to_string());
    assert_eq!(msg.id, "file-tree");
    assert_eq!(msg.data, "<li></li>");
    let msg = JsonMsg::output(OutputBlock {
        output_type: OutputType::Stdout,
        index: 17,
        output: "<li>o</li>".to_string(),
    });
    assert_eq!(msg.id, "17");
    assert_eq!(msg.data, "<li>o</li>");
}

fn kinds(commands: &[Command<u32>]) -> Vec<String> {
    commands.iter().map(|c| format!("{:?}", c)).collect()
}

#[test]
fn opening_sets_both_timers() {
    let mut machine: Liveness<u32> = Liveness::new();
    let commands = machine.on_open();
    assert_eq!(
        kinds(&commands),
        vec![
            format!("Schedule {{ token: {}, delay: {} }}", PING, PING_INTERVAL),
            format!("Schedule {{ token: {}, delay: {} }}", EXPIRE, EXPIRE_WINDOW),
        ]
    );
    assert_eq!(PING, 1);
    assert_eq!(EXPIRE, 2);
    assert_eq!(PING_INTERVAL, 5_000);
    assert_eq!(EXPIRE_WINDOW, 30_000);
}

#[test]
fn the_ping_timer_pings_and_sets_itself_again() {
    let mut machine: Liveness<u32> = Liveness::new();
    machine.on_open();
    assert!(machine.on_new_timeout(PING, 7).is_empty());
    let commands = machine.on_timeout(PING).expect("a known token");
    assert_eq!(kinds(&commands), vec!["SendPing".to_string(), "Schedule { token: 1, delay: 5000 }".to_string()]);
    assert!(machine.on_new_timeout(PING, 8).is_empty());
}

#[test]
fn a_new_timer_cancels_the_one_it_replaces() {
    let mut machine: Liveness<u32> = Liveness::new();
    machine.on_open();
    assert!(machine.on_new_timeout(PING, 1).is_empty());
    assert!(machine.on_new_timeout(EXPIRE, 2).is_empty());
    assert_eq!(kinds(&machine.on_new_timeout(EXPIRE, 3)), vec!["Cancel(2)".to_string()]);
    assert_eq!(kinds(&machine.on_new_timeout(PING, 4)), vec!["Cancel(1)".to_string()]);
    assert_eq!(kinds(&machine.on_new_timeout(99, 5)), vec!["Cancel(4)".to_string()]);
    assert_eq!(kinds(&machine.on_close()), vec!["Cancel(5)".to_string(), "Cancel(3)".to_string()]);
    assert!(machine.on_close().is_empty());
}

#[test]
fn any_frame_sets_the_expire_timer_anew() {
    let mut machine: Liveness<u32> = Liveness::new();
    machine.on_open();
    for _ in 0..3 {
        assert_eq!(kinds(&machine.on_frame()), vec!["Schedule { token: 2, delay: 30000 }".to_string()]);
    }
}

#[test]
fn the_expire_timer_closes_the_connection() {
    let mut machine: Liveness<u32> = Liveness::new();
    machine.on_open();
    machine.on_new_timeout(PING, 1);
    machine.on_new_timeout(EXPIRE, 2);
    machine.on_frame();
    assert_eq!(kinds(&machine.on_timeout(EXPIRE).expect("a known token")), vec!["Close".to_string()]);
    assert_eq!(kinds(&machine.on_close()), vec!["Cancel(1)".to_string(), "Cancel(2)".to_string()]);
    assert!(machine.on_close().is_empty());
}

#[test]
fn the_reactions_are_the_same_in_every_state() {
    let mut machine: Liveness<u32> = Liveness::new();
    let ping = vec!["SendPing".to_string(), "Schedule { token: 1, delay: 5000 }".to_string()];
    let frame = vec!["Schedule { token: 2, delay: 30000 }".to_string()];
    let close = vec!["Close".to_string()];
    for round in 0..3 {
        assert_eq!(kinds(&machine.on_timeout(PING).expect("a known token")), ping);
        assert_eq!(kinds(&machine.on_frame()), frame);
        assert_eq!(kinds(&machine.on_timeout(EXPIRE).expect("a known token")), close);
        match round {
            0 => {
                machine.on_open();
            }
            1 => {
                machine.on_error();
            }
            _ => {
                machine.on_close();
            }
        }
    }
    assert_eq!(kinds(&machine.on_timeout(PING).expect("a known token")), ping);
    assert_eq!(kinds(&machine.on_frame()), frame);
    assert_eq!(kinds(&machine.on_timeout(EXPIRE).expect("a known token")), close);
}

#[test]
fn an_unknown_token_is_an_error() {
    let mut machine: Liveness<u32> = Liveness::new();
    machine.on_open();
    assert_eq!(machine.on_timeout(0).err(), Some(TimeoutError::InvalidToken));
    assert_eq!(machine.on_timeout(3).err(), Some(TimeoutError::InvalidToken));
    assert_eq!(kinds(&machine.on_frame()), vec!["Schedule { token: 2, delay: 30000 }".to_string()]);
}

#[test]
fn a_transport_error_shuts_the_connection_down() {
    let mut machine: Liveness<u32> = Liveness::new();
    machine.on_open();
    machine.on_new_timeout(PING, 1);
    assert_eq!(kinds(&machine.on_error()), vec!["Shutdown".to_string()]);
    assert_eq!(kinds(&machine.on_close()), vec!["Cancel(1)".to_string()]);
}

#[test]
fn a_result_of_a_block_becomes_its_output_messages() {
    let mut renderer = Renderer::new(".");
    renderer.render("```\nplain\n```\n\n```\n{\"cmd\": \"make\"}\n```\n");
    let result = ExecutionResult {
        block_id: "block-1".to_string(),
        stdout: "built\n".to_string(),
        stderr: "warning\n".to_string(),
    };
    let messages = result_messages(&renderer, &result);
    assert_eq!(messages.len(), 2);
    assert_eq!(messages[0].id, "1");
    assert_eq!(messages[0].data, renderer.output_wrapper("Output", "make", "built\n"));
    assert_eq!(messages[1].id, "1");
    assert_eq!(messages[1].data, renderer.output_wrapper("Error", "make", "warning\n"));

    let silent = ExecutionResult {
        block_id: "block-0".to_string(),
        stdout: String::new(),
        stderr: String::new(),
    };
    assert!(result_messages(&renderer, &silent).is_empty());
}

#[test]
fn a_result_of_no_block_becomes_one_error_message() {
    let mut renderer = Renderer::new(".");
    renderer.render("```\n{\"cmd\": \"make\"}\n```\n");
    let result = ExecutionResult {
        block_id: "Internal server error".to_string(),
        stdout: "Internal server error".to_string(),
        stderr: "Internal server error".to_string(),
    };
    let messages = result_messages(&renderer, &result);
    assert_eq!(messages.len(), 1);
    assert_eq!(messages[0].id, "error");
    assert_eq!(messages[0].data, renderer.output_wrapper("Error", "", "Internal server error"));
}

#[test]
fn error_messages_carry_their_text() {
    let msg = JsonMsg::error("<li>bad</li>".to_string());
    assert_eq!(msg.id, "error");
    assert_eq!(msg.data, "<li>bad</li>");
    match AppMessage::error("no such note".to_string()) {
        AppMessage::Error { error } => assert_eq!(error, "no such note"),
        other => panic!("unexpected {:?}", other),
    }
}

#[test]
fn the_menu_lists_files_and_folders() {
    let tree = vec![
        FileTree::File { name: "a.md".to_string(), path: "/n/a.md".to_string() },
        FileTree::Folder {
            name: "sub".to_string(),
            subtree: vec![
                FileTree::File { name: "b.md".to_string(), path: "/n/sub/b.md".to_string() },
                FileTree::Folder { name: "empty".to_string(), subtree: Vec::new() },
            ],
        },
    ];
    let file = |path: &str, name: &str| {
        format!(
            "\n                    <li>\n                        <a href=\"#\" onclick=\"goto('{}')\"><span uk-icon=\"icon: file\" class=\"uk-margin-small-right\"></span>{}</a>\n                    </li>",
            path, name
        )
    };
    let folder = |name: &str, inner: &str| {
        format!(
            "\n                <li class=\"uk-parent\">\n                    <a href=\"#\">\n                        <span uk-icon=\"icon: folder\" class=\"uk-margin-small-right\"></span>{}</a>\n                <ul class=\"uk-nav-sub uk-nav-parent-icon\" uk-nav=\"multiple: true\">{}</ul></li>",
            name, inner
        )
    };
    let expected = format!(
        "{}{}",
        file("/n/a.md", "a.md"),
        folder("sub", &format!("{}{}", file("/n/sub/b.md", "b.md"), folder("empty", "")))
    );
    assert_eq!(build_file_tree(&tree), expected);
    assert_eq!(build_file_tree(&Vec::new()), "");
}
