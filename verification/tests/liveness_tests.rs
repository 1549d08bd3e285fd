use bashable_notes::channel::AppMessage;
use bashable_notes::docker::missing_build_file;
use bashable_notes::file_tree::FileTree;
use bashable_notes::liveness::{Command, Liveness, EXPIRE, EXPIRE_WINDOW, PING, PING_INTERVAL};

/// An event loop with a clock, as far as the liveness machine needs one.
struct Loop {
    now: u64,
    machine: Liveness<u32>,
    timers: Vec<(u32, usize, u64)>,
    issued: u32,
    pings: Vec<u64>,
    closes: Vec<u64>,
}

impl Loop {
    fn open(at: u64) -> Loop {
        let mut l = Loop {
            now: at,
            machine: Liveness::new(),
            timers: Vec::new(),
            issued: 0,
            pings: Vec::new(),
            closes: Vec::new(),
        };
        let commands = l.machine.on_open();
        l.obey(commands);
        l
    }

    fn obey(&mut self, commands: Vec<Command<u32>>) {
        for command in commands {
            match command {
                Command::Schedule { token, delay } => {
                    let handle = self.issued;
                    self.issued += 1;
                    self.timers.push((handle, token, self.now + delay));
                    let cancels = self.machine.on_new_timeout(token, handle);
                    self.obey(cancels);
                }
                Command::Cancel(handle) => self.timers.retain(|t| t.0 != handle),
                Command::SendPing => self.pings.push(self.now),
                Command::Close => {
                    self.closes.push(self.now);
                    let cancels = self.machine.on_close();
                    self.obey(cancels);
                }
                Command::Shutdown => {}
            }
        }
    }

    fn frame(&mut self, at: u64) {
        self.run_until(at);
        assert!(self.closes.is_empty());
        self.now = at;
        let commands = self.machine.on_frame();
        self.obey(commands);
    }

    fn run_until(&mut self, end: u64) {
        loop {
            let first = self.timers.iter().copied().filter(|t| t.2 <= end).min_by_key(|t| t.2);
            let (handle, token, due) = match first {
                Some(timer) => timer,
                None => break,
            };
            self.timers.retain(|t| t.0 != handle);
            self.now = due;
            let commands = self.machine.on_timeout(token).expect("a token of the machine");
            self.obey(commands);
        }
        self.now = end;
    }
}

#[test]
fn a_silent_connection_is_pinged_and_then_closed_once() {
    let mut l = Loop::open(0);
    l.run_until(100_000);
    assert_eq!(l.pings, vec![5_000, 10_000, 15_000, 20_000, 25_000]);
    assert_eq!(l.closes, vec![30_000]);
    assert!(l.timers.is_empty());
}

#[test]
fn frames_put_the_end_off() {
    let mut l = Loop::open(1_000);
    l.frame(20_000);
    l.frame(45_000);
    l.run_until(74_999);
    assert!(l.closes.is_empty());
    assert_eq!(l.timers.len(), 2);
    assert_eq!(l.timers.iter().filter(|t| t.1 == PING).count(), 1);
    assert_eq!(l.timers.iter().filter(|t| t.1 == EXPIRE).count(), 1);
    l.run_until(200_000);
    assert_eq!(l.closes, vec![45_000 + EXPIRE_WINDOW]);
    let expected: Vec<u64> = (1..=14).map(|k| 1_000 + k * PING_INTERVAL).collect();
    assert_eq!(l.pings, expected);
}

#[test]
fn only_one_timer_of_each_kind_is_ever_set() {
    let mut l = Loop::open(0);
    for k in 1..50 {
        l.frame(k * 700);
        assert_eq!(l.timers.iter().filter(|t| t.1 == PING).count(), 1);
        assert_eq!(l.timers.iter().filter(|t| t.1 == EXPIRE).count(), 1);
    }
    assert!(l.closes.is_empty());
}

#[test]
fn a_build_file_is_written_only_where_none_is_there() {
    assert_eq!(missing_build_file(true), None);
    assert_eq!(missing_build_file(false), Some("FROM ubuntu:latest".to_string()));
}

#[test]
fn messages_for_the_tree_and_for_changes() {
    match AppMessage::file_update("notes/a.md".to_string()) {
        AppMessage::FileUpdate { path } => assert_eq!(path, "notes/a.md"),
        other => panic!("unexpected {:?}", other),
    }
    let root = vec![FileTree::File { name: "a.md".to_string(), path: "/n/a.md".to_string() }];
    match AppMessage::file_tree(root) {
        AppMessage::FileTree { root } => {
            assert_eq!(root.len(), 1);
            assert!(matches!(&root[0], FileTree::File { name, .. } if name == "a.md"));
        }
        other => panic!("unexpected {:?}", other),
    }
}
