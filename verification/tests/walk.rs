use folderwalk::args::Config;
use folderwalk::entry::{NodeType, RawEntry};
use folderwalk::run::{begin_run, self_path};
use folderwalk::walker::{RenderConfig, Reply, Request, Walker};

fn again(r: &RawEntry) -> RawEntry {
    RawEntry {
        path: r.path.clone(),
        name: r.name.clone(),
        link_type: r.link_type,
        target_type: r.target_type,
    }
}

struct FakeFs {
    dirs: Vec<(String, Vec<RawEntry>)>,
    links: Vec<(String, Option<String>)>,
    files: Vec<(String, Result<String, String>)>,
}

impl FakeFs {
    fn new() -> FakeFs {
        FakeFs { dirs: Vec::new(), links: Vec::new(), files: Vec::new() }
    }

    fn children(&mut self, dir: &str) -> &mut Vec<RawEntry> {
        if let Some(i) = self.dirs.iter().position(|(p, _)| p == dir) {
            return &mut self.dirs[i].1;
        }
        self.dirs.push((dir.to_string(), Vec::new()));
        &mut self.dirs.last_mut().unwrap().1
    }

    fn add(&mut self, dir: &str, name: &str, link: NodeType, target: Option<NodeType>) -> String {
        let path = format!("{}/{}", dir, name);
        self.children(dir).push(RawEntry {
            path: path.clone(),
            name: name.to_string(),
            link_type: Some(link),
            target_type: target,
        });
        path
    }

    fn dir(&mut self, dir: &str, name: &str) -> String {
        let path = self.add(dir, name, NodeType::Directory, Some(NodeType::Directory));
        self.children(&path);
        path
    }

    fn file(&mut self, dir: &str, name: &str, content: &str) -> String {
        let path = self.add(dir, name, NodeType::File, Some(NodeType::File));
        self.files.push((path.clone(), Ok(content.to_string())));
        path
    }

    fn bad_file(&mut self, dir: &str, name: &str, reason: &str) -> String {
        let path = self.add(dir, name, NodeType::File, Some(NodeType::File));
        self.files.push((path.clone(), Err(reason.to_string())));
        path
    }

    fn link(&mut self, dir: &str, name: &str, target: Option<&str>, to: Option<NodeType>) -> String {
        let path = self.add(dir, name, NodeType::Symlink, to);
        self.links.push((path.clone(), target.map(|t| t.to_string())));
        path
    }

    fn answer(&self, request: &Request) -> Reply {
        match request {
            Request::Proceed | Request::Finished => Reply::Nothing,
            Request::ListDir { path } => Reply::Listing(
                self.dirs
                    .iter()
                    .find(|(p, _)| p == path)
                    .map(|(_, c)| c.iter().map(again).collect())
                    .unwrap_or_default(),
            ),
            Request::ReadLink { path } => Reply::LinkTarget(
                self.links.iter().find(|(p, _)| p == path).and_then(|(_, t)| t.clone()),
            ),
            Request::ReadFile { path } => Reply::FileContent(
                self.files
                    .iter()
                    .find(|(p, _)| p == path)
                    .map(|(_, c)| c.clone())
                    .unwrap_or(Err("No such file or directory (os error 2)".to_string())),
            ),
        }
    }
}

struct Outcome {
    lines: Vec<String>,
    listed: Vec<String>,
    read: Vec<String>,
}

fn drive(mut walker: Walker, fs: &FakeFs) -> Outcome {
    let mut out = Outcome { lines: Vec::new(), listed: Vec::new(), read: Vec::new() };
    let mut reply = Reply::Nothing;
    for _ in 0..100000 {
        let (next, step) = walker.step(reply);
        walker = next;
        out.lines.extend(step.lines);
        match &step.request {
            Request::Finished => {
                assert!(walker.is_finished());
                return out;
            }
            Request::ListDir { path } => out.listed.push(path.clone()),
            Request::ReadFile { path } => out.read.push(path.clone()),
            _ => {}
        }
        assert!(!walker.is_finished());
        reply = fs.answer(&step.request);
    }
    panic!("the walk did not end");
}

fn config(ascii: bool, show_content: bool) -> RenderConfig {
    RenderConfig { ascii, show_content, self_path: None }
}

fn walk(fs: &FakeFs, ascii: bool, show_content: bool, max_depth: Option<usize>) -> Vec<String> {
    drive(Walker::new(config(ascii, show_content), max_depth, "root".to_string()), fs).lines
}

fn sample() -> FakeFs {
    let mut fs = FakeFs::new();
    fs.children("root");
    fs.file("root", "b.txt", "alpha\nbeta\n");
    fs.dir("root", "A");
    fs.link("root", "link", Some("missing"), None);
    fs
}

fn nested() -> FakeFs {
    let mut fs = FakeFs::new();
    fs.children("root");
    fs.file("root", "b", "");
    let a = fs.dir("root", "a");
    fs.file(&a, "x", "one\n");
    let y = fs.dir(&a, "y");
    fs.file(&y, "z", "two");
    let c = fs.dir("root", "c");
    let d = fs.dir(&c, "d");
    fs.file(&d, "e", "");
    fs.file(&c, "f", "");
    fs
}

#[test]
fn directories_then_files_then_the_dangling_link() {
    assert_eq!(
        walk(&sample(), false, false, None),
        vec!["root", "├── A/", "├── b.txt", "└── link -> missing"]
    );
}

#[test]
fn the_same_tree_in_ascii() {
    assert_eq!(
        walk(&sample(), true, false, None),
        vec!["root", "|-- A/", "|-- b.txt", "`-- link -> missing"]
    );
}

#[test]
fn content_follows_the_file_line() {
    let mut fs = FakeFs::new();
    fs.children("root");
    fs.file("root", "f.txt", "alpha\nbeta\n");
    assert_eq!(
        walk(&fs, false, true, None),
        vec![
            "root",
            "└── f.txt",
            "    --- FILE CONTENT START ---",
            "    alpha",
            "    beta",
            "    --- FILE CONTENT END ---"
        ]
    );
}

#[test]
fn content_is_shown_below_files_only() {
    let out = drive(Walker::new(config(false, true), None, "root".to_string()), &sample());
    assert_eq!(
        out.lines,
        vec![
            "root",
            "├── A/",
            "├── b.txt",
            "    --- FILE CONTENT START ---",
            "    alpha",
            "    beta",
            "    --- FILE CONTENT END ---",
            "└── link -> missing"
        ]
    );
    assert_eq!(out.read, vec!["root/b.txt"]);
}

#[test]
fn content_is_not_read_unless_asked_for() {
    let out = drive(Walker::new(config(false, false), None, "root".to_string()), &nested());
    assert!(out.read.is_empty());
}

#[test]
fn unreadable_content_gives_one_line_and_the_walk_goes_on() {
    let mut fs = FakeFs::new();
    fs.children("root");
    fs.bad_file("root", "a.bin", "stream did not contain valid UTF-8");
    fs.file("root", "b.txt", "ok");
    assert_eq!(
        walk(&fs, true, true, None),
        vec![
            "root",
            "|-- a.bin",
            "    [Could not read file: stream did not contain valid UTF-8]",
            "`-- b.txt",
            "    --- FILE CONTENT START ---",
            "    ok",
            "    --- FILE CONTENT END ---"
        ]
    );
}

#[test]
fn nested_directories_carry_their_prefixes() {
    assert_eq!(
        walk(&nested(), false, false, None),
        vec![
            "root",
            "├── a/",
            "│   ├── y/",
            "│   │   └── z",
            "│   └── x",
            "├── c/",
            "│   ├── d/",
            "│   │   └── e",
            "│   └── f",
            "└── b"
        ]
    );
}

#[test]
fn below_a_last_directory_the_prefix_is_blank() {
    let mut fs = FakeFs::new();
    fs.children("root");
    let a = fs.dir("root", "a");
    let b = fs.dir(&a, "b");
    fs.file(&b, "c", "");
    fs.file(&b, "d", "");
    assert_eq!(
        walk(&fs, true, false, None),
        vec!["root", "`-- a/", "    `-- b/", "        |-- c", "        `-- d"]
    );
}

#[test]
fn nested_content_is_indented_behind_the_prefix() {
    assert_eq!(
        walk(&nested(), false, true, Some(2)),
        vec![
            "root",
            "├── a/",
            "│   ├── y/",
            "│   └── x",
            "│       --- FILE CONTENT START ---",
            "│       one",
            "│       --- FILE CONTENT END ---",
            "├── c/",
            "│   ├── d/",
            "│   └── f",
            "│       --- FILE CONTENT START ---",
            "│       --- FILE CONTENT END ---",
            "└── b",
            "    --- FILE CONTENT START ---",
            "    --- FILE CONTENT END ---"
        ]
    );
}

#[test]
fn max_depth_zero_draws_the_root_only() {
    let out = drive(Walker::new(config(false, false), Some(0), "root".to_string()), &nested());
    assert_eq!(out.lines, vec!["root"]);
    assert!(out.listed.is_empty());
}

#[test]
fn max_depth_one_draws_the_children_of_the_root_only() {
    let out = drive(Walker::new(config(false, false), Some(1), "root".to_string()), &nested());
    assert_eq!(out.lines, vec!["root", "├── a/", "├── c/", "└── b"]);
    assert_eq!(out.listed, vec!["root"]);
}

#[test]
fn max_depth_two_stops_one_level_lower() {
    let out = drive(Walker::new(config(false, false), Some(2), "root".to_string()), &nested());
    assert_eq!(
        out.lines,
        vec!["root", "├── a/", "│   ├── y/", "│   └── x", "├── c/", "│   ├── d/", "│   └── f", "└── b"]
    );
    assert_eq!(out.listed, vec!["root", "root/a", "root/c"]);
}

#[test]
fn a_generous_max_depth_changes_nothing() {
    assert_eq!(walk(&nested(), false, false, Some(100)), walk(&nested(), false, false, None));
    assert_eq!(
        walk(&nested(), false, false, Some(usize::MAX)),
        walk(&nested(), false, false, None)
    );
}

#[test]
fn a_link_to_a_directory_is_a_leaf() {
    let mut fs = FakeFs::new();
    fs.children("root");
    let a = fs.dir("root", "a");
    fs.file(&a, "inner", "");
    let up = fs.link(&a, "up", Some(".."), Some(NodeType::Directory));
    fs.dirs.push((up.clone(), vec![RawEntry {
        path: format!("{}/a", up),
        name: "a".to_string(),
        link_type: Some(NodeType::Directory),
        target_type: Some(NodeType::Directory),
    }]));
    let out = drive(Walker::new(config(false, false), None, "root".to_string()), &fs);
    assert_eq!(out.lines, vec!["root", "└── a/", "    ├── up -> ..", "    └── inner"]);
    assert_eq!(out.listed, vec!["root", "root/a"]);
}

#[test]
fn a_link_whose_target_cannot_be_read() {
    let mut fs = FakeFs::new();
    fs.children("root");
    fs.link("root", "l", None, None);
    fs.link("root", "m", None, Some(NodeType::Directory));
    assert_eq!(walk(&fs, false, false, None), vec!["root", "├── m -> <unreadable>", "└── l -> <unreadable>"]);
}

#[test]
fn excluded_names_show_at_no_depth() {
    let mut fs = FakeFs::new();
    fs.children("root");
    let git = fs.dir("root", ".git");
    fs.file(&git, "config", "");
    let src = fs.dir("root", "src");
    let nm = fs.dir(&src, "node_modules");
    fs.file(&nm, "pkg", "");
    fs.file(&src, "target", "");
    fs.link(&src, ".git", Some("../.git"), Some(NodeType::Directory));
    fs.file(&src, "main.rs", "");
    let deep = fs.dir(&src, "deep");
    fs.dir(&deep, "target");
    let out = drive(Walker::new(config(false, false), None, "root".to_string()), &fs);
    assert_eq!(out.lines, vec!["root", "└── src/", "    ├── deep/", "    └── main.rs"]);
    assert_eq!(out.listed, vec!["root", "root/src", "root/src/deep"]);
    for line in out.lines.iter() {
        assert!(!line.contains(".git") && !line.contains("node_modules") && !line.contains("target"));
    }
}

#[test]
fn a_directory_that_cannot_be_read_shows_nothing_below() {
    let mut fs = FakeFs::new();
    fs.children("root");
    fs.add("root", "locked", NodeType::Directory, Some(NodeType::Directory));
    fs.file("root", "z", "");
    let out = drive(Walker::new(config(false, false), None, "root".to_string()), &fs);
    assert_eq!(out.lines, vec!["root", "├── locked/", "└── z"]);
    assert_eq!(out.listed, vec!["root", "root/locked"]);
}

#[test]
fn an_empty_root_gives_its_name_only() {
    let mut fs = FakeFs::new();
    fs.children("root");
    assert_eq!(walk(&fs, false, false, None), vec!["root"]);
}

#[test]
fn the_root_line_is_the_final_component() {
    let mut fs = FakeFs::new();
    fs.children("/home/user/project/");
    let out = drive(
        Walker::new(config(false, false), None, "/home/user/project/".to_string()),
        &fs,
    );
    assert_eq!(out.lines, vec!["project"]);
    assert_eq!(out.listed, vec!["/home/user/project/"]);
    let out = drive(Walker::new(config(false, false), Some(0), "/".to_string()), &fs);
    assert_eq!(out.lines, vec!["/"]);
}

#[test]
fn siblings_are_sorted_without_regard_to_case() {
    let mut fs = FakeFs::new();
    fs.children("root");
    fs.file("root", "b", "");
    fs.file("root", "C", "");
    fs.dir("root", "zeta");
    fs.file("root", "A", "");
    fs.dir("root", "Beta");
    fs.link("root", "alpha", Some("zeta"), Some(NodeType::Directory));
    assert_eq!(
        walk(&fs, false, false, None),
        vec!["root", "├── alpha -> zeta", "├── Beta/", "├── zeta/", "├── A", "├── b", "└── C"]
    );
}

#[test]
fn other_objects_are_leaves_without_content() {
    let mut fs = FakeFs::new();
    fs.children("root");
    fs.add("root", "pipe", NodeType::Other, Some(NodeType::Other));
    let out = drive(Walker::new(config(false, true), None, "root".to_string()), &fs);
    assert_eq!(out.lines, vec!["root", "└── pipe"]);
    assert!(out.read.is_empty());
}

fn run_config(to_stdout: bool) -> Config {
    Config { start_dir: None, max_depth: None, ascii: false, show_content: false, to_stdout }
}

fn with_output_file() -> FakeFs {
    let mut fs = FakeFs::new();
    fs.children("root");
    fs.file("root", "a.txt", "");
    fs.file("root", "files.txt", "");
    let sub = fs.dir("root", "sub");
    fs.file(&sub, "files.txt", "");
    fs
}

#[test]
fn a_run_to_a_file_leaves_that_file_out() {
    let out = drive(begin_run(&run_config(false), "root".to_string()), &with_output_file());
    assert_eq!(out.lines, vec!["root", "├── sub/", "│   └── files.txt", "└── a.txt"]);
}

#[test]
fn a_run_to_standard_output_leaves_no_file_out() {
    let out = drive(begin_run(&run_config(true), "root".to_string()), &with_output_file());
    assert_eq!(
        out.lines,
        vec!["root", "├── sub/", "│   └── files.txt", "├── a.txt", "└── files.txt"]
    );
}

#[test]
fn a_run_takes_its_settings_from_the_command_line() {
    let c = Config {
        start_dir: Some("root".to_string()),
        max_depth: Some(1),
        ascii: true,
        show_content: true,
        to_stdout: false,
    };
    let out = drive(begin_run(&c, "root".to_string()), &with_output_file());
    assert_eq!(
        out.lines,
        vec![
            "root",
            "|-- sub/",
            "`-- a.txt",
            "    --- FILE CONTENT START ---",
            "    --- FILE CONTENT END ---"
        ]
    );
}

#[test]
fn the_self_path_is_the_output_file_or_none() {
    assert_eq!(self_path(false, "root"), Some("root/files.txt".to_string()));
    assert_eq!(self_path(false, "/"), Some("/files.txt".to_string()));
    assert_eq!(self_path(true, "root"), None);
}

#[test]
fn the_first_step_draws_the_root_and_asks_for_its_listing() {
    let w = Walker::new(config(false, false), None, "some/root".to_string());
    assert_eq!(w.depth(), 0);
    assert!(!w.is_finished());
    let (w, step) = w.step(Reply::Nothing);
    assert_eq!(step.lines, vec!["root"]);
    assert!(matches!(&step.request, Request::ListDir { path } if path == "some/root"));
    assert_eq!(w.depth(), 0);
    let (w, step) = w.step(Reply::Listing(Vec::new()));
    assert!(step.lines.is_empty());
    assert!(matches!(step.request, Request::Proceed));
    assert_eq!(w.depth(), 1);
}

#[test]
fn a_reply_that_does_not_answer_repeats_the_request() {
    let fs = sample();
    let w = Walker::new(config(false, false), None, "root".to_string());
    let (w, _) = w.step(Reply::Nothing);
    let (w, step) = w.step(Reply::Nothing);
    assert!(step.lines.is_empty());
    assert!(matches!(&step.request, Request::ListDir { path } if path == "root"));
    let (w, step) = w.step(Reply::LinkTarget(None));
    assert!(step.lines.is_empty());
    assert!(matches!(&step.request, Request::ListDir { path } if path == "root"));
    let (mut w, mut step) = w.step(fs.answer(&step.request));
    let mut lines = Vec::new();
    while !matches!(step.request, Request::ReadLink { .. }) {
        let (n, s) = w.step(fs.answer(&step.request));
        w = n;
        step = s;
        lines.extend(step.lines.clone());
    }
    assert_eq!(lines, vec!["├── A/", "├── b.txt"]);
    let (w, again) = w.step(Reply::Listing(Vec::new()));
    assert!(again.lines.is_empty());
    assert!(matches!(&again.request, Request::ReadLink { path } if path == "root/link"));
    let (w, again) = w.step(Reply::FileContent(Ok("x".to_string())));
    assert!(again.lines.is_empty());
    assert!(matches!(&again.request, Request::ReadLink { path } if path == "root/link"));
    let (_, last) = w.step(Reply::LinkTarget(Some("missing".to_string())));
    assert_eq!(last.lines, vec!["└── link -> missing"]);
}

#[test]
fn a_wrong_reply_to_a_content_request_repeats_it() {
    let mut fs = FakeFs::new();
    fs.children("root");
    fs.file("root", "f", "x");
    let w = Walker::new(config(false, true), None, "root".to_string());
    let (w, step) = w.step(Reply::Nothing);
    let (w, _) = w.step(fs.answer(&step.request));
    let (w, step) = w.step(Reply::Nothing);
    assert_eq!(step.lines, vec!["└── f"]);
    assert!(matches!(&step.request, Request::ReadFile { path } if path == "root/f"));
    let (w, again) = w.step(Reply::Nothing);
    assert!(again.lines.is_empty());
    assert!(matches!(&again.request, Request::ReadFile { path } if path == "root/f"));
    let (_, done) = w.step(Reply::FileContent(Err("denied".to_string())));
    assert_eq!(done.lines, vec!["    [Could not read file: denied]"]);
    assert!(matches!(done.request, Request::Proceed));
}

#[test]
fn a_finished_walk_stays_finished() {
    let w = Walker::new(config(false, false), Some(0), "root".to_string());
    let (w, step) = w.step(Reply::Nothing);
    assert_eq!(step.lines, vec!["root"]);
    assert!(matches!(step.request, Request::Finished));
    assert!(w.is_finished());
    let (w, step) = w.step(Reply::Listing(Vec::new()));
    assert!(step.lines.is_empty());
    assert!(matches!(step.request, Request::Finished));
    assert!(w.is_finished());
}

#[test]
fn the_depth_follows_the_walk() {
    let fs = nested();
    let mut walker = Walker::new(config(false, false), None, "root".to_string());
    let mut reply = Reply::Nothing;
    let mut deepest = 0;
    loop {
        let (next, step) = walker.step(reply);
        walker = next;
        if walker.depth() > deepest {
            deepest = walker.depth();
        }
        if matches!(step.request, Request::Finished) {
            break;
        }
        reply = fs.answer(&step.request);
    }
    assert_eq!(deepest, 3);
    assert_eq!(walker.depth(), 0);
}
