use storyteller::capture::Capture;
use storyteller::character::Character;
use storyteller::character_style::{CharacterStyle, Effect};
use storyteller::common::Many;
use storyteller::compiled::CompileError;
use storyteller::condition::{Condition, Conditional};
use storyteller::executable::{Command, Execution, Step};
use storyteller::file_format::{FileFormat, FormatError};
use storyteller::initializer::{directory_of, entry_path, Initializer, Request, Source, Sources};
use storyteller::path_reference::PathReference;
use storyteller::runtime::RuntimeState;
use storyteller::section::Section;
use storyteller::show_input::{frame_from_pixels, Alignment, ShowInput, ShowType};
use storyteller::switcher::{Case, Switcher};
use storyteller::text_input::{TextInput, TitleInput};

fn no_sources() -> Sources {
    Sources { documents: Vec::new(), frames: Vec::new() }
}

fn compile(entry: Section, sources: &mut Sources) -> Initializer {
    match Initializer::new("root".to_string(), FileFormat::Yaml, Vec::new(), None, entry, sources) {
        Ok(i) => i,
        Err(e) => panic!("compile failed: {}", e.message()),
    }
}

/// Runs the script to its end, answering each read with the next line.
fn run(init: &mut Initializer, lines: &[&str]) -> Vec<Command> {
    let mut exec = Execution::start();
    let mut out = Vec::new();
    let mut next_line = 0;
    for _ in 0..10_000 {
        match exec.step(&init.data, &init.entry, &mut init.state) {
            Step::Finished => return out,
            Step::Idle => {}
            Step::Run(Command::ReadLine) => {
                let line = lines[next_line].to_string();
                next_line += 1;
                exec.supply_line(&init.data, &init.entry, &mut init.state, line);
            }
            Step::Run(c) => out.push(c),
        }
    }
    panic!("the script did not finish");
}

fn appended(cmds: &[Command]) -> Vec<String> {
    cmds.iter()
        .filter_map(|c| match c {
            Command::Append(s) => Some(s.clone()),
            _ => None,
        })
        .collect()
}

fn print(s: &str) -> Section {
    Section::Print(s.to_string())
}

fn lits(v: &[&str]) -> Capture {
    Capture::Literals(v.iter().map(|s| s.to_string()).collect())
}

#[test]
fn capture_matches_any_literal() {
    assert!(lits(&["cat", "dog"]).captures("hotdog"));
    assert!(!lits(&["cat", "dog"]).captures("bird"));
    assert!(lits(&["ab"]).captures("ab"));
    assert!(!lits(&["Dog"]).captures("dog"));
}

#[test]
fn capture_with_no_literals_is_false() {
    assert!(!lits(&[]).captures("anything"));
    assert!(!lits(&[]).captures(""));
}

#[test]
fn capture_empty_literal_matches_everything() {
    assert!(lits(&[""]).captures(""));
    assert!(lits(&[""]).captures("x"));
}

#[test]
fn interpolation_of_a_name() {
    let mut state = RuntimeState::new();
    assert!(state.var_expr("name = \"Ada\""));
    assert_eq!(state.expand_string("$name is here"), "Ada is here");
}

#[test]
fn interpolation_of_a_braced_expression() {
    let state = RuntimeState::new();
    assert_eq!(state.expand_string("${1+1} apples"), "2 apples");
}

#[test]
fn interpolation_failure_keeps_the_body() {
    let state = RuntimeState::new();
    assert_eq!(state.expand_string("$missing here"), "missing here");
    assert_eq!(state.expand_string("x ${1 +} y"), "x 1 + y");
}

#[test]
fn interpolation_without_tokens_is_unchanged() {
    let state = RuntimeState::new();
    assert_eq!(state.expand_string("plain text"), "plain text");
    assert_eq!(state.expand_string(""), "");
}

#[test]
fn interpolation_does_not_rescan() {
    let mut state = RuntimeState::new();
    assert!(state.var_expr("a = \"$b\""));
    assert!(state.var_expr("b = 5"));
    assert_eq!(state.expand_string("$a and $b"), "$b and 5");
}

#[test]
fn conditions_fail_closed() {
    let state = RuntimeState::new();
    assert!(state.var_condition("1 < 2"));
    assert!(!state.var_condition("1 > 2"));
    assert!(!state.var_condition("1 +"));
    assert!(!state.var_condition("3"));
}

#[test]
fn input_binds_last_in() {
    let mut state = RuntimeState::new();
    assert!(state.update_input("hello".to_string()));
    assert_eq!(state.last_in, "hello");
    assert!(state.var_condition("last_in == \"hello\""));
}

#[test]
fn last_in_condition_needs_every_capture() {
    let mut state = RuntimeState::new();
    state.update_input("red apple".to_string());
    assert!(Conditional::LastIn(vec![lits(&["red"]), lits(&["apple"])]).value(&state));
    assert!(!Conditional::LastIn(vec![lits(&["red"]), lits(&["pear"])]).value(&state));
    assert!(Conditional::LastIn(vec![]).value(&state));
}

#[test]
fn effect_names_ignore_case() {
    assert!(Effect::from_name("BOLD") == Effect::Bold);
    assert!(Effect::from_name("Underlined") == Effect::Underline);
    assert!(Effect::from_name("underline") == Effect::Underline);
    assert!(Effect::from_name("sparkle") == Effect::Simple);
    let effects = CharacterStyle::effects_from_names(&vec!["Dim".to_string(), "blink".to_string()]);
    assert!(effects == vec![Effect::Dim, Effect::Blink]);
}

#[test]
fn format_and_error_names() {
    assert_eq!(FileFormat::Json.name(), "json");
    assert_eq!(FileFormat::default().name(), "yaml");
    let e = CompileError::Format(FormatError::JSON("bad".to_string()));
    assert_eq!(e.name(), "json - Format");
    assert_eq!(e.message(), "bad");
    assert_eq!(CompileError::IO("gone".to_string()).name(), "IO");
    let p = CompileError::InvalidPath("a/b".to_string());
    assert_eq!(p.name(), "InvalidPath");
    assert_eq!(p.message(), "Invalid Path: a/b.");
    assert_eq!(CompileError::Image("x".to_string()).name(), "Image");
    assert_eq!(FormatError::YAML("y".to_string()).name(), "YAML");
}

#[test]
fn many_becomes_a_list() {
    assert_eq!(Many::One(3).into_vec(), vec![3]);
    assert_eq!(Many::Vec(vec![1, 2]).into_vec(), vec![1, 2]);
}

#[test]
fn defaults() {
    assert_eq!(Character::default_duration(), 20);
    assert_eq!(TitleInput::default_duration(), 1);
    assert_eq!(ShowType::default_scale(), 2);
    assert!(!ShowType::default_invert());
    assert!(Alignment::default() == Alignment::TopLeft);
    let c = Character::default();
    assert_eq!(c.name, "__default__");
    assert_eq!(c.duration, 20);
}

#[test]
fn frame_is_positioned() {
    let mut f = ShowType::Dry("ab\ncd".to_string());
    f.position(Some(2), Some(1));
    assert_eq!(f.get_frame(), "\n  ab\n  cd\n");
    let mut g = ShowType::Dry("ab".to_string());
    g.position(None, None);
    assert_eq!(g.get_frame(), "ab");
    let mut h = ShowType::Dry("ab".to_string());
    h.position(Some(0), None);
    assert_eq!(h.get_frame(), "ab\n");
}

#[test]
fn pixels_become_text_art() {
    let white = (255u8, 255u8, 255u8, 255u8);
    let black = (0u8, 0u8, 0u8, 255u8);
    let clear = (255u8, 255u8, 255u8, 0u8);
    let rows = vec![vec![white, black, clear], vec![black, black, black]];
    assert_eq!(frame_from_pixels(&rows, 1, false), "@  \n");
    assert_eq!(frame_from_pixels(&rows, 1, true), " @ \n");
    let tall = vec![vec![white, white], vec![black], vec![black, white], vec![white]];
    assert_eq!(frame_from_pixels(&tall, 1, false), "@@\n @\n");
    assert_eq!(frame_from_pixels(&tall, 2, false), "@\n");
}

#[test]
fn path_reference_resolution() {
    let r = PathReference::Relative("img/a.png".to_string());
    assert_eq!(r.as_absolute(), "img/a.png");
    assert_eq!(r.logical_path("base/dir"), "base/dir/img/a.png");
    assert_eq!(PathReference::Relative("../x".to_string()).logical_path("base/dir"), "base/x");
    match r.resolve("base", true, true) {
        Ok(p) => assert_eq!(p, "base/img/a.png"),
        Err(_) => panic!("expected the logical path"),
    }
    match r.resolve("base", false, true) {
        Ok(p) => assert_eq!(p, "img/a.png"),
        Err(_) => panic!("expected the path itself"),
    }
    match r.resolve("base", false, false) {
        Err(CompileError::InvalidPath(p)) => assert_eq!(p, "img/a.png"),
        _ => panic!("expected an invalid path"),
    }
}

#[test]
fn directory_of_a_document() {
    assert_eq!(directory_of("root/sub/doc.yaml"), "root/sub");
    assert_eq!(directory_of("doc.yaml"), "");
}

#[test]
fn initializer_steps_and_reads() {
    let sw = Switcher {
        default: None,
        cases: vec![Case { section: print("heard"), captures: vec![lits(&["hi"])] }],
    };
    let mut init = compile(Section::Input(sw), &mut no_sources());
    let mut exec = Execution::start();
    assert!(matches!(init.execute(&mut exec), Step::Run(Command::ReadLine)));
    assert!(matches!(init.execute(&mut exec), Step::Run(Command::ReadLine)));
    init.supply_line(&mut exec, "hi there".to_string());
    assert!(matches!(init.execute(&mut exec), Step::Run(Command::Append(s)) if s == "heard"));
    assert!(matches!(init.execute(&mut exec), Step::Finished));
}

#[test]
fn entry_path_is_init_in_root() {
    assert_eq!(entry_path("root", FileFormat::Yaml), "root/init.yaml");
    assert_eq!(entry_path("game", FileFormat::Json), "game/init.json");
}

#[test]
fn print_then_wait_appends_once() {
    let mut init = compile(Section::Sequence(vec![print("Hello"), Section::Wait(0)]), &mut no_sources());
    let cmds = run(&mut init, &[]);
    assert_eq!(appended(&cmds), vec!["Hello".to_string()]);
    assert_eq!(cmds.len(), 2);
    assert!(matches!(cmds[1], Command::Sleep(0)));
}

#[test]
fn switch_runs_only_the_first_true_case() {
    let sw = Switcher {
        default: Some(Box::new(print("default"))),
        cases: vec![
            Case { section: print("first"), captures: vec![Conditional::Expression("1 > 2".to_string())] },
            Case { section: print("second"), captures: vec![Conditional::Expression("true".to_string())] },
            Case { section: print("third"), captures: vec![Conditional::Expression("true".to_string())] },
        ],
    };
    let mut init = compile(Section::Switch(sw), &mut no_sources());
    assert_eq!(appended(&run(&mut init, &[])), vec!["second".to_string()]);
}

#[test]
fn switch_falls_back_to_default() {
    let sw = Switcher {
        default: Some(Box::new(print("default"))),
        cases: vec![Case { section: print("first"), captures: vec![Conditional::Expression("false".to_string())] }],
    };
    let mut init = compile(Section::Switch(sw), &mut no_sources());
    assert_eq!(appended(&run(&mut init, &[])), vec!["default".to_string()]);
    let none: Switcher<Conditional> = Switcher {
        default: None,
        cases: vec![Case { section: print("first"), captures: vec![Conditional::Expression("oops(".to_string())] }],
    };
    let mut init = compile(Section::Switch(none), &mut no_sources());
    assert!(appended(&run(&mut init, &[])).is_empty());
}

#[test]
fn input_runs_the_matching_case() {
    let sw = Switcher {
        default: Some(Box::new(print("no"))),
        cases: vec![
            Case { section: print("left"), captures: vec![lits(&["left", "west"])] },
            Case { section: print("right"), captures: vec![lits(&["right"])] },
        ],
    };
    let entry = Section::Sequence(vec![Section::Input(sw), print("after")]);
    let mut init = compile(entry, &mut no_sources());
    let cmds = run(&mut init, &["go west"]);
    assert_eq!(appended(&cmds), vec!["left".to_string(), "after".to_string()]);
    assert_eq!(init.state.last_in, "go west");
}

#[test]
fn input_without_match_runs_default() {
    let sw = Switcher {
        default: Some(Box::new(print("no"))),
        cases: vec![Case { section: print("yes"), captures: vec![lits(&["yes"])] }],
    };
    let mut init = compile(Section::Input(sw), &mut no_sources());
    assert_eq!(appended(&run(&mut init, &["nope"])), vec!["no".to_string()]);
}

#[test]
fn branch_takes_one_arm() {
    let b = Section::Branch {
        conditions: vec![Conditional::Expression("x > 1".to_string())],
        then: Box::new(print("big")),
        otherwise: Some(Box::new(print("small"))),
    };
    let entry = Section::Sequence(vec![Section::Let("x = 5".to_string()), b]);
    let mut init = compile(entry, &mut no_sources());
    assert_eq!(appended(&run(&mut init, &[])), vec!["big".to_string()]);
}

#[test]
fn let_failure_stops_the_run() {
    let entry = Section::Sequence(vec![Section::Let("1 +".to_string()), print("never")]);
    let mut init = compile(entry, &mut no_sources());
    let cmds = run(&mut init, &[]);
    assert_eq!(cmds.len(), 1);
    assert!(matches!(&cmds[0], Command::LetFailed(e) if e == "1 +"));
}

#[test]
fn print_reads_variables() {
    let entry = Section::Sequence(vec![Section::Let("n = 2 * 3".to_string()), print("n is $n")]);
    let mut init = compile(entry, &mut no_sources());
    assert_eq!(appended(&run(&mut init, &[])), vec!["n is 6".to_string()]);
}

#[test]
fn dialog_types_label_and_line() {
    let hero = Character {
        name: "Hero".to_string(),
        style: CharacterStyle { color: "red".to_string(), effects: vec![Effect::Bold] },
        duration: 30,
    };
    let entry = Section::Sequence(vec![
        Section::Dialog(TextInput {
            dialogs: vec![("Hero".to_string(), "Hi".to_string()), ("Stranger".to_string(), "Yo".to_string())],
            duration: None,
        }),
        Section::Text(TextInput { dialogs: vec![("Hero".to_string(), "plain".to_string())], duration: Some(5) }),
    ]);
    let mut init = match Initializer::new("root".to_string(), FileFormat::Yaml, vec![hero], None, entry, &mut no_sources()) {
        Ok(i) => i,
        Err(_) => panic!("compile failed"),
    };
    let cmds = run(&mut init, &[]);
    assert_eq!(cmds.len(), 5);
    match &cmds[0] {
        Command::TypeLabel(t) => {
            assert_eq!(t.text, "Hero");
            assert_eq!(t.color, "red");
            assert!(t.effects == vec![Effect::Bold, Effect::Underline]);
        }
        _ => panic!("expected a label"),
    }
    match &cmds[1] {
        Command::TypeLine { line, speed } => {
            assert_eq!(line.text, ": Hi");
            assert_eq!(*speed, 30);
        }
        _ => panic!("expected a line"),
    }
    match &cmds[3] {
        Command::TypeLine { line, speed } => {
            assert_eq!(line.text, ": Yo");
            assert_eq!(line.color, "light black");
            assert_eq!(*speed, 20);
        }
        _ => panic!("expected a line"),
    }
    match &cmds[4] {
        Command::TypeLine { line, speed } => {
            assert_eq!(line.text, "plain");
            assert_eq!(*speed, 5);
        }
        _ => panic!("expected a line"),
    }
}

#[test]
fn character_definitions_register() {
    let villain = Character {
        name: "Villain".to_string(),
        style: CharacterStyle { color: "blue".to_string(), effects: vec![] },
        duration: 7,
    };
    let entry = Section::Sequence(vec![
        Section::CharacterDef(villain),
        Section::Text(TextInput { dialogs: vec![("Villain".to_string(), "ha".to_string())], duration: None }),
    ]);
    let mut init = compile(entry, &mut no_sources());
    let cmds = run(&mut init, &[]);
    match &cmds[0] {
        Command::TypeLine { line, speed } => {
            assert_eq!(line.color, "blue");
            assert_eq!(*speed, 7);
        }
        _ => panic!("expected a line"),
    }
}

#[test]
fn title_clear_and_show() {
    let show = ShowInput {
        frame: ShowType::Dry("art".to_string()),
        duration: Some(3),
        x: Some(1),
        y: None,
        alignment: Alignment::Center,
    };
    let entry = Section::Sequence(vec![
        Section::Title(TitleInput { text: "Act I".to_string(), wait: 2 }),
        Section::Clear,
        Section::Show(show),
    ]);
    let mut init = compile(entry, &mut no_sources());
    let cmds = run(&mut init, &[]);
    assert_eq!(cmds.len(), 6);
    assert!(matches!(&cmds[0], Command::ShowTitle { text, wait: 2 } if text == "Act I"));
    assert!(matches!(cmds[1], Command::Clear));
    assert!(matches!(cmds[2], Command::AlignFrame(Alignment::Center)));
    assert!(matches!(&cmds[3], Command::SetFrame(f) if f == " art\n"));
    assert!(matches!(cmds[4], Command::Sleep(3)));
    assert!(matches!(cmds[5], Command::ClearFrame));
}

#[test]
fn show_reads_its_image_from_the_frames() {
    let show = ShowInput {
        frame: ShowType::Path { file: PathReference::Relative("a.png".to_string()), scale: 2, invert: false },
        duration: None,
        x: None,
        y: None,
        alignment: Alignment::TopLeft,
    };
    let entry = Section::Show(show);
    let mut reqs = Vec::new();
    entry.requests("yaml", "root", &mut reqs);
    assert_eq!(reqs.len(), 1);
    match &reqs[0] {
        Request::Image { file, base, scale, invert } => {
            assert_eq!(file.as_absolute(), "a.png");
            assert_eq!(base, "root");
            assert_eq!(*scale, 2);
            assert!(!*invert);
        }
        _ => panic!("expected an image"),
    }
    let mut sources = no_sources();
    sources.frames.push(storyteller::initializer::FrameSource {
        file: "a.png".to_string(),
        base: "root".to_string(),
        scale: 2,
        invert: false,
        art: Ok("@@\n".to_string()),
    });
    let mut init = compile(entry, &mut sources);
    let cmds = run(&mut init, &[]);
    assert!(matches!(&cmds[1], Command::SetFrame(f) if f == "@@\n"));
}

#[test]
fn missing_image_is_an_invalid_path() {
    let show = ShowInput {
        frame: ShowType::Path { file: PathReference::Relative("a.png".to_string()), scale: 2, invert: false },
        duration: None,
        x: None,
        y: None,
        alignment: Alignment::TopLeft,
    };
    let r = Initializer::new("root".to_string(), FileFormat::Yaml, vec![], None, Section::Show(show), &mut no_sources());
    assert!(matches!(r, Err(CompileError::InvalidPath(p)) if p == "a.png"));
}

#[test]
fn reference_runs_the_stored_document() {
    let entry = Section::Sequence(vec![Section::Refer("chapter".to_string()), print("end")]);
    let mut reqs = Vec::new();
    entry.requests("yaml", "root", &mut reqs);
    assert!(matches!(&reqs[0], Request::Document(p) if p == "root/chapter.yaml"));
    let mut sources = no_sources();
    sources.documents.push(Source { path: "root/chapter.yaml".to_string(), content: Some(Ok(print("chapter one"))) });
    let mut init = compile(entry, &mut sources);
    assert_eq!(appended(&run(&mut init, &[])), vec!["chapter one".to_string(), "end".to_string()]);
}

#[test]
fn self_reference_compiles_and_runs_once() {
    let entry = Section::Refer("loop".to_string());
    let mut sources = no_sources();
    let body = Section::Sequence(vec![print("inside"), Section::Refer("loop".to_string())]);
    sources.documents.push(Source { path: "root/loop.yaml".to_string(), content: Some(Ok(body)) });
    let mut init = compile(entry, &mut sources);
    assert_eq!(init.data.compiled_refs.len(), 1);
    assert_eq!(appended(&run(&mut init, &[])), vec!["inside".to_string()]);
}

#[test]
fn shared_reference_is_compiled_once() {
    let entry = Section::Sequence(vec![Section::Refer("b".to_string()), Section::Refer("c".to_string())]);
    let mut sources = no_sources();
    sources.documents.push(Source { path: "root/b.yaml".to_string(), content: Some(Ok(print("b"))) });
    sources.documents.push(Source {
        path: "root/c.yaml".to_string(),
        content: Some(Ok(Section::Sequence(vec![print("c"), Section::Refer("b".to_string())]))),
    });
    let mut init = compile(entry, &mut sources);
    assert_eq!(init.data.compiled_refs.len(), 2);
    assert_eq!(init.data.compiled_refs[0].0, "root/b.yaml");
    assert_eq!(init.data.compiled_refs[1].0, "root/c.yaml");
    assert!(sources.documents.iter().all(|d| d.content.is_none()));
    match &init.data.compiled_refs[1].1 {
        Section::Sequence(v) => assert!(matches!(&v[1], Section::ResolvedRefer(p) if p == "root/b.yaml")),
        _ => panic!("expected a sequence"),
    }
    assert_eq!(
        appended(&run(&mut init, &[])),
        vec!["b".to_string(), "c".to_string(), "b".to_string()]
    );
}

#[test]
fn unread_document_fails_compilation() {
    let r = Initializer::new("root".to_string(), FileFormat::Yaml, vec![], None, Section::Refer("nowhere".to_string()), &mut no_sources());
    assert!(matches!(r, Err(CompileError::InvalidPath(p)) if p == "root/nowhere.yaml"));
    let mut sources = no_sources();
    sources.documents.push(Source {
        path: "root/bad.yaml".to_string(),
        content: Some(Err(CompileError::Format(FormatError::YAML("broken".to_string())))),
    });
    let r = Initializer::new("root".to_string(), FileFormat::Yaml, vec![], None, Section::Refer("bad".to_string()), &mut sources);
    assert!(matches!(r, Err(CompileError::Format(FormatError::YAML(m))) if m == "broken"));
}

#[test]
fn unresolved_reference_stops_the_run() {
    let mut init = compile(Section::Sequence(vec![]), &mut no_sources());
    init.entry = Section::Sequence(vec![Section::ResolvedRefer("ghost".to_string()), print("never")]);
    let cmds = run(&mut init, &[]);
    assert_eq!(cmds.len(), 1);
    assert!(matches!(&cmds[0], Command::Unresolved(p) if p == "ghost"));
}

#[test]
fn last_in_of_another_type_is_not_rebound() {
    let mut state = RuntimeState::new();
    assert!(state.var_expr("last_in = 5"));
    assert!(!state.update_input("text".to_string()));
    assert_eq!(state.last_in, "text");
    assert!(state.var_condition("last_in == 5"));
}

#[test]
fn builtins_that_can_panic_are_not_evaluated() {
    let mut state = RuntimeState::new();
    assert!(!state.var_condition("shl(1, 64) == 0"));
    assert!(!state.var_condition("shr(1, 64) == 0"));
    assert_eq!(state.expand_string("${str::substring(\"é\", 0, 1)} end"), "str::substring(\"é\", 0, 1) end");
    assert!(!state.var_expr("x = math::abs(-1)"));
    assert!(!state.var_condition("sh/**/l(1, 64) == 0"));
    assert!(!state.var_condition("str::sub/* split */string(\"é\", 0, 1) == \"\""));
    assert!(!state.var_condition("math::a//\nbs(1) == 1"));
    assert!(state.var_expr("y = \"absent\""));
    assert!(state.var_condition("y == \"absent\""));
    assert!(state.var_expr("x = 1 + 2"));
    assert_eq!(state.expand_string("x is $x"), "x is 3");
}

#[test]
fn template_without_dollar_is_unchanged() {
    let state = RuntimeState::new();
    assert_eq!(state.expand_string("{braces} and text"), "{braces} and text");
}

#[test]
fn empty_guard_case_wins() {
    let sw = Switcher {
        default: Some(Box::new(print("default"))),
        cases: vec![
            Case { section: print("never"), captures: vec![Conditional::Expression("false".to_string())] },
            Case { section: print("always"), captures: vec![] },
            Case { section: print("later"), captures: vec![Conditional::Expression("true".to_string())] },
        ],
    };
    let mut init = compile(Section::Switch(sw), &mut no_sources());
    assert_eq!(appended(&run(&mut init, &[])), vec!["always".to_string()]);
}

#[test]
fn one_file_named_two_ways_is_one_document() {
    let entry = Section::Sequence(vec![Section::Refer("b".to_string()), Section::Refer("sub/../b".to_string())]);
    let mut reqs = Vec::new();
    entry.requests("yaml", "root", &mut reqs);
    assert!(matches!(&reqs[1], Request::Document(p) if p == "root/b.yaml"));
    let mut sources = no_sources();
    sources.documents.push(Source { path: "root/b.yaml".to_string(), content: Some(Ok(print("b"))) });
    let mut init = compile(entry, &mut sources);
    assert_eq!(init.data.compiled_refs.len(), 1);
    assert_eq!(appended(&run(&mut init, &[])), vec!["b".to_string(), "b".to_string()]);
}

#[test]
fn pending_mark_compiles_to_nothing() {
    let init = compile(Section::PendingCompilation, &mut no_sources());
    assert!(matches!(&init.entry, Section::Sequence(v) if v.is_empty()));
    assert!(init.data.compiled_refs.is_empty());
}

#[test]
fn compiling_twice_changes_nothing() {
    let entry = Section::Sequence(vec![Section::Refer("chapter".to_string())]);
    let mut sources = no_sources();
    sources.documents.push(Source { path: "root/chapter.yaml".to_string(), content: Some(Ok(print("one"))) });
    let mut init = compile(entry, &mut sources);
    let again = std::mem::replace(&mut init.entry, Section::Clear);
    let compiled = match again.compile(&mut init.data, "root", &mut sources) {
        Ok(s) => s,
        Err(_) => panic!("second compile failed"),
    };
    assert_eq!(init.data.compiled_refs.len(), 1);
    assert!(matches!(&compiled, Section::Sequence(v) if matches!(&v[0], Section::ResolvedRefer(p) if p == "root/chapter.yaml")));
}

#[test]
fn positioning_splits_lines_like_str_lines() {
    let mut f = ShowType::Dry("a\r\nb\n\nc\r".to_string());
    f.position(Some(1), None);
    assert_eq!(f.get_frame(), " a\n b\n \n c\r\n");
}

#[test]
fn later_character_definition_replaces_earlier() {
    let first = Character {
        name: "Guide".to_string(),
        style: CharacterStyle { color: "red".to_string(), effects: vec![] },
        duration: 3,
    };
    let second = Character {
        name: "Guide".to_string(),
        style: CharacterStyle { color: "green".to_string(), effects: vec![] },
        duration: 9,
    };
    let entry = Section::Sequence(vec![
        Section::CharacterDef(first),
        Section::CharacterDef(second),
        Section::Text(TextInput { dialogs: vec![("Guide".to_string(), "hello".to_string())], duration: None }),
    ]);
    let mut init = compile(entry, &mut no_sources());
    assert_eq!(init.data.characters.len(), 1);
    let cmds = run(&mut init, &[]);
    match &cmds[0] {
        Command::TypeLine { line, speed } => {
            assert_eq!(line.color, "green");
            assert_eq!(*speed, 9);
        }
        _ => panic!("expected a line"),
    }
}

#[test]
fn image_error_is_returned() {
    let show = ShowInput {
        frame: ShowType::Path { file: PathReference::Relative("a.png".to_string()), scale: 2, invert: false },
        duration: None,
        x: None,
        y: None,
        alignment: Alignment::TopLeft,
    };
    let mut sources = no_sources();
    sources.frames.push(storyteller::initializer::FrameSource {
        file: "a.png".to_string(),
        base: "root".to_string(),
        scale: 2,
        invert: false,
        art: Err(CompileError::Image("bad png".to_string())),
    });
    let r = Initializer::new("root".to_string(), FileFormat::Yaml, vec![], None, Section::Show(show), &mut sources);
    assert!(matches!(r, Err(CompileError::Image(m)) if m == "bad png"));
}

#[test]
fn nested_document_error_is_returned() {
    let mut sources = no_sources();
    sources.documents.push(Source { path: "root/a.yaml".to_string(), content: Some(Ok(Section::Refer("missing".to_string()))) });
    let r = Initializer::new(
        "root".to_string(),
        FileFormat::Yaml,
        vec![],
        None,
        Section::Sequence(vec![Section::Refer("a".to_string()), print("never")]),
        &mut sources,
    );
    assert!(matches!(r, Err(CompileError::InvalidPath(p)) if p == "root/missing.yaml"));
}
