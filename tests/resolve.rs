use echo::context::Context;
use echo::resolve::{resolve, MarkerDef, ResolveError};
use echo::{parse, Dest, Instruction};

fn def(name: &str, row: i32, col: i32) -> MarkerDef {
    MarkerDef { name: name.to_string(), row, col }
}

#[test]
fn resolve_replaces_markers() {
    let instructions = parse("goto top\nwait 1\ngoto 3 4", "//").unwrap();
    let program = resolve(instructions, &vec![def("top", 7, 9)]).unwrap();
    assert_eq!(
        program.instructions,
        vec![
            Instruction::Goto(Dest::Relative { row: 7, col: 9 }),
            Instruction::Wait(1),
            Instruction::Goto(Dest::Relative { row: 3, col: 4 }),
        ]
    );
}

#[test]
fn resolve_undefined_marker() {
    let instructions = parse("goto 1 1\ngoto nowhere\ngoto elsewhere", "//").unwrap();
    assert_eq!(
        resolve(instructions, &vec![def("top", 0, 0)]),
        Err(ResolveError::UndefinedMarker("nowhere".to_string()))
    );
}

#[test]
fn resolve_duplicate_marker() {
    let instructions = parse("wait 1", "//").unwrap();
    assert_eq!(
        resolve(instructions, &vec![def("a", 0, 0), def("b", 1, 1), def("a", 2, 2)]),
        Err(ResolveError::DuplicateMarker("a".to_string()))
    );
}

#[test]
fn resolve_without_markers_keeps_program() {
    let instructions = parse("goto -1 2\ndelete", "//").unwrap();
    let program = resolve(instructions, &vec![]).unwrap();
    assert_eq!(
        program.instructions,
        vec![Instruction::Goto(Dest::Relative { row: -1, col: 2 }), Instruction::Delete]
    );
}

#[test]
fn context_set_and_load() {
    let mut ctx = Context::new();
    assert_eq!(ctx.load("code"), None);
    ctx.set("code".to_string(), "fn main() {}".to_string());
    ctx.set("other".to_string(), "x".to_string());
    assert_eq!(ctx.load("code"), Some("fn main() {}".to_string()));
    ctx.set("code".to_string(), "replaced".to_string());
    assert_eq!(ctx.load("code"), Some("replaced".to_string()));
    assert_eq!(ctx.load("other"), Some("x".to_string()));
    assert_eq!(ctx.load("missing"), None);
}
