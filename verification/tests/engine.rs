use brainfuck_rust::compiler::{Compiler, Op, Terminator, Ty};
use brainfuck_rust::machine::exec_module;
use brainfuck_rust::parser::{parse, ParseError};
use brainfuck_rust::runner::{run, run_seq_exp, Io, State};
use brainfuck_rust::lexer::{tokenize, Token};
use brainfuck_rust::ast::{Exp, SeqExp};
use brainfuck_rust::operators::{decrement, increment, left, right};

fn parse_src(text: &str) -> SeqExp {
    parse(&text.as_bytes().to_vec()).expect("program should parse")
}

fn compile_src(text: &str) -> Compiler {
    let ast = parse_src(text);
    let mut compiler = Compiler::new();
    compiler.compile(&ast);
    compiler
}

fn count_ops(compiler: &Compiler, probe: Op) -> usize {
    let mut n = 0;
    for b in compiler.blocks.iter() {
        for op in b.ops.iter() {
            if *op == probe {
                n += 1;
            }
        }
    }
    n
}

#[test]
fn lexer_keeps_operators_and_skips_the_rest() {
    let toks = tokenize(&"a<b>c+d-e.f,g[h]i".as_bytes().to_vec());
    assert_eq!(
        toks,
        vec![
            Token::Left,
            Token::Right,
            Token::Increment,
            Token::Decrement,
            Token::Output,
            Token::Input,
            Token::LoopStart,
            Token::LoopEnd,
        ]
    );
}

#[test]
fn parser_builds_the_loop_tree() {
    let ast = parse_src("+[-]");
    assert_eq!(ast.exps.len(), 2);
    assert!(matches!(ast.exps[0], Exp::Increment));
    match &ast.exps[1] {
        Exp::Loop { body } => {
            assert_eq!(body.exps.len(), 1);
            assert!(matches!(body.exps[0], Exp::Decrement));
        },
        other => panic!("expected a loop, got {:?}", other),
    }
}

#[test]
fn parser_rejects_unmatched_loop_end() {
    let r = parse(&"+]".as_bytes().to_vec());
    assert_eq!(r.unwrap_err(), ParseError::UnmatchedLoopEnd);
}

#[test]
fn parser_rejects_unclosed_loop() {
    let r = parse(&"[[+]".as_bytes().to_vec());
    assert_eq!(r.unwrap_err(), ParseError::UnclosedLoop);
}

#[test]
fn folding_merges_equal_runs_only() {
    let c = compile_src(">><<+++--");
    assert_eq!(c.blocks.len(), 1);
    assert_eq!(
        c.blocks[0].ops,
        vec![
            Op::Alloc,
            Op::AddPtr { delta: 2 },
            Op::AddPtr { delta: -2 },
            Op::AddData { delta: 3 },
            Op::AddData { delta: -2 },
            Op::Free,
        ]
    );
    assert_eq!(c.blocks[0].term, Terminator::Ret);
}

#[test]
fn folded_run_matches_single_steps() {
    // Five increments folded into one operation write the same byte as five
    // separate generation passes of one increment each, run back to back.
    let folded = exec_module(&compile_src("+++++.").blocks, Vec::new(), 256, 100).unwrap();
    let stepped = exec_module(&compile_src("+.").blocks, Vec::new(), 256, 100).unwrap();
    assert_eq!(folded, vec![5u8]);
    assert_eq!(stepped, vec![1u8]);
    let wrapped = exec_module(&compile_src("-.").blocks, Vec::new(), 256, 100).unwrap();
    assert_eq!(wrapped, vec![255u8]);
}

#[test]
fn loop_lowering_builds_one_triple_per_loop() {
    let c = compile_src("[[]]");
    assert_eq!(c.blocks.len(), 7);
    // Outer loop: START 1, BODY 2, END 3; inner loop: START 4, BODY 5, END 6.
    assert_eq!(c.blocks[0].term, Terminator::Jump { target: 1 });
    assert_eq!(c.blocks[1].term, Terminator::Branch { body: 2, end: 3 });
    assert_eq!(c.blocks[2].term, Terminator::Jump { target: 4 });
    assert_eq!(c.blocks[4].term, Terminator::Branch { body: 5, end: 6 });
    assert_eq!(c.blocks[5].term, Terminator::Jump { target: 4 });
    assert_eq!(c.blocks[6].term, Terminator::Jump { target: 1 });
    assert_eq!(c.blocks[3].term, Terminator::Ret);
}

#[test]
fn jumps_target_only_their_own_loop_start() {
    // Every zero-test block is entered by exactly two jumps — its loop's
    // fall-through and its own back edge — and nothing else is ever a jump
    // target.
    for text in ["[[]]", "+[>[-]<]", "[][]", "++[>++<-]"] {
        let c = compile_src(text);
        for (t, b) in c.blocks.iter().enumerate() {
            let hits = c
                .blocks
                .iter()
                .filter(|x| matches!(x.term, Terminator::Jump { target } if target == t))
                .count();
            let expected = if matches!(b.term, Terminator::Branch { .. }) { 2 } else { 0 };
            assert_eq!(hits, expected, "incoming jumps of block {} for {:?}", t, text);
        }
    }
}

#[test]
fn exactly_one_alloc_and_one_free() {
    for text in ["", "+", "[+]", "[[->+<]]", ",.", "++[>++<-]"] {
        let c = compile_src(text);
        assert_eq!(count_ops(&c, Op::Alloc), 1, "alloc count for {:?}", text);
        assert_eq!(count_ops(&c, Op::Free), 1, "free count for {:?}", text);
    }
}

#[test]
fn loop_free_compile_matches_interpretation() {
    // Same tape size on both sides pins the one tape policy for the check.
    for (text, input) in [
        ("+++.", vec![]),
        (">++<+.>.", vec![]),
        (",+.", vec![7u8]),
        (",.,.", vec![1u8, 2u8]),
        ("<.", vec![]),
    ] {
        let ast = parse_src(text);
        let interpreted = run(&ast, input.clone(), 1000).unwrap();
        let compiled = exec_module(&compile_src(text).blocks, input, 256, 1000).unwrap();
        assert_eq!(interpreted, compiled, "outputs for {:?}", text);
    }
}

#[test]
fn zero_guard_loop_runs_zero_times() {
    let out = run(&parse_src("[.]"), Vec::new(), 10).unwrap();
    assert_eq!(out, Vec::<u8>::new());
    let compiled = exec_module(&compile_src("[.]").blocks, Vec::new(), 30000, 10).unwrap();
    assert_eq!(compiled, Vec::<u8>::new());
}

#[test]
fn scenario_writes_sixty_four() {
    let text = "++++++++[>++++++++<-]>.";
    let out = run(&parse_src(text), Vec::new(), 100).unwrap();
    assert_eq!(out, vec![64u8]);
    let compiled = exec_module(&compile_src(text).blocks, Vec::new(), 30000, 100).unwrap();
    assert_eq!(compiled, vec![64u8]);
}

#[test]
fn scenario_echoes_one_byte() {
    let out = run(&parse_src(",."), vec![0x41], 10).unwrap();
    assert_eq!(out, vec![0x41]);
    let compiled = exec_module(&compile_src(",.").blocks, vec![0x41], 30000, 10).unwrap();
    assert_eq!(compiled, vec![0x41]);
}

#[test]
fn scenario_empty_loop_terminates_silently() {
    let out = run(&parse_src("[]"), Vec::new(), 10).unwrap();
    assert_eq!(out, Vec::<u8>::new());
    let compiled = exec_module(&compile_src("[]").blocks, Vec::new(), 30000, 10).unwrap();
    assert_eq!(compiled, Vec::<u8>::new());
}

#[test]
fn scenario_echo_loop_runs_past_end_of_stream() {
    // `+[,.]` echoes its input; at end of stream the interpreter's read
    // leaves the cell unchanged, so the loop never ends: the budget runs out
    // after the three input bytes were echoed.
    let ast = parse_src("+[,.]");
    let mut state = State::default();
    let mut io = Io { input: vec![10, 20, 30], cursor: 0, output: Vec::new() };
    let r = run_seq_exp(&ast, &mut state, &mut io, 50);
    assert!(r.is_none());
    assert_eq!(&io.output[..3], &[10, 20, 30]);
    // The compiled read stores the end marker's byte instead, so the loop
    // spins there too: the documented divergence is only in the bytes echoed
    // after the stream ends.
    let compiled = exec_module(&compile_src("+[,.]").blocks, vec![10, 20, 30], 30000, 50);
    assert!(compiled.is_none());
}

#[test]
fn pointer_and_cell_operators_wrap() {
    let mut state = State::default();
    left(&mut state);
    assert_eq!(state.position, 255);
    right(&mut state);
    assert_eq!(state.position, 0);
    decrement(&mut state);
    assert_eq!(state.strip[0], 255);
    increment(&mut state);
    assert_eq!(state.strip[0], 0);
}

#[test]
fn rendering_gives_back_the_operator_text() {
    // A write renders as `.` followed by a newline; everything else is its
    // one operator character, with brackets around each loop body.
    let ast = parse_src("xx+[->+<].,yy");
    let mut out = Vec::new();
    ast.render(&mut out);
    assert_eq!(out, "+[->+<].\n,".as_bytes().to_vec());
    // Rendered text parses back to a tree that renders identically.
    let again = parse(&out).unwrap();
    let mut out2 = Vec::new();
    again.render(&mut out2);
    assert_eq!(out, out2);
}

#[test]
fn declared_functions_have_the_runtime_signatures() {
    let c = Compiler::new();
    let fns = c.init_functions();
    assert_eq!(fns.calloc_fn.params, vec![Ty::I64, Ty::I64]);
    assert_eq!(fns.calloc_fn.ret, Ty::BytePtr);
    assert!(fns.calloc_fn.external);
    assert_eq!(fns.getchar_fn.params.len(), 0);
    assert_eq!(fns.getchar_fn.ret, Ty::I32);
    assert_eq!(fns.putchar_fn.params, vec![Ty::I32]);
    assert_eq!(fns.main_fn.ret, Ty::I32);
}
