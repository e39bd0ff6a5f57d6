//! End-to-end runs of the pipeline: known programs against their exact
//! output bytes, the wrap-around rules, and the runtime error cases.

use langfuck::interpreter::{Interpreter, InterpretError, RunError};
use langfuck::lexer::Span;
use langfuck::optimizer::Optimizer;
use langfuck::parser::ParserError;

const FUEL: u64 = u64::MAX;

/// The classic program, printing the text followed by a newline.
const HELLO_WORLD_NL: &str =
    "++++++++[>++++[>++>+++>+++>+<<<<-]>+>+>->>+[<]<-]>>.>---.+++++++..+++.>>.<-.<.+++.------.--------.>>+.>++.";

/// The same program without its final output: no trailing newline.
const HELLO_WORLD: &str =
    "++++++++[>++++[>++>+++>+++>+<<<<-]>+>+>->>+[<]<-]>>.>---.+++++++..+++.>>.<-.<.+++.------.--------.>>+.>++";

#[test]
fn hello_world() {
    let mut out = Interpreter::new();
    out.interpret(HELLO_WORLD, true, FUEL).unwrap();
    assert_eq!(&out.output()[..], "Hello World!".as_bytes());
}

#[test]
fn hello_world_end_to_end() {
    // Parser, optimizer and interpreter together produce exactly the
    // expected bytes.
    let mut machine = Interpreter::new();
    machine.interpret(HELLO_WORLD_NL, true, FUEL).unwrap();
    assert_eq!(&machine.output()[..], "Hello World!\n".as_bytes());
}

#[test]
fn hello_world_tree_runs() {
    // The ready-made instruction tree runs to the same text, with and
    // without the optimizer over it.
    let tree = langfuck::parser::hello_world();
    let mut plain = Interpreter::new();
    plain.interpret_ins(&tree, FUEL).unwrap();
    assert_eq!(&plain.output()[..], "Hello World!\n".as_bytes());
    let optimized_tree = Optimizer::new(&tree).optimize();
    let mut optimized = Interpreter::new();
    optimized.interpret_ins(&optimized_tree, FUEL).unwrap();
    assert_eq!(&optimized.output()[..], "Hello World!\n".as_bytes());
}

#[test]
fn optimizer_equivalence_on_runs() {
    // The same program, with and without optimization, writes the same
    // bytes for the same input.
    let programs = [HELLO_WORLD_NL, "+++++[>+++<-]>.<.", ",>++<[>+<-]>.", "[-].", "+-."];
    for src in programs {
        let mut plain = Interpreter::new();
        plain.set_input(vec![7]);
        let plain_result = plain.interpret(src, false, FUEL);
        let mut optimized = Interpreter::new();
        optimized.set_input(vec![7]);
        let optimized_result = optimized.interpret(src, true, FUEL);
        assert_eq!(plain_result, optimized_result);
        assert_eq!(plain.output(), optimized.output());
    }
}

#[test]
fn clear_idiom_runs_to_zero() {
    // A cell holding any nonzero value is zeroed by the clear loop,
    // optimized or not.
    for start in [1u32, 2, 5, 254, 255] {
        let mut src = String::new();
        for _ in 0..start {
            src.push('+');
        }
        src.push_str("[-].");
        let mut plain = Interpreter::new();
        plain.interpret(&src, false, FUEL).unwrap();
        assert_eq!(&plain.output()[..], &[0]);
        let mut optimized = Interpreter::new();
        optimized.interpret(&src, true, FUEL).unwrap();
        assert_eq!(&optimized.output()[..], &[0]);
    }
}

#[test]
fn multiply_add_idiom() {
    // Five times three into the right neighbor; the current cell ends
    // zero. Identical with and without optimization.
    let src = "+++++[>+++<-]>.<.";
    let mut plain = Interpreter::new();
    plain.interpret(src, false, FUEL).unwrap();
    assert_eq!(&plain.output()[..], &[15, 0]);
    let mut optimized = Interpreter::new();
    optimized.interpret(src, true, FUEL).unwrap();
    assert_eq!(&optimized.output()[..], &[15, 0]);
}

#[test]
fn pointer_wraparound() {
    // Left from cell 0 lands on the last cell: writing there and
    // wrapping right one step comes back to cell 0.
    let mut machine = Interpreter::new();
    machine.interpret("<+>.<.", true, FUEL).unwrap();
    // After "<" the pointer sits on the last cell; "+" marks it; ">"
    // wraps forward to cell 0 (still zero); "<" returns to the mark.
    assert_eq!(&machine.output()[..], &[0, 1]);
}

#[test]
fn byte_wraparound() {
    // Decrementing zero gives 255; incrementing 255 gives zero.
    let mut machine = Interpreter::new();
    machine.interpret("-.+.", false, FUEL).unwrap();
    assert_eq!(&machine.output()[..], &[255, 0]);
}

#[test]
fn input_is_read_into_cells() {
    let mut machine = Interpreter::new();
    machine.set_input(vec![65, 66]);
    machine.interpret(",.>,.", true, FUEL).unwrap();
    assert_eq!(&machine.output()[..], &[65, 66]);
}

#[test]
fn exhausted_input_is_fatal() {
    let mut machine = Interpreter::new();
    let r = machine.interpret(".,.", true, FUEL);
    assert_eq!(r, Err(InterpretError::Runtime(RunError::InputExhausted)));
    // The byte written before the failure stays written.
    assert_eq!(&machine.output()[..], &[0]);
}

#[test]
fn fuel_cutoff_is_reported() {
    // A loop that never changes its cell runs past any budget.
    let mut machine = Interpreter::new();
    let r = machine.interpret("+[]", true, 1000);
    assert_eq!(r, Err(InterpretError::Runtime(RunError::OutOfFuel)));
}

#[test]
fn parse_errors_stop_the_pipeline() {
    let mut machine = Interpreter::new();
    let r = machine.interpret("+.]", true, FUEL);
    assert_eq!(
        r,
        Err(InterpretError::Parse(ParserError::UnexpectedClosing(Span::from(2, 3))))
    );
    // Execution never started.
    assert_eq!(machine.output().len(), 0);
}
