//! The optimizer's visible behavior: run-length merging, cancellation,
//! idiom classification, and idempotence.

use langfuck::ast::Instruction;
use langfuck::lexer::lex;
use langfuck::optimizer::Optimizer;
use langfuck::parser::Parser;

fn optimize_source(src: &str) -> Vec<Instruction> {
    let parsed = Parser::new(lex(src)).parse().unwrap();
    Optimizer::new(&parsed).optimize()
}

#[test]
fn run_length_merge() {
    assert_eq!(optimize_source("+++"), vec![Instruction::Add(3)]);
    assert_eq!(
        optimize_source(">>><<"),
        vec![Instruction::Right(1)]
    );
    assert_eq!(
        optimize_source("++>--"),
        vec![Instruction::Add(2), Instruction::Right(1), Instruction::Subtract(2)]
    );
}

#[test]
fn cancellation() {
    assert_eq!(optimize_source("+-"), vec![]);
    assert_eq!(optimize_source("++--"), vec![]);
    assert_eq!(optimize_source("+++--"), vec![Instruction::Add(1)]);
    assert_eq!(optimize_source("<>"), vec![]);
    // Cancellation cascades through what it uncovers.
    assert_eq!(optimize_source("+<>-"), vec![]);
}

#[test]
fn clear_idiom_classified() {
    assert_eq!(optimize_source("[-]"), vec![Instruction::Clear]);
    assert_eq!(optimize_source("[+]"), vec![Instruction::Clear]);
    // Only a single-step body is the clear idiom.
    assert_eq!(
        optimize_source("[--]"),
        vec![Instruction::Loop(vec![Instruction::Subtract(2)])]
    );
}

#[test]
fn multiply_add_idiom_classified() {
    assert_eq!(
        optimize_source("[>+++<-]"),
        vec![Instruction::Multiply { multiplicand: 3, offset: 1 }]
    );
    assert_eq!(
        optimize_source("[<<++>>-]"),
        vec![Instruction::Multiply { multiplicand: 2, offset: -2 }]
    );
    // A body that decrements by more than one is not the idiom.
    assert_eq!(
        optimize_source("[>+<--]"),
        vec![Instruction::Loop(vec![
            Instruction::Right(1),
            Instruction::Add(1),
            Instruction::Left(1),
            Instruction::Subtract(2),
        ])]
    );
}

#[test]
fn bodies_optimized_bottom_up() {
    // The inner loop is classified first, so the outer body holds the
    // rewritten instruction.
    assert_eq!(
        optimize_source("[>[-]<-]"),
        vec![Instruction::Loop(vec![
            Instruction::Right(1),
            Instruction::Clear,
            Instruction::Left(1),
            Instruction::Subtract(1),
        ])]
    );
}

#[test]
fn unrecognized_shapes_pass_through() {
    assert_eq!(
        optimize_source("[.]"),
        vec![Instruction::Loop(vec![Instruction::Output])]
    );
    assert_eq!(optimize_source("[]"), vec![Instruction::Loop(vec![])]);
}

#[test]
fn run_length_idempotence() {
    let sources = [
        "++++++++[>++++[>++>+++>+++>+<<<<-]>+>+>->>+[<]<-]>>.>---.+++++++..+++.>>.<-.<.+++.------.--------.>>+.>++.",
        "+++++[>+++<-]>.<.",
        "+-<>[[-]]",
        "",
    ];
    for src in sources {
        let once = optimize_source(src);
        let twice = Optimizer::new(&once).optimize();
        // The second run removes nothing: it changes nothing at all.
        assert!(twice.len() >= once.len());
        assert_eq!(twice, once);
    }
}
