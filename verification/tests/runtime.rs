use puke::args::Args;
use puke::smt::{solve, Input, Output};
use puke::{Ast, Interpreter, Machine, Scheduler};

#[test]
fn args_with_max_machines_defaults() {
    let args = Args::with_max_machines(6);
    assert_eq!(args.max_machines, 6);
    assert!(!args.scramble);
    assert!(args.fail_io.is_none());
    assert!(args.fuzz.is_none());
    assert!(args.module.is_none());
}

#[test]
fn scheduler_starts_with_an_empty_table() {
    let args = Args::with_max_machines(2);
    let mut scheduler = Scheduler::start(&args);
    assert!(!scheduler.work.contains_pid(0));
    let k = scheduler.work.insert(Machine { ast: Ast }).unwrap();
    assert_eq!(k, 0);
    assert!(scheduler.work.contains_pid(0));
}

#[test]
fn repl_round_leaves_interpreter_usable() {
    let args = Args::with_max_machines(2);
    let mut interpreter = Interpreter { ast: Ast, scheduler: Scheduler::start(&args) };
    interpreter.repl();
    let k = interpreter.scheduler.work.insert(Machine { ast: Ast }).unwrap();
    assert_eq!(k, 0);
}

#[test]
fn solve_yields_the_empty_verdict() {
    assert_eq!(solve(Input), Output);
}
