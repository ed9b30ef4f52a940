use recurrence::{apply_all, get_operations, series, Instruction, Operation};

fn apply(x: f64, step: (Operation, f64)) -> f64 {
    match step.0 {
        Operation::Add => x + step.1,
        Operation::Subtract => x - step.1,
        Operation::Multiply => x * step.1,
        Operation::Divide => x / step.1,
    }
}

fn steps_of(tokens: &[&str]) -> Vec<(Operation, f64)> {
    tokens
        .iter()
        .map(|t| {
            let i = Instruction::parse(t).unwrap();
            (i.operation, i.operand.parse::<f64>().unwrap())
        })
        .collect()
}

#[test]
fn doubling_plus_one_from_zero() {
    let steps = steps_of(&["*2", "+1"]);
    let terms = series(0.0, 10, &steps, apply);
    assert_eq!(terms, vec![0.0, 1.0, 3.0, 7.0, 15.0, 31.0, 63.0, 127.0, 255.0, 511.0]);
}

#[test]
fn sample_operations_give_the_same_series() {
    let steps: Vec<(Operation, f64)> = get_operations()
        .iter()
        .map(|i| (i.operation, i.operand.parse::<f64>().unwrap()))
        .collect();
    let terms = series(0.0, 10, &steps, apply);
    assert_eq!(terms[9], 511.0);
}

#[test]
fn zero_count_gives_no_terms() {
    let steps = steps_of(&["*2", "+1"]);
    assert!(series(5.0, 0, &steps, apply).is_empty());
    assert!(series(-1.5, 0, &Vec::new(), apply).is_empty());
}

#[test]
fn no_instructions_repeat_the_seed() {
    let terms = series(2.5, 6, &Vec::new(), apply);
    assert_eq!(terms, vec![2.5; 6]);
}

#[test]
fn instructions_apply_left_to_right() {
    let steps = steps_of(&["+1", "*3", "-2", "/2"]);
    assert_eq!(apply_all(1.0, &steps, &apply), 2.0);
    let terms = series(1.0, 3, &steps, apply);
    assert_eq!(terms, vec![1.0, 2.0, 3.5]);
}

#[test]
fn division_by_zero_is_infinite() {
    let steps = steps_of(&["/0"]);
    let terms = series(1.0, 2, &steps, apply);
    assert!(terms[1].is_infinite());
}

#[test]
fn integer_series() {
    let steps: Vec<u64> = vec![2, 1];
    let terms = series(0u64, 5, &steps, |x: u64, k: u64| if k == 2 { x * 2 } else { x + k });
    assert_eq!(terms, vec![0, 1, 3, 7, 15]);
}
