//! Grammar, engine and lattice behaviour on concrete cases: memoized
//! parsing, the two recursion disciplines, loop shapes, broadcasting
//! symmetry, typed indexing errors, and display forms.
use tin::errors::TinError;
use tin::execute_tin;
use tin::interpreter::TinInterpreter;
use tin::value::TinValue;

fn run(code: &str, input: Vec<TinValue>) -> Vec<TinValue> {
    let mut intrp = TinInterpreter::new();
    let program = intrp.parse(code).unwrap();
    let mut stack = input;
    intrp.execute(&program, Option::None, &mut stack).unwrap();
    stack
}

fn run_err(code: &str, input: Vec<TinValue>) -> TinError {
    let mut intrp = TinInterpreter::new();
    let program = intrp.parse(code).unwrap();
    let mut stack = input;
    intrp.execute(&program, Option::None, &mut stack).unwrap_err().kind
}

fn fl(x: f64) -> TinValue {
    TinValue::Float(x.to_bits())
}

#[test]
fn parse_twice_same_result() {
    let mut intrp = TinInterpreter::new();
    let code = "3\u{3b9}\u{22b3}\u{2211}";
    let first = intrp.parse(code).unwrap();
    let second = intrp.parse(code).unwrap();
    assert_eq!(first.len(), second.len());
    let mut s1 = vec![];
    intrp.execute(&first, Option::None, &mut s1).unwrap();
    let mut s2 = vec![];
    intrp.execute(&second, Option::None, &mut s2).unwrap();
    assert_eq!(s1, s2);
    assert_eq!(s1, vec![TinValue::Int(6)]);
}

#[test]
fn definition_grows_grammar_mid_parse() {
    let stack = run("|\u{3b9}\u{22b3}\u{220f}|\u{2192}|F| 3F", vec![]);
    assert_eq!(*stack.last().unwrap(), TinValue::Int(6));
}

#[test]
fn forward_reference_fails() {
    let mut intrp = TinInterpreter::new();
    assert!(intrp.parse("G 1 |\u{3b9}\u{22b3}\u{220f}|\u{2192}|G|").is_err());
}

#[test]
fn comments_are_skipped() {
    let stack = run("1 \u{2234} noise \u{2234} 2+", vec![]);
    assert_eq!(stack, vec![TinValue::Int(3)]);
    let stack = run("1 \u{2234} to line end\n2+", vec![]);
    assert_eq!(stack, vec![TinValue::Int(3)]);
}

#[test]
fn foreach_runs_once_per_element_in_order() {
    let v = TinValue::IntVector(vec![4, 7, 1, 9]);
    let stack = run("({})", vec![v]);
    assert_eq!(
        stack,
        vec![TinValue::Int(4), TinValue::IntVector(vec![7, 1, 9])],
        "the body ran once per element, in index order, the capture mark sitting above the first push"
    );
}

#[test]
fn map_aligns_with_input_whatever_the_body_pushes() {
    let v = TinValue::IntVector(vec![1, 2, 3]);
    let stack = run("[\u{22b3}]", vec![v]);
    assert_eq!(stack, vec![TinValue::IntVector(vec![2, 3, 4])]);
    let v = TinValue::IntVector(vec![1, 2]);
    let stack = run("[!]", vec![v]);
    assert_eq!(stack, vec![TinValue::IntVector(vec![1, 1, 2, 2])]);
}

#[test]
fn self_bound_recursion_reenters_the_block() {
    let stack = run("5\u{2991}\u{22b2}!?\u{2207}\u{2992}", vec![]);
    assert_eq!(stack, vec![TinValue::Int(0)]);
}

#[test]
fn caller_bound_recursion_reenters_the_caller() {
    let stack = run(
        "\u{25ca}\u{27e8}!!\u{22b2}\u{2207}\u{b7}\u{2192}n\u{27e9}:\u{27e8}1\u{2192}n\u{27e9}.n\u{2190}n",
        vec![TinValue::Int(5)],
    );
    assert_eq!(*stack.last().unwrap(), TinValue::Int(120));
}

#[test]
fn scalar_vector_commutes_for_commutative_ops() {
    let v = TinValue::Vector(vec![TinValue::Int(3), fl(2.5), TinValue::Int(-7)]);
    for op in ["+", "\u{b7}", "\u{2228}", "\u{2227}"] {
        let left = run(op, vec![TinValue::Int(5), v.clone()]);
        let right = run(op, vec![v.clone(), TinValue::Int(5)]);
        assert_eq!(left, right, "operand order changed {}", op);
    }
}

#[test]
fn division_by_zero_is_a_typed_error() {
    assert_eq!(run_err("/", vec![TinValue::Int(0), TinValue::Int(1)]), TinError::DivisionByZero);
}

#[test]
fn out_of_range_index_is_a_typed_error() {
    let v = TinValue::IntVector(vec![10, 20]);
    assert_eq!(
        run_err("\u{2193}", vec![v.clone(), TinValue::Int(5)]),
        TinError::IndexOutOfRange
    );
    assert_eq!(
        run_err("@", vec![v, TinValue::IntVector(vec![0, 9])]),
        TinError::IndexOutOfRange
    );
}

#[test]
fn empty_stack_is_a_typed_error() {
    assert_eq!(run_err("+", vec![]), TinError::EmptyStack);
}

#[test]
fn capture_specializes_and_append_degrades() {
    let stack = run("(1 2 3)", vec![]);
    assert_eq!(stack, vec![TinValue::IntVector(vec![1, 2, 3])]);
    let stack = run("(1 2).5,", vec![]);
    match &stack[0] {
        TinValue::Vector(v) => assert_eq!(v.len(), 3),
        other => panic!("expected a general vector, got {}", other.to_string()),
    }
}

#[test]
fn float_promotion_and_equality() {
    let stack = run("1\u{1d53d}", vec![]);
    assert_eq!(stack, vec![TinValue::Int(1)]);
    let stack = run("4\u{221a}", vec![]);
    assert_eq!(stack, vec![TinValue::Int(2)]);
    let stack = run("3 2^", vec![]);
    assert_eq!(stack, vec![TinValue::Int(8)]);
    let stack = run("(.5 .5)\u{2211}", vec![]);
    assert_eq!(stack, vec![TinValue::Int(1)]);
}

#[test]
fn sorting_is_not_the_identity() {
    let v = TinValue::IntVector(vec![3, 1, 2]);
    let stack = run("\u{21d1}", vec![v.clone()]);
    assert_eq!(stack, vec![TinValue::IntVector(vec![1, 2, 3])]);
    let stack = run("\u{21d3}", vec![v]);
    assert_eq!(stack, vec![TinValue::IntVector(vec![3, 2, 1])]);
}

#[test]
fn display_forms() {
    assert_eq!(TinValue::Int(42).to_string(), "42");
    assert_eq!(TinValue::Int(-7).to_string(), "-7");
    assert_eq!(fl(1.5).to_string(), "1.50000");
    assert_eq!(
        TinValue::Vector(vec![TinValue::Int(1), TinValue::Int(2)]).to_string(),
        "[1, 2]"
    );
    assert_eq!(TinValue::FloatVector(vec![(0.5f64).to_bits()]).to_string(), "[0.5]");
}

#[test]
fn output_buffer_collects_prints() {
    assert_eq!(execute_tin("5.$"), "5\n");
    assert_eq!(execute_tin("\"ab\"*$"), "ab");
    assert_eq!(execute_tin("'a'"), "");
}

#[test]
fn char_literals_are_code_points() {
    let stack = run("'a'", vec![]);
    assert_eq!(stack, vec![TinValue::Int(97)]);
    let stack = run("\"ab\"", vec![]);
    assert_eq!(stack, vec![TinValue::IntVector(vec![97, 98])]);
}

#[test]
fn random_draws_stay_in_the_unit_interval() {
    for _ in 0..100 {
        let stack = run("\u{2af0}", vec![]);
        match &stack[0] {
            TinValue::Float(bits) => {
                let x = f64::from_bits(*bits);
                assert!(0.0 <= x && x < 1.0);
            },
            other => panic!("expected a float, got {}", other.to_string()),
        }
    }
}

#[test]
fn unique_and_window_and_flatten() {
    let stack = run("\u{2283}", vec![TinValue::IntVector(vec![3, 1, 3, 2, 1])]);
    assert_eq!(stack, vec![TinValue::IntVector(vec![3, 1, 2])]);
    let stack = run("2\u{229e}", vec![TinValue::IntVector(vec![1, 2, 3])]);
    assert_eq!(
        stack,
        vec![TinValue::Vector(vec![
            TinValue::IntVector(vec![1, 2]),
            TinValue::IntVector(vec![2, 3]),
        ])]
    );
    let nested = TinValue::Vector(vec![
        TinValue::IntVector(vec![1, 2]),
        TinValue::Vector(vec![TinValue::IntVector(vec![3])]),
        TinValue::Int(4),
    ]);
    let stack = run("\u{2294}", vec![nested]);
    match &stack[0] {
        TinValue::Vector(v) => {
            assert_eq!(v.len(), 4);
            assert_eq!(v[0], TinValue::Int(1));
            assert_eq!(v[3], TinValue::Int(4));
        },
        other => panic!("expected a general vector, got {}", other.to_string()),
    }
}

#[test]
fn parallel_and_sequential_paths_agree() {
    let v = TinValue::Vector((0..10100).map(|i| TinValue::Int(i % 97)).collect());
    for code in [
        "\u{2211}", "\u{2200}", "\u{2203}", "\u{2204}", "\u{2308}", "\u{230a}",
        "\u{21d1}", "\u{21d3}",
    ] {
        let mut on = TinInterpreter::new();
        on.set_parallelization(true);
        let program = on.parse(code).unwrap();
        let mut s_on = vec![v.clone()];
        on.execute(&program, Option::None, &mut s_on).unwrap();

        let mut off = TinInterpreter::new();
        off.set_parallelization(false);
        let program = off.parse(code).unwrap();
        let mut s_off = vec![v.clone()];
        off.execute(&program, Option::None, &mut s_off).unwrap();

        assert_eq!(s_on, s_off, "paths disagree under {}", code);
    }
}

#[test]
fn window_size_below_one_is_rejected() {
    assert_eq!(
        run_err("0\u{229e}", vec![TinValue::IntVector(vec![1, 2])]),
        TinError::BadWindowSize
    );
}

#[test]
fn window_error_consumes_its_operands() {
    let mut stack = vec![
        TinValue::Int(9),
        TinValue::IntVector(vec![1, 2]),
        TinValue::Int(0),
    ];
    let r = tin::ops_index::op_window(&mut stack);
    assert_eq!(r.unwrap_err(), TinError::BadWindowSize);
    assert_eq!(stack, vec![TinValue::Int(9)]);
    let mut stack = vec![TinValue::Int(1), TinValue::Int(2)];
    let r = tin::ops_index::op_window(&mut stack);
    assert_eq!(r.unwrap_err(), TinError::NotIntAndVector);
    assert_eq!(stack, vec![]);
}

#[test]
fn parse_error_carries_the_unmatched_suffix() {
    let mut intrp = TinInterpreter::new();
    let err = intrp.parse("1 \u{2603}ab").unwrap_err();
    assert_eq!(err.rest, vec!['\u{2603}', 'a', 'b']);
}

#[test]
fn unicode_whitespace_is_layout() {
    let stack = run("1\u{a0}2+", vec![]);
    assert_eq!(stack, vec![TinValue::Int(3)]);
    let stack = run("1\u{3000}2\u{2009}+", vec![]);
    assert_eq!(stack, vec![TinValue::Int(3)]);
}

#[test]
fn zip_and_cartesian_shapes() {
    let a = TinValue::IntVector(vec![1, 2]);
    let b = TinValue::IntVector(vec![10, 20]);
    let stack = run("\u{2a1d}", vec![a.clone(), b.clone()]);
    assert_eq!(
        stack,
        vec![TinValue::Vector(vec![
            TinValue::IntVector(vec![1, 10]),
            TinValue::IntVector(vec![2, 20]),
        ])]
    );
    let stack = run("\u{2a2f}", vec![a, b]);
    match &stack[0] {
        TinValue::Vector(v) => assert_eq!(v.len(), 4),
        other => panic!("expected a general vector, got {}", other.to_string()),
    }
}
