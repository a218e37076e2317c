use complex_eval::eval::BinaryOp;
use complex_eval::eval::EvalError;
use complex_eval::eval::Evaluator;
use complex_eval::nodes::Expression;
use complex_eval::values::Value;

const FUEL: u64 = 100;

fn var(name: &str) -> Expression {
    Expression::Variable(name.to_string())
}

#[test]
fn evaluates_integer_literal() {
    let mut ev = Evaluator::new();
    let r = ev.evaluate_expression(Expression::Number(2, 1), FUEL);
    assert_eq!(r, Ok(vec![Value::ComplexNumber(2, 1, 0, 1)]));
}

#[test]
fn evaluates_imaginary_literal() {
    let mut ev = Evaluator::new();
    let r = ev.evaluate_expression(Expression::ImaginaryConstant, FUEL);
    assert_eq!(r, Ok(vec![Value::ComplexNumber(0, 1, 1, 1)]));
}

#[test]
fn evaluates_boolean_literal() {
    let mut ev = Evaluator::new();
    let r = ev.evaluate_expression(Expression::Boolean(true), FUEL);
    assert_eq!(r, Ok(vec![Value::Boolean(true)]));
}

#[test]
fn closure_evaluates_to_function_value_verbatim() {
    let mut ev = Evaluator::new();
    let body = Expression::Number(1, 2);
    let r = ev.evaluate_expression(
        Expression::Closure(Box::new(var("x")), Box::new(body)),
        FUEL,
    );
    assert_eq!(r, Ok(vec![Value::Function(var("x"), Expression::Number(1, 2))]));
}

#[test]
fn undefined_variable_evaluates_to_empty() {
    let mut ev = Evaluator::new();
    let r = ev.evaluate_expression(var("nope"), FUEL);
    assert_eq!(r, Ok(vec![]));
}

#[test]
fn define_then_reference() {
    let mut ev = Evaluator::new();
    let def = Expression::Define(Box::new(var("x")), Box::new(Expression::Number(5, 1)));
    let r = ev.evaluate_expression(def, FUEL);
    assert_eq!(r, Ok(vec![Value::ComplexNumber(5, 1, 0, 1)]));
    let r = ev.evaluate_expression(var("x"), FUEL);
    assert_eq!(r, Ok(vec![Value::ComplexNumber(5, 1, 0, 1)]));
}

#[test]
fn redefinition_in_same_frame_overwrites() {
    let mut ev = Evaluator::new();
    let def = Expression::Define(Box::new(var("x")), Box::new(Expression::Number(5, 1)));
    ev.evaluate_expression(def, FUEL).unwrap();
    let def = Expression::Define(Box::new(var("x")), Box::new(Expression::Number(7, 1)));
    ev.evaluate_expression(def, FUEL).unwrap();
    let r = ev.evaluate_expression(var("x"), FUEL);
    assert_eq!(r, Ok(vec![Value::ComplexNumber(7, 1, 0, 1)]));
}

#[test]
fn define_with_non_variable_target_still_yields_value() {
    let mut ev = Evaluator::new();
    let def = Expression::Define(
        Box::new(Expression::Number(1, 1)),
        Box::new(Expression::Number(2, 1)),
    );
    let r = ev.evaluate_expression(def, FUEL);
    assert_eq!(r, Ok(vec![Value::ComplexNumber(2, 1, 0, 1)]));
}

#[test]
fn definitions_are_reevaluated_on_every_reference() {
    let mut ev = Evaluator::new();
    // y is bound to the expression `x`, not to x's value at definition time.
    let def_y = Expression::Define(Box::new(var("y")), Box::new(var("x")));
    ev.evaluate_expression(def_y, FUEL).unwrap();
    let def_x = Expression::Define(Box::new(var("x")), Box::new(Expression::Number(3, 1)));
    ev.evaluate_expression(def_x, FUEL).unwrap();
    let r = ev.evaluate_expression(var("y"), FUEL);
    assert_eq!(r, Ok(vec![Value::ComplexNumber(3, 1, 0, 1)]));
}

#[test]
fn get_definition_reports_the_stored_expression() {
    let mut ev = Evaluator::new();
    assert_eq!(ev.get_definition("x".to_string()), None);
    let def = Expression::Define(Box::new(var("x")), Box::new(Expression::Number(5, 1)));
    ev.evaluate_expression(def, FUEL).unwrap();
    assert_eq!(ev.get_definition("x".to_string()), Some(Expression::Number(5, 1)));
}

#[test]
fn multiply_with_empty_left_operand_is_empty() {
    let mut ev = Evaluator::new();
    let e = Expression::Multiply(Box::new(var("nope")), Box::new(Expression::Number(2, 1)));
    let r = ev.evaluate_expression(e, FUEL);
    assert_eq!(r, Ok(vec![]));
}

#[test]
fn multiply_with_empty_right_operand_is_empty() {
    let mut ev = Evaluator::new();
    let e = Expression::Multiply(Box::new(Expression::Number(2, 1)), Box::new(var("nope")));
    let r = ev.evaluate_expression(e, FUEL);
    assert_eq!(r, Ok(vec![]));
}

#[test]
fn multiply_node_combines_values() {
    let mut ev = Evaluator::new();
    let e = Expression::Multiply(
        Box::new(Expression::Number(2, 1)),
        Box::new(Expression::ImaginaryConstant),
    );
    let r = ev.evaluate_expression(e, FUEL);
    assert_eq!(r, Ok(vec![Value::ComplexNumber(0, 1, 2, 1)]));
}

#[test]
fn add_node_combines_values() {
    let mut ev = Evaluator::new();
    let e = Expression::Add(
        Box::new(Expression::Number(1, 2)),
        Box::new(Expression::Number(1, 3)),
    );
    let r = ev.evaluate_expression(e, FUEL);
    assert_eq!(r, Ok(vec![Value::ComplexNumber(5, 6, 0, 6)]));
}

#[test]
fn add_node_with_boolean_operand_yields_fallback() {
    let mut ev = Evaluator::new();
    let e = Expression::Add(
        Box::new(Expression::Boolean(true)),
        Box::new(Expression::Number(1, 3)),
    );
    let r = ev.evaluate_expression(e, FUEL);
    assert_eq!(r, Ok(vec![Value::ComplexNumber(0, 1, 0, 1)]));
}

#[test]
fn self_referential_definition_exhausts_the_depth_limit() {
    let mut ev = Evaluator::new();
    let def = Expression::Define(Box::new(var("x")), Box::new(var("x")));
    let r = ev.evaluate_expression(def, FUEL);
    assert_eq!(r, Err(EvalError::DepthLimitExceeded));
}

#[test]
fn zero_fuel_is_a_depth_failure() {
    let mut ev = Evaluator::new();
    let r = ev.evaluate_expression(Expression::Number(2, 1), 0);
    assert_eq!(r, Err(EvalError::DepthLimitExceeded));
}

#[test]
fn overflowing_arithmetic_is_a_reported_failure() {
    let mut ev = Evaluator::new();
    let e = Expression::Multiply(
        Box::new(Expression::Number(i64::MAX, 1)),
        Box::new(Expression::Number(2, 1)),
    );
    let r = ev.evaluate_expression(e, FUEL);
    assert_eq!(r, Err(EvalError::ArithmeticOverflow));
}

#[test]
fn inner_scopes_shadow_outer_ones() {
    let mut ev = Evaluator::new();
    let def = Expression::Define(Box::new(var("x")), Box::new(Expression::Number(1, 1)));
    ev.evaluate_expression(def, FUEL).unwrap();
    ev.increase_scope();
    let def = Expression::Define(Box::new(var("x")), Box::new(Expression::Number(2, 1)));
    ev.evaluate_expression(def, FUEL).unwrap();
    let r = ev.evaluate_expression(var("x"), FUEL);
    assert_eq!(r, Ok(vec![Value::ComplexNumber(2, 1, 0, 1)]));
    ev.decrease_scope();
    let r = ev.evaluate_expression(var("x"), FUEL);
    assert_eq!(r, Ok(vec![Value::ComplexNumber(1, 1, 0, 1)]));
}

#[test]
fn the_global_frame_is_never_removed() {
    let mut ev = Evaluator::new();
    let def = Expression::Define(Box::new(var("x")), Box::new(Expression::Number(1, 1)));
    ev.evaluate_expression(def, FUEL).unwrap();
    ev.decrease_scope();
    ev.decrease_scope();
    let r = ev.evaluate_expression(var("x"), FUEL);
    assert_eq!(r, Ok(vec![Value::ComplexNumber(1, 1, 0, 1)]));
}

#[test]
fn eval2_applies_the_named_combinator() {
    let mut ev = Evaluator::new();
    let r = ev.eval2(
        BinaryOp::Add,
        Expression::Number(1, 2),
        Expression::Number(1, 3),
        FUEL,
    );
    assert_eq!(r, Ok(vec![Value::ComplexNumber(5, 6, 0, 6)]));
    let r = ev.eval2(
        BinaryOp::Multiply,
        Expression::Number(2, 1),
        Expression::ImaginaryConstant,
        FUEL,
    );
    assert_eq!(r, Ok(vec![Value::ComplexNumber(0, 1, 2, 1)]));
}
