//! The evaluator: a scope stack of binding frames and a recursive walk of
//! the abstract syntax tree.
//!
//! Every expression denotes a possibly-empty ordered sequence of values.
//! Definitions are stored unevaluated and re-evaluated on every lookup, so
//! evaluation is bounded by an explicit depth limit; exhausting it, like
//! arithmetic that leaves the machine word, is a reported failure rather
//! than a crash.

use crate::arith::ImaginaryDenominator;
use crate::arith::add_ok;
use crate::arith::add_vals;
use crate::arith::checked_add;
use crate::arith::checked_multiply;
use crate::arith::mul_ok;
use crate::arith::mul_vals;
use crate::nodes::Expression;
use crate::values::Value;
use vstd::prelude::*;

verus! {

/// Which arithmetic combinator a binary node applies.
#[derive(Clone, Copy, PartialEq, Eq, Structural, Debug)]
pub enum BinaryOp {
    Multiply,
    Add,
}

/// A reported evaluation failure. Both variants are resource exhaustion:
/// the recursion depth limit, or arithmetic that leaves the machine word.
#[derive(Clone, Copy, PartialEq, Eq, Structural, Debug)]
pub enum EvalError {
    DepthLimitExceeded,
    ArithmeticOverflow,
}

/// The abstract scope stack: outermost frame first, each frame an ordered
/// association of names to stored (unevaluated) expressions.
pub type Bindings = Seq<Seq<(String, Expression)>>;

/// The position of the first entry at or after `k` whose key reads as
/// `name`, or `-1` when there is none.
pub open spec fn frame_find(f: Seq<(String, Expression)>, name: Seq<char>, k: int) -> int
    decreases f.len() - k,
{
    if k < 0 || k >= f.len() {
        -1
    } else if f[k].0@ == name {
        k
    } else {
        frame_find(f, name, k + 1)
    }
}

/// The expression a frame binds `name` to, if any.
pub open spec fn frame_lookup(f: Seq<(String, Expression)>, name: Seq<char>) -> Option<
    Expression,
> {
    let i = frame_find(f, name, 0);
    if i == -1 {
        None
    } else {
        Some(f[i].1)
    }
}

/// The frame after binding `key` to `e`: the first entry whose key reads as
/// `key` is overwritten in place, or a new entry is appended.
pub open spec fn frame_insert(
    f: Seq<(String, Expression)>,
    key: String,
    e: Expression,
) -> Seq<(String, Expression)> {
    let i = frame_find(f, key@, 0);
    if i == -1 {
        f.push((key, e))
    } else {
        f.update(i, (f[i].0, e))
    }
}

/// The expression the scope stack binds `name` to, scanning frames
/// innermost (last) to outermost; the first match wins, so inner frames
/// shadow outer ones.
pub open spec fn scopes_lookup(st: Bindings, name: Seq<char>) -> Option<Expression>
    decreases st.len(),
{
    if st.len() == 0 {
        None
    } else {
        match frame_lookup(st.last(), name) {
            Some(e) => Some(e),
            None => scopes_lookup(st.drop_last(), name),
        }
    }
}

/// Whether the combinator for `op` can represent its result for this pair.
pub open spec fn apply_ok(op: BinaryOp, x: Value, y: Value) -> bool {
    match op {
        BinaryOp::Multiply => mul_ok(x, y),
        BinaryOp::Add => add_ok(x, y),
    }
}

/// The value the combinator for `op` returns for this pair, under the
/// historical imaginary-denominator mode.
pub open spec fn apply_vals(op: BinaryOp, x: Value, y: Value) -> Value {
    match op {
        BinaryOp::Multiply => mul_vals(x, y),
        BinaryOp::Add => add_vals(x, y, ImaginaryDenominator::SharedWithReal),
    }
}

/// The cartesian combination of two value sequences, left-major: element
/// `i * |ys| + j` combines `xs[i]` with `ys[j]`. `None` when any pair's
/// result is unrepresentable.
pub open spec fn combine(op: BinaryOp, xs: Seq<Value>, ys: Seq<Value>) -> Option<Seq<Value>> {
    if exists|i: int, j: int|
        0 <= i < xs.len() && 0 <= j < ys.len() && !(#[trigger] apply_ok(op, xs[i], ys[j])) {
        None
    } else {
        Some(
            Seq::new(
                (xs.len() * ys.len()) as nat,
                |k: int| apply_vals(op, xs[k / ys.len() as int], ys[k % ys.len() as int]),
            ),
        )
    }
}

/// What evaluating one expression yields: the scope stack it leaves behind,
/// and either the denoted value sequence or a reported failure.
///
/// `fuel` bounds the remaining recursion depth; every nested evaluation
/// consumes one unit. Per node: a `Number` or the imaginary constant is a
/// single complex value; a `Boolean` is itself; a `Closure` is a single
/// closure value, its body unevaluated; a `Variable` re-evaluates what the
/// scope stack binds it to, or denotes the empty sequence when unbound; a
/// `Define` binds its target name in the innermost frame (skipping the
/// binding silently when the target is not a variable) and then yields its
/// right-hand side's sequence either way; `Multiply` and `Add` combine
/// their operands' sequences as a cartesian product.
pub open spec fn spec_eval(st: Bindings, e: Expression, fuel: nat) -> (
    Bindings,
    Result<Seq<Value>, EvalError>,
)
    decreases fuel, 1int,
{
    if fuel == 0 {
        (st, Err(EvalError::DepthLimitExceeded))
    } else {
        match e {
            Expression::Define(l, r) => {
                let st1 = match *l {
                    Expression::Variable(name) => st.update(
                        st.len() - 1,
                        frame_insert(st.last(), name, *r),
                    ),
                    _ => st,
                };
                spec_eval(st1, *r, (fuel - 1) as nat)
            },
            Expression::Closure(p, b) => (st, Ok(seq![Value::Function(*p, *b)])),
            Expression::Multiply(x, y) => spec_eval_binary(st, BinaryOp::Multiply, *x, *y, fuel),
            Expression::Add(x, y) => spec_eval_binary(st, BinaryOp::Add, *x, *y, fuel),
            Expression::Number(n, d) => (st, Ok(seq![Value::ComplexNumber(n, d, 0, 1)])),
            Expression::ImaginaryConstant => (st, Ok(seq![Value::ComplexNumber(0, 1, 1, 1)])),
            Expression::Variable(name) => match scopes_lookup(st, name@) {
                Some(e2) => spec_eval(st, e2, (fuel - 1) as nat),
                None => (st, Ok(Seq::empty())),
            },
            Expression::Boolean(b) => (st, Ok(seq![Value::Boolean(b)])),
        }
    }
}

/// What evaluating a binary node yields: the left operand's sequence, then
/// the right operand's under the stack the left one left behind, then their
/// cartesian combination; the first failure wins.
pub open spec fn spec_eval_binary(
    st: Bindings,
    op: BinaryOp,
    x: Expression,
    y: Expression,
    fuel: nat,
) -> (Bindings, Result<Seq<Value>, EvalError>)
    decreases fuel, 0int,
{
    if fuel == 0 {
        (st, Err(EvalError::DepthLimitExceeded))
    } else {
        let (s1, rx) = spec_eval(st, x, (fuel - 1) as nat);
        match rx {
            Err(e) => (s1, Err(e)),
            Ok(xs) => {
                let (s2, ry) = spec_eval(s1, y, (fuel - 1) as nat);
                match ry {
                    Err(e) => (s2, Err(e)),
                    Ok(ys) => match combine(op, xs, ys) {
                        Some(vs) => (s2, Ok(vs)),
                        None => (s2, Err(EvalError::ArithmeticOverflow)),
                    },
                }
            },
        }
    }
}

/// Whether an executable result carries exactly the values or error an
/// abstract outcome names.
pub open spec fn result_corresponds(
    r: Result<Vec<Value>, EvalError>,
    res: Result<Seq<Value>, EvalError>,
) -> bool {
    match (r, res) {
        (Ok(v), Ok(s)) => v@ == s,
        (Err(e1), Err(e2)) => e1 == e2,
        _ => false,
    }
}

/// The evaluator: owns the scope stack of binding frames.
pub struct Evaluator {
    definitions: Vec<Vec<(String, Expression)>>,
}

impl Evaluator {
    /// The abstract scope stack this evaluator holds.
    pub closed spec fn stack(&self) -> Bindings {
        Seq::new(self.definitions@.len(), |i: int| self.definitions@[i]@)
    }

    /// The global frame is always present.
    pub open spec fn wf(&self) -> bool {
        self.stack().len() >= 1
    }

    /// A fresh evaluator: a single, empty global frame.
    pub fn new() -> (r: Evaluator)
        ensures
            r.wf(),
            r.stack().len() == 1,
            r.stack()[0].len() == 0,
    {
        Evaluator { definitions: vec![Vec::new()] }
    }

    /// Pushes a fresh, empty innermost frame.
    pub fn increase_scope(&mut self)
        requires
            old(self).wf(),
        ensures
            final(self).wf(),
            final(self).stack() =~= old(self).stack().push(Seq::empty()),
    {
        self.definitions.push(Vec::new());
    }

    /// Pops the innermost frame, except that the global frame is never
    /// removed: at the global frame this is a no-op.
    pub fn decrease_scope(&mut self)
        requires
            old(self).wf(),
        ensures
            final(self).wf(),
            old(self).stack().len() > 1 ==> final(self).stack() =~= old(
                self,
            ).stack().drop_last(),
            old(self).stack().len() == 1 ==> final(self).stack() == old(self).stack(),
    {
        if self.definitions.len() > 1 {
            let popped = self.definitions.pop();
            proof {
                assert(self.stack() =~= old(self).stack().drop_last());
            }
        }
    }

    /// Binds `name` to the unevaluated expression `e` in the innermost
    /// frame, overwriting any prior binding for `name` in that frame only.
    fn insert_definition(&mut self, name: String, e: Expression)
        requires
            old(self).wf(),
        ensures
            final(self).wf(),
            final(self).stack() =~= old(self).stack().update(
                old(self).stack().len() - 1,
                frame_insert(old(self).stack().last(), name, e),
            ),
    {
        let ghost st0 = self.stack();
        let mut frame = match self.definitions.pop() {
            Some(f) => f,
            None => vstd::pervasive::unreached(),
        };
        let ghost f0 = frame@;
        proof {
            assert(f0 == st0.last());
        }
        let n = frame.len();
        let mut k: usize = 0;
        let mut found = false;
        while k < n && !found
            invariant
                n == frame@.len(),
                frame@ == f0,
                k <= n,
                !found ==> frame_find(f0, name@, 0) == frame_find(f0, name@, k as int),
                found ==> k < n && frame_find(f0, name@, 0) == k as int,
            decreases n - k + (if found { 0int } else { 1int }),
        {
            if compare_names(&frame[k].0, &name) {
                found = true;
            } else {
                k = k + 1;
            }
        }
        if found {
            let pair = frame.remove(k);
            frame.insert(k, (pair.0, e));
            proof {
                assert(frame@ =~= frame_insert(f0, name, e));
            }
        } else {
            frame.push((name, e));
            proof {
                assert(frame_find(f0, name@, 0) == -1);
                assert(frame@ =~= frame_insert(f0, name, e));
            }
        }
        self.definitions.push(frame);
        proof {
            assert(self.stack() =~= st0.update(st0.len() - 1, frame_insert(st0.last(), name, e)));
        }
    }

    /// The expression currently bound to `name`, scanning frames innermost
    /// to outermost; `None` when no frame binds it.
    pub fn get_definition(&self, name: String) -> (r: Option<Expression>)
        ensures
            r == scopes_lookup(self.stack(), name@),
    {
        let ghost st = self.stack();
        let mut idx = self.definitions.len();
        proof {
            assert(st.take(self.definitions@.len() as int) =~= st);
        }
        while idx > 0
            invariant
                idx <= self.definitions@.len(),
                st == self.stack(),
                scopes_lookup(st, name@) == scopes_lookup(st.take(idx as int), name@),
            decreases idx,
        {
            idx = idx - 1;
            let ghost f = self.stack()[idx as int];
            let n = self.definitions[idx].len();
            let mut k: usize = 0;
            while k < n
                invariant
                    idx < self.definitions@.len(),
                    f == self.stack()[idx as int],
                    n == f.len(),
                    k <= n,
                    st == self.stack(),
                    scopes_lookup(st, name@) == scopes_lookup(st.take(idx + 1), name@),
                    frame_find(f, name@, 0) == frame_find(f, name@, k as int),
                decreases n - k,
            {
                if compare_names(&self.definitions[idx][k].0, &name) {
                    proof {
                        assert(frame_find(f, name@, 0) == k as int);
                        assert(st.take(idx + 1).last() == f);
                        assert(frame_lookup(f, name@) == Some(f[k as int].1));
                    }
                    return Some(self.definitions[idx][k].1.clone());
                }
                k = k + 1;
            }
            proof {
                assert(frame_find(f, name@, 0) == -1);
                assert(st.take(idx + 1).last() == f);
                assert(frame_lookup(f, name@) is None);
                assert(st.take(idx + 1).drop_last() =~= st.take(idx as int));
            }
        }
        proof {
            assert(st.take(0int).len() == 0);
        }
        None
    }

    /// Evaluates one expression against the current scope stack, with at
    /// most `fuel` levels of nested evaluation, and returns the ordered
    /// sequence of values it denotes — or the reported failure — exactly as
    /// `spec_eval` describes.
    pub fn evaluate_expression(&mut self, expr: Expression, fuel: u64) -> (r: Result<
        Vec<Value>,
        EvalError,
    >)
        requires
            old(self).wf(),
        ensures
            final(self).wf(),
            ({
                let (st, res) = spec_eval(old(self).stack(), expr, fuel as nat);
                final(self).stack() == st && result_corresponds(r, res)
            }),
        decreases fuel, 1int,
    {
        if fuel == 0 {
            return Err(EvalError::DepthLimitExceeded);
        }
        match expr {
            Expression::Define(l, r) => {
                if let Expression::Variable(name) = *l {
                    let stored = (*r).clone();
                    self.insert_definition(name, stored);
                }
                self.evaluate_expression(*r, fuel - 1)
            },
            Expression::Closure(p, b) => {
                let val = Value::Function(*p, *b);
                let ghost gv = val;
                let out = vec![val];
                proof {
                    assert(out@ =~= seq![gv]);
                }
                Ok(out)
            },
            Expression::Multiply(x, y) => self.eval2(BinaryOp::Multiply, *x, *y, fuel),
            Expression::Add(x, y) => self.eval2(BinaryOp::Add, *x, *y, fuel),
            Expression::Number(n, d) => {
                let out = vec![Value::ComplexNumber(n, d, 0, 1)];
                proof {
                    assert(out@ =~= seq![Value::ComplexNumber(n, d, 0, 1)]);
                }
                Ok(out)
            },
            Expression::ImaginaryConstant => {
                let out = vec![Value::ComplexNumber(0, 1, 1, 1)];
                proof {
                    assert(out@ =~= seq![Value::ComplexNumber(0, 1, 1, 1)]);
                }
                Ok(out)
            },
            Expression::Variable(name) => {
                match self.get_definition(name) {
                    Some(e2) => self.evaluate_expression(e2, fuel - 1),
                    None => Ok(Vec::new()),
                }
            },
            Expression::Boolean(b) => {
                let out = vec![Value::Boolean(b)];
                proof {
                    assert(out@ =~= seq![Value::Boolean(b)]);
                }
                Ok(out)
            },
        }
    }

    /// Evaluates the two operands of a binary node in order and combines
    /// their value sequences as a left-major cartesian product under the
    /// combinator for `op`.
    pub fn eval2(&mut self, op: BinaryOp, x: Expression, y: Expression, fuel: u64) -> (r: Result<
        Vec<Value>,
        EvalError,
    >)
        requires
            old(self).wf(),
            fuel >= 1,
        ensures
            final(self).wf(),
            ({
                let (st, res) = spec_eval_binary(old(self).stack(), op, x, y, fuel as nat);
                final(self).stack() == st && result_corresponds(r, res)
            }),
        decreases fuel, 0int,
    {
        let xs = match self.evaluate_expression(x, fuel - 1) {
            Ok(v) => v,
            Err(e) => { return Err(e); },
        };
        let ys = match self.evaluate_expression(y, fuel - 1) {
            Ok(v) => v,
            Err(e) => { return Err(e); },
        };
        let ghost s2 = self.stack();
        let m = ys.len();
        let mut values: Vec<Value> = Vec::new();
        let mut i: usize = 0;
        #[verifier::loop_isolation(false)]
        while i < xs.len()
            invariant
                self.wf(),
                self.stack() == s2,
                m == ys@.len(),
                i <= xs@.len(),
                values@.len() == i * m,
                forall|k: int|
                    0 <= k < values@.len() ==> ((#[trigger] values@[k]) == apply_vals(
                        op,
                        xs@[k / m as int],
                        ys@[k % m as int],
                    ) && apply_ok(op, xs@[k / m as int], ys@[k % m as int])),
            decreases xs@.len() - i,
        {
            let mut j: usize = 0;
            #[verifier::loop_isolation(false)]
            while j < m
                invariant
                    self.wf(),
                    self.stack() == s2,
                    m == ys@.len(),
                    i < xs@.len(),
                    j <= m,
                    values@.len() == i * m + j,
                    forall|k: int|
                        0 <= k < values@.len() ==> ((#[trigger] values@[k]) == apply_vals(
                            op,
                            xs@[k / m as int],
                            ys@[k % m as int],
                        ) && apply_ok(op, xs@[k / m as int], ys@[k % m as int])),
                decreases m - j,
            {
                match apply_checked(op, &xs[i], &ys[j]) {
                    Some(v) => {
                        proof {
                            vstd::arithmetic::div_mod::lemma_fundamental_div_mod_converse(
                                i * (m as int) + j,
                                m as int,
                                i as int,
                                j as int,
                            );
                        }
                        values.push(v);
                    },
                    None => {
                        proof {
                            assert(!apply_ok(op, xs@[i as int], ys@[j as int]));
                            assert(combine(op, xs@, ys@) is None);
                            let stb = old(self).stack();
                            let (s1, rx) = spec_eval(stb, x, (fuel - 1) as nat);
                            let (s2b, ry) = spec_eval(s1, y, (fuel - 1) as nat);
                            assert(rx == Ok::<Seq<Value>, EvalError>(xs@));
                            assert(ry == Ok::<Seq<Value>, EvalError>(ys@));
                            assert(spec_eval_binary(stb, op, x, y, fuel as nat) == (
                                s2b,
                                Err::<Seq<Value>, EvalError>(EvalError::ArithmeticOverflow),
                            ));
                        }
                        return Err(EvalError::ArithmeticOverflow);
                    },
                }
                j = j + 1;
            }
            i = i + 1;
            proof {
                assert(i * m == (i - 1) * m + m) by (nonlinear_arith);
            }
        }
        proof {
            assert forall|i0: int, j0: int|
                0 <= i0 < xs@.len() && 0 <= j0 < ys@.len() implies #[trigger] apply_ok(
                op,
                xs@[i0],
                ys@[j0],
            ) by {
                let k0 = i0 * (m as int) + j0;
                assert(0 <= k0 < xs@.len() * (m as int)) by (nonlinear_arith)
                    requires
                        0 <= i0 < xs@.len(),
                        0 <= j0 < m as int,
                        k0 == i0 * (m as int) + j0,
                ;
                vstd::arithmetic::div_mod::lemma_fundamental_div_mod_converse(
                    k0,
                    m as int,
                    i0,
                    j0,
                );
                assert(values@[k0] == apply_vals(op, xs@[k0 / m as int], ys@[k0 % m as int]));
            }
            let vs = combine(op, xs@, ys@).unwrap();
            assert(vs =~= values@);
        }
        Ok(values)
    }
}

/// Referencing a name no frame binds denotes the empty sequence, leaves
/// the scope stack unchanged, and is no error.
pub proof fn lemma_undefined_name_denotes_empty(st: Bindings, name: String, fuel: nat)
    requires
        fuel >= 1,
        scopes_lookup(st, name@) is None,
    ensures
        spec_eval(st, Expression::Variable(name), fuel) == (
            st,
            Ok::<Seq<Value>, EvalError>(Seq::<Value>::empty()),
        ),
{
}

/// Scanning for a name sees only the keys, not the stored expressions.
proof fn lemma_find_same_keys(
    f: Seq<(String, Expression)>,
    f2: Seq<(String, Expression)>,
    name: Seq<char>,
    k: int,
)
    requires
        f.len() == f2.len(),
        forall|j: int| 0 <= j < f.len() ==> (#[trigger] f[j]).0@ == f2[j].0@,
    ensures
        frame_find(f, name, k) == frame_find(f2, name, k),
    decreases f.len() - k,
{
    if 0 <= k < f.len() {
        lemma_find_same_keys(f, f2, name, k + 1);
    }
}

/// Appending an entry leaves every earlier match in place and is found
/// exactly when nothing earlier matched.
proof fn lemma_find_push(
    f: Seq<(String, Expression)>,
    p: (String, Expression),
    name: Seq<char>,
    k: int,
)
    requires
        0 <= k <= f.len(),
    ensures
        frame_find(f.push(p), name, k) == if frame_find(f, name, k) != -1 {
            frame_find(f, name, k)
        } else if p.0@ == name {
            f.len() as int
        } else {
            -1
        },
    decreases f.len() - k,
{
    assert(f.push(p).len() == f.len() + 1);
    if k < f.len() {
        assert(f.push(p)[k] == f[k]);
        lemma_find_push(f, p, name, k + 1);
    } else {
        assert(f.push(p)[k] == p);
        assert(frame_find(f.push(p), name, k + 1) == -1);
        assert(frame_find(f, name, k) == -1);
    }
}

/// A successful scan returns an index in range whose key reads as the
/// name sought.
proof fn lemma_find_props(f: Seq<(String, Expression)>, name: Seq<char>, k: int)
    requires
        0 <= k,
    ensures
        ({
            let i = frame_find(f, name, k);
            i == -1 || (k <= i < f.len() && f[i].0@ == name)
        }),
    decreases f.len() - k,
{
    if k < f.len() && f[k].0@ != name {
        lemma_find_props(f, name, k + 1);
    }
}

/// Binding a key and then looking a name up: the bound key now reads to
/// the new expression — a later binding overwrites an earlier one — and
/// every other name reads as before.
pub proof fn lemma_frame_insert_lookup(
    f: Seq<(String, Expression)>,
    key: String,
    e: Expression,
    name: Seq<char>,
)
    ensures
        frame_lookup(frame_insert(f, key, e), name) == if name == key@ {
            Some(e)
        } else {
            frame_lookup(f, name)
        },
{
    let i = frame_find(f, key@, 0);
    lemma_find_props(f, key@, 0);
    lemma_find_props(f, name, 0);
    if i == -1 {
        let f2 = f.push((key, e));
        lemma_find_push(f, (key, e), name, 0);
        if name == key@ {
            assert(frame_find(f2, name, 0) == f.len() as int);
            assert(f2[f.len() as int].1 == e);
        }
    } else {
        let f2 = f.update(i, (f[i].0, e));
        assert forall|j: int| 0 <= j < f.len() implies (#[trigger] f[j]).0@ == f2[j].0@ by {
            if j == i {
                assert(f2[j].0 == f[i].0);
            } else {
                assert(f2[j] == f[j]);
            }
        }
        lemma_find_same_keys(f, f2, name, 0);
        lemma_find_props(f2, name, 0);
        if name == key@ {
            assert(frame_find(f2, name, 0) == i);
            assert(f2[i].1 == e);
        } else {
            let j = frame_find(f, name, 0);
            if j != -1 {
                assert(j != i);
                assert(f2[j].1 == f[j].1);
            }
        }
    }
}

/// Binding a name in the innermost frame makes the whole stack read that
/// name to the new expression, and changes no other name's resolution.
pub proof fn lemma_scopes_insert_lookup(st: Bindings, name: String, e: Expression, m: Seq<char>)
    requires
        st.len() >= 1,
    ensures
        scopes_lookup(st.update(st.len() - 1, frame_insert(st.last(), name, e)), m)
            == if m == name@ {
            Some(e)
        } else {
            scopes_lookup(st, m)
        },
{
    let st2 = st.update(st.len() - 1, frame_insert(st.last(), name, e));
    assert(st2.last() == frame_insert(st.last(), name, e));
    lemma_frame_insert_lookup(st.last(), name, e, m);
    assert(st2.drop_last() =~= st.drop_last());
}

/// A binary node whose left operand denotes the empty sequence denotes the
/// empty sequence itself, whatever values its right operand denotes.
pub proof fn lemma_empty_left_operand(
    st: Bindings,
    op: BinaryOp,
    x: Expression,
    y: Expression,
    fuel: nat,
)
    requires
        fuel >= 1,
        spec_eval(st, x, (fuel - 1) as nat).1 == Ok::<Seq<Value>, EvalError>(
            Seq::<Value>::empty(),
        ),
        spec_eval(spec_eval(st, x, (fuel - 1) as nat).0, y, (fuel - 1) as nat).1 is Ok,
    ensures
        spec_eval_binary(st, op, x, y, fuel) == (
            spec_eval(spec_eval(st, x, (fuel - 1) as nat).0, y, (fuel - 1) as nat).0,
            Ok::<Seq<Value>, EvalError>(Seq::<Value>::empty()),
        ),
{
    let s1 = spec_eval(st, x, (fuel - 1) as nat).0;
    let ys = spec_eval(s1, y, (fuel - 1) as nat).1->Ok_0;
    assert(combine(op, Seq::<Value>::empty(), ys) == Some(Seq::<Value>::empty())) by {
        assert(Seq::new((Seq::<Value>::empty().len() * ys.len()) as nat, |k: int|
            apply_vals(op, Seq::<Value>::empty()[k / ys.len() as int], ys[k % ys.len() as int]))
            =~= Seq::<Value>::empty());
    }
}

/// The multiplication node in particular: an empty left operand yields an
/// empty result regardless of the right operand's values.
pub proof fn lemma_multiply_empty_left(st: Bindings, x: Expression, y: Expression, fuel: nat)
    requires
        fuel >= 1,
        spec_eval(st, x, (fuel - 1) as nat).1 == Ok::<Seq<Value>, EvalError>(
            Seq::<Value>::empty(),
        ),
        spec_eval(spec_eval(st, x, (fuel - 1) as nat).0, y, (fuel - 1) as nat).1 is Ok,
    ensures
        spec_eval(st, Expression::Multiply(Box::new(x), Box::new(y)), fuel) == (
            spec_eval(spec_eval(st, x, (fuel - 1) as nat).0, y, (fuel - 1) as nat).0,
            Ok::<Seq<Value>, EvalError>(Seq::<Value>::empty()),
        ),
{
    lemma_empty_left_operand(st, BinaryOp::Multiply, x, y, fuel);
}

/// Whether two names read the same.
fn compare_names(a: &String, b: &String) -> (r: bool)
    ensures
        r == (a@ == b@),
{
    *a == *b
}

/// The checked combinator for `op`: its value when representable, `None`
/// otherwise.
fn apply_checked(op: BinaryOp, x: &Value, y: &Value) -> (r: Option<Value>)
    ensures
        apply_ok(op, *x, *y) ==> r == Some(apply_vals(op, *x, *y)),
        !apply_ok(op, *x, *y) ==> r is None,
{
    match op {
        BinaryOp::Multiply => checked_multiply(x, y),
        BinaryOp::Add => checked_add(x, y),
    }
}

} // verus!

