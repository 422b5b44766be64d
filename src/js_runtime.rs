use vstd::prelude::*;
use std::rc::Rc;
use crate::js_ast::{Node, Program};

verus! {

/// A value of the interpreter, which knows only numbers.
#[derive(Debug, Clone, Copy, PartialEq, Eq, Structural)]
pub enum RuntimeValue {
    Number(u64),
}

impl RuntimeValue {
    /// The sum, or `None` when it does not fit.
    pub fn add(self, rhs: RuntimeValue) -> (r: Option<RuntimeValue>)
        ensures
            ({
                let (RuntimeValue::Number(a), RuntimeValue::Number(b)) = (self, rhs);
                r == if a + b <= u64::MAX {
                    Some(RuntimeValue::Number((a + b) as u64))
                } else {
                    None
                }
            }),
    {
        let RuntimeValue::Number(a) = self;
        let RuntimeValue::Number(b) = rhs;
        match a.checked_add(b) {
            Some(v) => Some(RuntimeValue::Number(v)),
            None => None,
        }
    }

    /// The difference, or `None` when it would be negative.
    pub fn sub(self, rhs: RuntimeValue) -> (r: Option<RuntimeValue>)
        ensures
            ({
                let (RuntimeValue::Number(a), RuntimeValue::Number(b)) = (self, rhs);
                r == if a >= b {
                    Some(RuntimeValue::Number((a - b) as u64))
                } else {
                    None
                }
            }),
    {
        let RuntimeValue::Number(a) = self;
        let RuntimeValue::Number(b) = rhs;
        if a >= b {
            Some(RuntimeValue::Number(a - b))
        } else {
            None
        }
    }
}

/// The value of a node: numbers, and sums and differences of values that stay within `u64`;
/// every other node has none.
pub open spec fn eval_node(n: Node) -> Option<u64>
    decreases n,
{
    match n {
        Node::ExpressionStatement(Some(e)) => eval_node(*e),
        Node::AdditiveExpression { operator, left: Some(l), right: Some(r) } => {
            match (eval_node(*l), eval_node(*r)) {
                (Some(a), Some(b)) => if operator == '+' {
                    if a + b <= u64::MAX {
                        Some((a + b) as u64)
                    } else {
                        None
                    }
                } else if operator == '-' {
                    if a >= b {
                        Some((a - b) as u64)
                    } else {
                        None
                    }
                } else {
                    None
                },
                _ => None,
            }
        },
        Node::NumericLiteral(v) => Some(v),
        _ => None,
    }
}

pub open spec fn eval_opt(n: Option<Rc<Node>>) -> Option<u64> {
    match n {
        Some(e) => eval_node(*e),
        None => None,
    }
}

/// The interpreter under the name it was first published with.
pub type JsRuuntime = JsRuntime;

/// A tree-walking interpreter.
#[derive(Debug, Clone)]
pub struct JsRuntime {}

impl JsRuntime {
    pub fn new() -> (r: Self) {
        Self {}
    }

    /// The value of `node`, or `None` when it has none.
    pub fn eval(&mut self, node: &Option<Rc<Node>>) -> (r: Option<RuntimeValue>)
        ensures
            r == match eval_opt(*node) {
                Some(v) => Some(RuntimeValue::Number(v)),
                None => None,
            },
        decreases *node,
    {
        let node = match node {
            Some(n) => n,
            None => return None,
        };
        match &**node {
            Node::ExpressionStatement(expr) => self.eval(expr),
            Node::AdditiveExpression { operator, left, right } => {
                let left_value = match self.eval(left) {
                    Some(value) => value,
                    None => return None,
                };
                let right_value = match self.eval(right) {
                    Some(value) => value,
                    None => return None,
                };
                if *operator == '+' {
                    left_value.add(right_value)
                } else if *operator == '-' {
                    left_value.sub(right_value)
                } else {
                    None
                }
            },
            Node::NumericLiteral(value) => Some(RuntimeValue::Number(*value)),
            _ => None,
        }
    }

    /// Evaluates the statements of `program` in order and gives each one's value.
    pub fn execute(&mut self, program: &Program) -> (r: Vec<Option<RuntimeValue>>)
        ensures
            r@.len() == program.body_view().len(),
            forall|i: int| 0 <= i < r@.len() ==> #[trigger] r@[i] == match eval_node(*program.body_view()[i]) {
                Some(v) => Some(RuntimeValue::Number(v)),
                None => None,
            },
    {
        let body = program.body();
        let mut results: Vec<Option<RuntimeValue>> = Vec::new();
        let mut i: usize = 0;
        while i < body.len()
            invariant
                body@ == program.body_view(),
                i <= body@.len(),
                results@.len() == i,
                forall|j: int| 0 <= j < i ==> #[trigger] results@[j] == match eval_node(*program.body_view()[j]) {
                    Some(v) => Some(RuntimeValue::Number(v)),
                    None => None,
                },
            decreases body@.len() - i,
        {
            let v = self.eval(&Some(body[i].clone()));
            results.push(v);
            i = i + 1;
        }
        results
    }
}

} // verus!
