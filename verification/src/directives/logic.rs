//! Logic directives: the empty string is false, anything else is true.

use vstd::prelude::*;
use crate::directives::{all_literal, consume_string, literal_text};
use crate::evaluator::Worker;
use crate::parse::{Node, NodeValue};

verus! {

/// Evaluates its second or third argument depending on the first.
pub struct If;

/// True (the string `true`) exactly when its argument is empty.
pub struct Not;

/// True when every argument evaluates to the same string as the first.
pub struct Equals;

/// The negation of [`Equals`].
pub struct NotEquals;

impl If {
    /// `(if COND THEN)` or `(if COND THEN ELSE)`: evaluates `THEN` when
    /// `COND` is non-empty, otherwise `ELSE` (or nothing).
    pub fn handle(&self, worker: &mut Worker, args: &[Node], fuel: u32) -> (r: Result<
        String,
        (),
    >)
        requires
            old(worker).wf(),
        ensures
            final(worker).wf(),
            args@.len() < 2 || args@.len() > 3 ==> r is Err,
            args@.len() >= 2 && args@.len() <= 3 && all_literal(args@) ==> (r matches Ok(s)
                && (literal_text(args@[0]).len() > 0 ==> s@ == literal_text(args@[1])) && (
            literal_text(args@[0]).len() == 0 && args@.len() == 3 ==> s@ == literal_text(
                args@[2],
            )) && (literal_text(args@[0]).len() == 0 && args@.len() == 2 ==> s@ == Seq::<
                char,
            >::empty()) && *final(worker) == *old(worker)),
        decreases fuel, 1int,
    {
        if args.len() < 2 || args.len() > 3 {
            return Err(());
        }
        let condition = match consume_string(worker, args, 0, fuel) {
            Some(s) => s,
            None => {
                return Err(());
            },
        };
        if condition.as_str().is_empty() {
            if args.len() == 3 {
                match consume_string(worker, args, 2, fuel) {
                    Some(s) => Ok(s),
                    None => Err(()),
                }
            } else {
                Ok(String::new())
            }
        } else {
            match consume_string(worker, args, 1, fuel) {
                Some(s) => Ok(s),
                None => Err(()),
            }
        }
    }
}

impl Not {
    /// `true` when the single argument evaluates empty, empty otherwise.
    pub fn handle(&self, worker: &mut Worker, args: &[Node], fuel: u32) -> (r: Result<
        String,
        (),
    >)
        requires
            old(worker).wf(),
        ensures
            final(worker).wf(),
            args@.len() != 1 ==> r is Err && *final(worker) == *old(worker),
            args@[0].value matches NodeValue::Owned(v) ==> (args@.len() == 1 ==> (r matches Ok(
                s,
            ) && s@ == (if v@.len() == 0 {
                "true"@
            } else {
                Seq::<char>::empty()
            }) && *final(worker) == *old(worker))),
        decreases fuel, 1int,
    {
        if args.len() != 1 {
            return Err(());
        }
        let value = match consume_string(worker, args, 0, fuel) {
            Some(s) => s,
            None => {
                return Err(());
            },
        };
        if value.as_str().is_empty() {
            Ok(String::from_str("true"))
        } else {
            Ok(String::new())
        }
    }
}

/// Whether every literal argument from index 1 on has the same text as
/// the first.
pub open spec fn spec_all_equal(args: Seq<Node>) -> bool {
    forall|i: int| 1 <= i < args.len() ==> literal_text(#[trigger] args[i]) == literal_text(
        args[0],
    )
}

impl Equals {
    /// `true` when every further argument equals the first, empty
    /// otherwise; evaluation stops at the first mismatch. Fewer than two
    /// arguments is an error.
    pub fn handle(&self, worker: &mut Worker, args: &[Node], fuel: u32) -> (r: Result<
        String,
        (),
    >)
        requires
            old(worker).wf(),
        ensures
            final(worker).wf(),
            args@.len() < 2 ==> r is Err && *final(worker) == *old(worker),
            args@.len() >= 2 && all_literal(args@) ==> (r matches Ok(s) && s@ == if spec_all_equal(
                args@,
            ) {
                "true"@
            } else {
                Seq::<char>::empty()
            } && *final(worker) == *old(worker)),
        decreases fuel, 1int,
    {
        if args.len() < 2 {
            return Err(());
        }
        let initial = match consume_string(worker, args, 0, fuel) {
            Some(s) => s,
            None => {
                return Err(());
            },
        };
        let mut is_true = true;
        let mut i: usize = 1;
        while is_true && i < args.len()
            invariant
                old(worker).wf(),
                worker.wf(),
                1 <= i <= args@.len(),
                args@.len() >= 1,
                all_literal(args@) ==> {
                    &&& *worker == *old(worker)
                    &&& args@[0].value matches NodeValue::Owned(f) && initial@ == f@
                    &&& is_true == forall|j: int|
                        1 <= j < i ==> literal_text(#[trigger] args@[j]) == literal_text(args@[0])
                    &&& (!is_true ==> !spec_all_equal(args@))
                },
            decreases args@.len() - i,
        {
            proof {
                if all_literal(args@) {
                    assert(args@[i as int].value matches NodeValue::Owned(_));
                }
            }
            let v: String = match &args[i].value {
                NodeValue::Owned(s) => s.clone(),
                NodeValue::Children(_) => {
                    if fuel == 0 {
                        String::new()
                    } else {
                        worker.evaluate(&args[i], fuel - 1)
                    }
                },
            };
            if !(initial == v) {
                is_true = false;
            }
            i += 1;
        }
        if is_true {
            Ok(String::from_str("true"))
        } else {
            Ok(String::new())
        }
    }
}

impl NotEquals {
    /// `true` exactly where [`Equals`] gives the empty string.
    pub fn handle(&self, worker: &mut Worker, args: &[Node], fuel: u32) -> (r: Result<
        String,
        (),
    >)
        requires
            old(worker).wf(),
        ensures
            final(worker).wf(),
            args@.len() < 2 ==> r is Err,
            args@.len() >= 2 && all_literal(args@) ==> (r matches Ok(s) && s@
                == if spec_all_equal(args@) {
                Seq::<char>::empty()
            } else {
                "true"@
            } && *final(worker) == *old(worker)),
        decreases fuel, 2int,
    {
        let equals = Equals;
        let result = match equals.handle(worker, args, fuel) {
            Ok(s) => s,
            Err(_) => {
                return Err(());
            },
        };
        if result.as_str().is_empty() {
            Ok(String::from_str("true"))
        } else {
            Ok(String::new())
        }
    }
}

} // verus!
