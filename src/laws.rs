//! Laws of the generated code, stated over the models of plans and proved.
use vstd::prelude::*;
use crate::bindings::{bound_names, lemma_find_bound, BindingModel};
use crate::codegen::{
    accept_code, decl_code, expr_code, gen_code, loop_close, loop_open, projected_env, range_env, sum_env,
    ConsumerModel, MAX_RANGE_BOUND,
};
use crate::context::unique_name;
use crate::ir::{ErrorModel, ExprModel, NodeModel, ValueType};
use crate::module::compile_model;

verus! {

/// A range with `start < end` emits its consumer's code exactly once, as the
/// body of a loop that sets the counter `i` to `start` and branches back while
/// it stays below `end`; a range with `end <= start` emits no loop and none of
/// its consumer's code. Either way a field that the consumer reads and the
/// range does not bind is reported.
pub proof fn lemma_range_rows(start: nat, end: nat, c: ConsumerModel, n: nat)
    requires
        start <= MAX_RANGE_BOUND,
        end <= MAX_RANGE_BOUND,
    ensures
        ({
            let i = unique_name("i"@, n);
            let lp = unique_name("loop"@, n + 1);
            let head = ";; declare loop variable\n"@ + decl_code(i, ValueType::Int);
            let r = gen_code(NodeModel::Range(start, end), c, n);
            match accept_code(c, range_env(i)) {
                Err(x) => r == Err::<Seq<char>, ErrorModel>(ErrorModel::UnboundField(x)),
                Ok(body) => {
                    &&& start < end ==> r == Ok::<Seq<char>, ErrorModel>(
                        head + loop_open(i, lp, start) + body + loop_close(i, lp, end),
                    )
                    &&& end <= start ==> r == Ok::<Seq<char>, ErrorModel>(head)
                },
            }
        }),
{
}

/// The row that a projection hands to its consumer binds exactly the declared
/// output names, whatever the upstream row bound.
pub proof fn lemma_project_binds_outputs(
    exprs: Seq<ExprModel>,
    names: Seq<Seq<char>>,
    slots: Seq<Seq<char>>,
    then: ConsumerModel,
    upstream: Seq<BindingModel>,
)
    requires
        exprs.len() == names.len(),
        slots.len() == names.len(),
    ensures
        bound_names(projected_env(exprs, names, slots)) == names.to_set(),
        ({
            let c = ConsumerModel::Evaluate { exprs, names, slots, then: Box::new(then) };
            accept_code(c, upstream) is Ok ==> accept_code(then, projected_env(exprs, names, slots)) is Ok
        }),
{
    let env = projected_env(exprs, names, slots);
    assert forall|x: Seq<char>| bound_names(env).contains(x) <==> names.to_set().contains(x) by {
        if names.contains(x) {
            let k = choose|k: int| 0 <= k < names.len() && names[k] == x;
            assert(env[k].0 == x);
        }
        if bound_names(env).contains(x) {
            let k = choose|k: int| 0 <= k < env.len() && env[k].0 == x;
            assert(names[k] == x);
        }
    }
    assert(bound_names(env) =~= names.to_set());
}

/// A sum invokes its consumer exactly once, after all of its source's code,
/// with a row that binds `<field>_sum` to its accumulator and nothing else.
pub proof fn lemma_sum_once(src: NodeModel, field: Seq<char>, c: ConsumerModel, n: nat)
    ensures
        ({
            let acc = unique_name("sum"@, n);
            let head = ";; declare sum output\n"@ + decl_code(acc, ValueType::Int);
            let up = gen_code(src, ConsumerModel::Accumulate { acc, field }, n + 1);
            let down = accept_code(c, sum_env(field, acc));
            &&& gen_code(NodeModel::Sum(Box::new(src), field), c, n) is Ok <==> (up is Ok && down is Ok)
            &&& gen_code(NodeModel::Sum(Box::new(src), field), c, n) is Ok ==> gen_code(
                NodeModel::Sum(Box::new(src), field),
                c,
                n,
            )->Ok_0 == head + up->Ok_0 + down->Ok_0
            &&& bound_names(sum_env(field, acc)) == set![field + "_sum"@]
        }),
{
    let acc = unique_name("sum"@, n);
    let env = sum_env(field, acc);
    assert forall|x: Seq<char>| bound_names(env).contains(x) <==> set![field + "_sum"@].contains(x) by {
        if x == field + "_sum"@ {
            assert(env[0].0 == x);
        }
    }
    assert(bound_names(env) =~= set![field + "_sum"@]);
}

/// Reading a variable that the environment does not bind fails with that
/// name as the unbound field; it never yields code.
pub proof fn lemma_unbound_variable(x: Seq<char>, env: Seq<BindingModel>)
    requires
        !bound_names(env).contains(x),
    ensures
        expr_code(ExprModel::Variable(x), env) == Err::<Seq<char>, Seq<char>>(x),
{
    lemma_find_bound(env, x);
}

/// Compiling the same plan twice, each time from a fresh context, gives the
/// same module text or the same error.
pub proof fn lemma_compile_idempotent(a: NodeModel, b: NodeModel)
    requires
        a == b,
    ensures
        compile_model(a) == compile_model(b),
{
}

} // verus!
