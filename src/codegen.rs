//! Code generation: scalar expressions, continuations (what an operator does
//! with each row its source produces), and operators.
use vstd::prelude::*;
use crate::bindings::{find, lemma_find_bound, BindingModel, VariableMapping};
use crate::context::{
    extends, lemma_extends_append, lemma_extends_refl, lemma_extends_trans, unique_name, GenContext,
};
use crate::ir::{
    expr_type, exprs_model, primitive_name, strings_model, CodegenError, ErrorModel, Expr, ExprModel,
    int_meta, lemma_exprs_model_push, lemma_strings_model_push, NodeModel, Node, ValueMetadata, ValueType,
};
use crate::text::{decimal, decimal_string};

verus! {

/// Reads a local onto the evaluation stack.
pub open spec fn get_code(slot: Seq<char>) -> Seq<char> {
    "(local.get $"@ + slot + ")\n"@
}

/// Pops the evaluation stack into a local.
pub open spec fn set_code(slot: Seq<char>) -> Seq<char> {
    "(local.set $"@ + slot + ")\n"@
}

/// Declares a local of type `t`.
pub open spec fn decl_code(slot: Seq<char>, t: ValueType) -> Seq<char> {
    "(local $"@ + slot + " "@ + primitive_name(t) + ")\n"@
}

/// The code of an expression under `env`, or the first name it reads that
/// `env` does not bind (left to right).
pub open spec fn expr_code(e: ExprModel, env: Seq<BindingModel>) -> Result<Seq<char>, Seq<char>>
    decreases e,
{
    match e {
        ExprModel::Variable(x) => match find(env, x) {
            Some(k) => Ok(";; load variable\n"@ + get_code(env[k].1)),
            None => Err(x),
        },
        ExprModel::Add(l, r) => match expr_code(*l, env) {
            Err(x) => Err(x),
            Ok(a) => match expr_code(*r, env) {
                Err(x) => Err(x),
                Ok(b) => Ok(";; add\n"@ + a + b + "(i32.add)\n"@),
            },
        },
    }
}

/// Emits a read of the local `slot`.
pub fn emit_get(ctx: &mut GenContext, slot: &String)
    ensures
        final(ctx).buffer@ == old(ctx).buffer@ + get_code(slot@),
        final(ctx).unique_name_number == old(ctx).unique_name_number,
{
    ctx.emit("(local.get $");
    ctx.emit(slot.as_str());
    ctx.emit(")\n");
    assert(final(ctx).buffer@ =~= old(ctx).buffer@ + get_code(slot@));
}

/// Emits a write of the local `slot`.
pub fn emit_set(ctx: &mut GenContext, slot: &String)
    ensures
        final(ctx).buffer@ == old(ctx).buffer@ + set_code(slot@),
        final(ctx).unique_name_number == old(ctx).unique_name_number,
{
    ctx.emit("(local.set $");
    ctx.emit(slot.as_str());
    ctx.emit(")\n");
    assert(final(ctx).buffer@ =~= old(ctx).buffer@ + set_code(slot@));
}

/// Emits the declaration of the local `slot`, of type `t`.
pub fn emit_decl(ctx: &mut GenContext, slot: &String, t: ValueType)
    ensures
        final(ctx).buffer@ == old(ctx).buffer@ + decl_code(slot@, t),
        final(ctx).unique_name_number == old(ctx).unique_name_number,
{
    ctx.emit("(local $");
    ctx.emit(slot.as_str());
    ctx.emit(" ");
    let tn = t.primitive_type_name();
    ctx.emit(tn.as_str());
    ctx.emit(")\n");
    assert(final(ctx).buffer@ =~= old(ctx).buffer@ + decl_code(slot@, t));
}

impl Expr {
    /// Emits code that leaves the expression's value on the evaluation stack.
    pub fn generate(&self, ctx: &mut GenContext, env: &VariableMapping) -> (r: Result<(), CodegenError>)
        ensures
            final(ctx).unique_name_number == old(ctx).unique_name_number,
            extends(final(ctx).buffer@, old(ctx).buffer@),
            match expr_code(self@, env@) {
                Ok(c) => r is Ok && final(ctx).buffer@ == old(ctx).buffer@ + c,
                Err(x) => r is Err && r->Err_0@ == ErrorModel::UnboundField(x),
            },
        decreases self,
    {
        match self {
            Expr::Variable(name) => {
                proof {
                    lemma_find_bound(env@, name@);
                }
                match env.get(name) {
                    Some(k) => {
                        ctx.emit(";; load variable\n");
                        emit_get(ctx, &env.entries[k].slot);
                        assert(final(ctx).buffer@ =~= old(ctx).buffer@ + (";; load variable\n"@
                            + get_code(env@[k as int].1)));
                        assert(self@ == ExprModel::Variable(name@));
                        assert(find(env@, name@) == Some(k as int));
                        assert(expr_code(self@, env@) == Ok::<Seq<char>, Seq<char>>(";; load variable\n"@ + get_code(env@[k as int].1)));
                        proof {
                            lemma_extends_append(old(ctx).buffer@, expr_code(self@, env@)->Ok_0);
                        }
                        Ok(())
                    },
                    None => {
                        assert(expr_code(self@, env@) == Err::<Seq<char>, Seq<char>>(name@));
                        proof {
                            lemma_extends_refl(ctx.buffer@);
                        }
                        Err(CodegenError::UnboundField(name.clone()))
                    },
                }
            },
            Expr::Add(lhs, rhs) => {
                ctx.emit(";; add\n");
                let ghost b1 = ctx.buffer@;
                proof {
                    lemma_extends_append(old(ctx).buffer@, ";; add\n"@);
                }
                match lhs.generate(ctx, env) {
                    Err(e) => {
                        proof {
                            lemma_extends_trans(old(ctx).buffer@, b1, ctx.buffer@);
                        }
                        return Err(e);
                    },
                    Ok(()) => {},
                }
                let ghost b2 = ctx.buffer@;
                proof {
                    lemma_extends_trans(old(ctx).buffer@, b1, b2);
                }
                match rhs.generate(ctx, env) {
                    Err(e) => {
                        proof {
                            lemma_extends_trans(old(ctx).buffer@, b2, ctx.buffer@);
                        }
                        return Err(e);
                    },
                    Ok(()) => {},
                }
                ctx.emit("(i32.add)\n");
                assert(final(ctx).buffer@ =~= old(ctx).buffer@ + (";; add\n"@ + expr_code(lhs@, env@)->Ok_0
                    + expr_code(rhs@, env@)->Ok_0 + "(i32.add)\n"@));
                proof {
                    lemma_extends_append(old(ctx).buffer@, expr_code(self@, env@)->Ok_0);
                }
                Ok(())
            },
        }
    }
}

/// What an operator does with each row that its source produces: the
/// continuation handed down to the source, as data.
pub enum Consumer {
    /// Does nothing with a row.
    Discard,
    /// Evaluates `exprs[k]` into the local `slots[k]`, for each `k`, then hands
    /// a row that binds `names[k]` to `slots[k]` to `then`.
    Evaluate { exprs: Vec<Expr>, names: Vec<String>, slots: Vec<String>, then: Box<Consumer> },
    /// Adds `field` into the local `acc`.
    Accumulate { acc: String, field: String },
    /// Stores `field` at the write position `ptr` (plus `offset` bytes) of the
    /// output memory and advances `ptr`.
    Store { ptr: String, field: String, offset: usize },
}

/// The model of a continuation.
pub enum ConsumerModel {
    Discard,
    Evaluate {
        exprs: Seq<ExprModel>,
        names: Seq<Seq<char>>,
        slots: Seq<Seq<char>>,
        then: Box<ConsumerModel>,
    },
    Accumulate { acc: Seq<char>, field: Seq<char> },
    Store { ptr: Seq<char>, field: Seq<char>, offset: nat },
}

impl Consumer {
    pub open spec fn model(&self) -> ConsumerModel
        decreases self,
    {
        match self {
            Consumer::Discard => ConsumerModel::Discard,
            Consumer::Evaluate { exprs, names, slots, then } => ConsumerModel::Evaluate {
                exprs: exprs_model(exprs@),
                names: strings_model(names@),
                slots: strings_model(slots@),
                then: Box::new(then.model()),
            },
            Consumer::Accumulate { acc, field } => ConsumerModel::Accumulate { acc: acc@, field: field@ },
            Consumer::Store { ptr, field, offset } => ConsumerModel::Store {
                ptr: ptr@,
                field: field@,
                offset: *offset as nat,
            },
        }
    }
}

impl View for Consumer {
    type V = ConsumerModel;

    open spec fn view(&self) -> ConsumerModel {
        self.model()
    }
}

/// An `Evaluate` frame has one expression and one local per name, all the way down.
pub open spec fn consumer_wf(c: ConsumerModel) -> bool
    decreases c,
{
    match c {
        ConsumerModel::Evaluate { exprs, names, slots, then } => exprs.len() == names.len()
            && slots.len() == names.len() && consumer_wf(*then),
        _ => true,
    }
}

/// The row that an `Evaluate` frame hands on: exactly the declared names. A
/// name declared twice is read from its last local, as `find` resolves it.
pub open spec fn projected_env(exprs: Seq<ExprModel>, names: Seq<Seq<char>>, slots: Seq<Seq<char>>) -> Seq<
    BindingModel,
> {
    Seq::new(
        names.len(),
        |k: int| (names[k], slots[k], ValueMetadata { value_type: expr_type(exprs[k]), nullable: false }),
    )
}

/// The code that evaluates the first `k` expressions of an `Evaluate` frame
/// into their locals, or the first unbound name read.
pub open spec fn evaluate_code(
    exprs: Seq<ExprModel>,
    names: Seq<Seq<char>>,
    slots: Seq<Seq<char>>,
    env: Seq<BindingModel>,
    k: nat,
) -> Result<Seq<char>, Seq<char>>
    decreases k,
{
    if k == 0 {
        Ok(Seq::empty())
    } else {
        match evaluate_code(exprs, names, slots, env, (k - 1) as nat) {
            Err(x) => Err(x),
            Ok(a) => match expr_code(exprs[k - 1], env) {
                Err(x) => Err(x),
                Ok(b) => Ok(a + (";; evaluate "@ + names[k - 1] + "\n"@) + b + set_code(slots[k - 1])),
            },
        }
    }
}

/// Once the evaluation of a prefix fails, every longer prefix fails alike.
pub proof fn lemma_evaluate_err(
    exprs: Seq<ExprModel>,
    names: Seq<Seq<char>>,
    slots: Seq<Seq<char>>,
    env: Seq<BindingModel>,
    j: nat,
    k: nat,
)
    requires
        j <= k,
        evaluate_code(exprs, names, slots, env, j) is Err,
    ensures
        evaluate_code(exprs, names, slots, env, k) == evaluate_code(exprs, names, slots, env, j),
    decreases k - j,
{
    if j < k {
        lemma_evaluate_err(exprs, names, slots, env, j, (k - 1) as nat);
    }
}

/// Adds the field of a row into an accumulator.
pub open spec fn accumulate_code(acc: Seq<char>, field_slot: Seq<char>) -> Seq<char> {
    ";; add to sum\n"@ + get_code(acc) + get_code(field_slot) + "(i32.add)\n"@ + set_code(acc)
}

/// Stores the field of a row at the write position and advances the position
/// by the width of one integer.
pub open spec fn store_code(ptr: Seq<char>, field_slot: Seq<char>, offset: nat) -> Seq<char> {
    ";; store output\n"@ + get_code(ptr) + get_code(field_slot) + ("(i32.store 1 offset="@
        + decimal(offset) + ")\n"@) + (";; update output pointer\n"@ + get_code(ptr)
        + "(i32.const 4)\n(i32.add)\n"@ + set_code(ptr))
}

/// The code that a continuation emits for one row bound by `env`, or the first
/// name it reads that `env` does not bind.
pub open spec fn accept_code(c: ConsumerModel, env: Seq<BindingModel>) -> Result<Seq<char>, Seq<char>>
    decreases c,
{
    match c {
        ConsumerModel::Discard => Ok(Seq::empty()),
        ConsumerModel::Evaluate { exprs, names, slots, then } => match evaluate_code(
            exprs,
            names,
            slots,
            env,
            names.len(),
        ) {
            Err(x) => Err(x),
            Ok(a) => match accept_code(*then, projected_env(exprs, names, slots)) {
                Err(x) => Err(x),
                Ok(b) => Ok(a + b),
            },
        },
        ConsumerModel::Accumulate { acc, field } => match find(env, field) {
            Some(k) => Ok(accumulate_code(acc, env[k].1)),
            None => Err(field),
        },
        ConsumerModel::Store { ptr, field, offset } => match find(env, field) {
            Some(k) => Ok(store_code(ptr, env[k].1, offset)),
            None => Err(field),
        },
    }
}

impl Consumer {
    /// Emits the code that handles one row bound by `env`.
    pub fn accept(&self, ctx: &mut GenContext, env: &VariableMapping) -> (r: Result<(), CodegenError>)
        requires
            consumer_wf(self@),
        ensures
            final(ctx).unique_name_number == old(ctx).unique_name_number,
            extends(final(ctx).buffer@, old(ctx).buffer@),
            match accept_code(self@, env@) {
                Ok(c) => r is Ok && final(ctx).buffer@ == old(ctx).buffer@ + c,
                Err(x) => r is Err && r->Err_0@ == ErrorModel::UnboundField(x),
            },
        decreases self,
    {
        match self {
            Consumer::Discard => {
                assert(ctx.buffer@ =~= old(ctx).buffer@ + Seq::<char>::empty());
                proof {
                    lemma_extends_refl(ctx.buffer@);
                }
                Ok(())
            },
            Consumer::Evaluate { exprs, names, slots, then } => {
                let ghost em = exprs_model(exprs@);
                let ghost nm = strings_model(names@);
                let ghost sm = strings_model(slots@);
                let ghost b0 = ctx.buffer@;
                let n = names.len();
                let mut k: usize = 0;
                while k < n
                    invariant
                        consumer_wf(self@),
                        em == exprs_model(exprs@),
                        nm == strings_model(names@),
                        sm == strings_model(slots@),
                        self@ == (ConsumerModel::Evaluate { exprs: em, names: nm, slots: sm, then: Box::new(then@) }),
                        n == names@.len(),
                        exprs@.len() == n,
                        slots@.len() == n,
                        k <= n,
                        ctx.unique_name_number == old(ctx).unique_name_number,
                        evaluate_code(em, nm, sm, env@, k as nat) is Ok,
                        ctx.buffer@ == b0 + evaluate_code(em, nm, sm, env@, k as nat)->Ok_0,
                        b0 == old(ctx).buffer@,
                    decreases n - k,
                {
                    let ghost before = ctx.buffer@;
                    ctx.emit(";; evaluate ");
                    ctx.emit(names[k].as_str());
                    ctx.emit("\n");
                    let ghost mid = ctx.buffer@;
                    assert(mid =~= before + (";; evaluate "@ + nm[k as int] + "\n"@));
                    assert(em[k as int] == exprs@[k as int]@);
                    match exprs[k].generate(ctx, env) {
                        Err(e) => {
                            proof {
                                lemma_evaluate_err(em, nm, sm, env@, (k + 1) as nat, n as nat);
                                lemma_extends_append(b0, mid.subrange(b0.len() as int, mid.len() as int));
                                assert(mid =~= b0 + mid.subrange(b0.len() as int, mid.len() as int));
                                lemma_extends_trans(b0, mid, ctx.buffer@);
                            }
                            return Err(e);
                        },
                        Ok(()) => {},
                    }
                    emit_set(ctx, &slots[k]);
                    assert(ctx.buffer@ =~= b0 + evaluate_code(em, nm, sm, env@, (k + 1) as nat)->Ok_0);
                    k = k + 1;
                }
                let mut out = VariableMapping::new();
                let mut j: usize = 0;
                while j < n
                    invariant
                        n == names@.len(),
                        exprs@.len() == n,
                        slots@.len() == n,
                        j <= n,
                        em == exprs_model(exprs@),
                        nm == strings_model(names@),
                        sm == strings_model(slots@),
                        out@ =~= projected_env(em, nm, sm).take(j as int),
                    decreases n - j,
                {
                    let t = exprs[j].value_type();
                    out.insert(names[j].clone(), slots[j].clone(), ValueMetadata { value_type: t, nullable: false });
                    assert(out@ =~= projected_env(em, nm, sm).take(j + 1));
                    j = j + 1;
                }
                assert(out@ =~= projected_env(em, nm, sm));
                let ghost b1 = ctx.buffer@;
                proof {
                    lemma_extends_append(b0, b1.subrange(b0.len() as int, b1.len() as int));
                    assert(b1 =~= b0 + b1.subrange(b0.len() as int, b1.len() as int));
                }
                match then.accept(ctx, &out) {
                    Err(e) => {
                        proof {
                            lemma_extends_trans(b0, b1, ctx.buffer@);
                        }
                        Err(e)
                    },
                    Ok(()) => {
                        assert(ctx.buffer@ =~= b0 + accept_code(self@, env@)->Ok_0);
                        proof {
                            lemma_extends_append(b0, accept_code(self@, env@)->Ok_0);
                        }
                        Ok(())
                    },
                }
            },
            Consumer::Accumulate { acc, field } => {
                proof {
                    lemma_find_bound(env@, field@);
                }
                match env.get(field) {
                    Some(k) => {
                        let ghost b0 = ctx.buffer@;
                        ctx.emit(";; add to sum\n");
                        emit_get(ctx, acc);
                        emit_get(ctx, &env.entries[k].slot);
                        ctx.emit("(i32.add)\n");
                        emit_set(ctx, acc);
                        assert(ctx.buffer@ =~= b0 + accumulate_code(acc@, env@[k as int].1));
                        proof {
                            lemma_extends_append(b0, accumulate_code(acc@, env@[k as int].1));
                        }
                        Ok(())
                    },
                    None => {
                        proof {
                            lemma_extends_refl(ctx.buffer@);
                        }
                        Err(CodegenError::UnboundField(field.clone()))
                    },
                }
            },
            Consumer::Store { ptr, field, offset } => {
                proof {
                    lemma_find_bound(env@, field@);
                }
                match env.get(field) {
                    Some(k) => {
                        let ghost b0 = ctx.buffer@;
                        ctx.emit(";; store output\n");
                        emit_get(ctx, ptr);
                        emit_get(ctx, &env.entries[k].slot);
                        ctx.emit("(i32.store 1 offset=");
                        let digits = decimal_string(*offset);
                        ctx.emit(digits.as_str());
                        ctx.emit(")\n");
                        ctx.emit(";; update output pointer\n");
                        emit_get(ctx, ptr);
                        ctx.emit("(i32.const 4)\n(i32.add)\n");
                        emit_set(ctx, ptr);
                        assert(ctx.buffer@ =~= b0 + store_code(ptr@, env@[k as int].1, *offset as nat));
                        proof {
                            lemma_extends_append(b0, store_code(ptr@, env@[k as int].1, *offset as nat));
                        }
                        Ok(())
                    },
                    None => {
                        proof {
                            lemma_extends_refl(ctx.buffer@);
                        }
                        Err(CodegenError::UnboundField(field.clone()))
                    },
                }
            },
        }
    }
}

/// The largest loop bound that the target's signed 32-bit comparison handles.
pub const MAX_RANGE_BOUND: usize = 2147483647;

/// The largest output slot whose byte offset fits a store's unsigned 32-bit
/// static offset.
pub const MAX_OUTPUT_SLOT: usize = 1073741823;

/// The width in bytes of one stored integer.
pub const INT_WIDTH: usize = 4;

/// How many storage names the generation of `node` mints.
pub open spec fn names_needed(node: NodeModel) -> nat
    decreases node,
{
    match node {
        NodeModel::Range(_, _) => 2,
        NodeModel::Project(src, _, names) => names.len() + names_needed(*src),
        NodeModel::Output(src, _, _) => 1 + names_needed(*src),
        NodeModel::Sum(src, _) => 1 + names_needed(*src),
    }
}

/// The row that a range hands on: its counter under the name `i`.
pub open spec fn range_env(counter: Seq<char>) -> Seq<BindingModel> {
    seq![("i"@, counter, int_meta())]
}

/// The row that a sum hands on: its accumulator under `<field>_sum`.
pub open spec fn sum_env(field: Seq<char>, acc: Seq<char>) -> Seq<BindingModel> {
    seq![(field + "_sum"@, acc, int_meta())]
}

/// Sets the counter to `start` and opens the loop.
pub open spec fn loop_open(counter: Seq<char>, label: Seq<char>, start: nat) -> Seq<char> {
    "(i32.const "@ + decimal(start) + ")\n"@ + set_code(counter) + ("(loop $"@ + label + "\n"@)
}

/// Steps the counter and branches back while it stays below `end`.
pub open spec fn loop_close(counter: Seq<char>, label: Seq<char>, end: nat) -> Seq<char> {
    ";; increment i\n"@ + get_code(counter) + "(i32.const 1)\n(i32.add)\n"@ + set_code(counter) + (
    ";; check if loop finished\n"@ + get_code(counter)) + ("(i32.const "@ + decimal(end)
        + ")\n(i32.lt_s)\n"@) + ("(br_if $"@ + label + ")\n)\n"@)
}

/// The locals that a projection mints, one per output name.
pub open spec fn project_slots(names: Seq<Seq<char>>, n: nat) -> Seq<Seq<char>> {
    Seq::new(names.len(), |k: int| unique_name(names[k], n + k as nat))
}

/// The declarations of the first `k` locals of a projection.
pub open spec fn decls_code(slots: Seq<Seq<char>>, exprs: Seq<ExprModel>, k: nat) -> Seq<char>
    decreases k,
{
    if k == 0 {
        Seq::empty()
    } else {
        decls_code(slots, exprs, (k - 1) as nat) + decl_code(slots[k - 1], expr_type(exprs[k - 1]))
    }
}

/// `head` before the code of `r`, or the error of `r`.
pub open spec fn after(head: Seq<char>, r: Result<Seq<char>, ErrorModel>) -> Result<Seq<char>, ErrorModel> {
    match r {
        Ok(c) => Ok(head + c),
        Err(e) => Err(e),
    }
}

/// The code of `node` with `c` as the continuation of its rows, when the name
/// counter stands at `n`.
pub open spec fn gen_code(node: NodeModel, c: ConsumerModel, n: nat) -> Result<Seq<char>, ErrorModel>
    decreases node,
{
    match node {
        NodeModel::Range(s, e) => if s > MAX_RANGE_BOUND || e > MAX_RANGE_BOUND {
            Err(ErrorModel::Unsupported)
        } else {
            let i = unique_name("i"@, n);
            let lp = unique_name("loop"@, n + 1);
            let head = ";; declare loop variable\n"@ + decl_code(i, ValueType::Int);
            match accept_code(c, range_env(i)) {
                Err(x) => Err(ErrorModel::UnboundField(x)),
                Ok(body) => if s < e {
                    Ok(head + loop_open(i, lp, s) + body + loop_close(i, lp, e))
                } else {
                    Ok(head)
                },
            }
        },
        NodeModel::Output(src, field, slot) => if slot > MAX_OUTPUT_SLOT {
            Err(ErrorModel::Unsupported)
        } else {
            let p = unique_name("output_ptr"@, n);
            after(
                decl_code(p, ValueType::Int),
                gen_code(*src, ConsumerModel::Store { ptr: p, field, offset: slot * 4 }, n + 1),
            )
        },
        NodeModel::Sum(src, field) => {
            let acc = unique_name("sum"@, n);
            let head = ";; declare sum output\n"@ + decl_code(acc, ValueType::Int);
            match gen_code(*src, ConsumerModel::Accumulate { acc, field }, n + 1) {
                Err(e) => Err(e),
                Ok(a) => match accept_code(c, sum_env(field, acc)) {
                    Err(x) => Err(ErrorModel::UnboundField(x)),
                    Ok(b) => Ok(head + a + b),
                },
            }
        },
        NodeModel::Project(src, exprs, names) => if exprs.len() != names.len() {
            Err(ErrorModel::Unsupported)
        } else {
            let slots = project_slots(names, n);
            after(
                ";; declare map output\n"@ + decls_code(slots, exprs, names.len()),
                gen_code(
                    *src,
                    ConsumerModel::Evaluate { exprs, names, slots, then: Box::new(c) },
                    n + names.len(),
                ),
            )
        },
    }
}

fn emit_loop_open(ctx: &mut GenContext, counter: &String, label: &String, start: usize)
    ensures
        final(ctx).buffer@ == old(ctx).buffer@ + loop_open(counter@, label@, start as nat),
        final(ctx).unique_name_number == old(ctx).unique_name_number,
{
    ctx.emit("(i32.const ");
    let digits = decimal_string(start);
    ctx.emit(digits.as_str());
    ctx.emit(")\n");
    emit_set(ctx, counter);
    ctx.emit("(loop $");
    ctx.emit(label.as_str());
    ctx.emit("\n");
    assert(final(ctx).buffer@ =~= old(ctx).buffer@ + loop_open(counter@, label@, start as nat));
}

fn emit_loop_close(ctx: &mut GenContext, counter: &String, label: &String, end: usize)
    ensures
        final(ctx).buffer@ == old(ctx).buffer@ + loop_close(counter@, label@, end as nat),
        final(ctx).unique_name_number == old(ctx).unique_name_number,
{
    ctx.emit(";; increment i\n");
    emit_get(ctx, counter);
    ctx.emit("(i32.const 1)\n(i32.add)\n");
    emit_set(ctx, counter);
    ctx.emit(";; check if loop finished\n");
    emit_get(ctx, counter);
    ctx.emit("(i32.const ");
    let digits = decimal_string(end);
    ctx.emit(digits.as_str());
    ctx.emit(")\n(i32.lt_s)\n");
    ctx.emit("(br_if $");
    ctx.emit(label.as_str());
    ctx.emit(")\n)\n");
    assert(final(ctx).buffer@ =~= old(ctx).buffer@ + loop_close(counter@, label@, end as nat));
}

impl Node {
    /// How many storage names the generation of this operator mints, if that
    /// number fits in a `usize`.
    pub fn name_count(&self) -> (r: Option<usize>)
        ensures
            r is Some <==> names_needed(self@) <= usize::MAX,
            r is Some ==> r->Some_0 == names_needed(self@),
        decreases self,
    {
        let (own, src): (usize, Option<usize>) = match self {
            Node::Range(_, _) => (2, Some(0)),
            Node::Project(source, _, names) => (names.len(), source.name_count()),
            Node::Output(source, _, _) => (1, source.name_count()),
            Node::Sum(source, _) => (1, source.name_count()),
        };
        match src {
            None => None,
            Some(m) => if m > usize::MAX - own {
                None
            } else {
                Some(own + m)
            },
        }
    }

    /// Emits the code of this operator; `consumer` is what is done with each
    /// row it produces. `Output` produces no rows and ignores `consumer`.
    #[verifier::rlimit(50)]
    pub fn generate(&self, ctx: &mut GenContext, consumer: Consumer) -> (r: Result<(), CodegenError>)
        requires
            consumer_wf(consumer@),
            old(ctx).unique_name_number + names_needed(self@) <= usize::MAX,
        ensures
            match gen_code(self@, consumer@, old(ctx).unique_name_number as nat) {
                Ok(c) => r is Ok && final(ctx).buffer@ == old(ctx).buffer@ + c
                    && final(ctx).unique_name_number == old(ctx).unique_name_number + names_needed(self@),
                Err(e) => r is Err && r->Err_0@ == e,
            },
            extends(final(ctx).buffer@, old(ctx).buffer@),
            final(ctx).unique_name_number >= old(ctx).unique_name_number,
        decreases self,
    {
        let ghost b0 = ctx.buffer@;
        let ghost n0 = ctx.unique_name_number as nat;
        match self {
            Node::Range(start, end) => {
                if *start > MAX_RANGE_BOUND || *end > MAX_RANGE_BOUND {
                    proof {
                        lemma_extends_refl(b0);
                    }
                    return Err(CodegenError::Unsupported);
                }
                ctx.emit(";; declare loop variable\n");
                let i_name = ctx.get_unique("i");
                emit_decl(ctx, &i_name, ValueType::Int);
                let loop_name = ctx.get_unique("loop");
                proof {
                    reveal_strlit("i");
                }
                let ghost head = ";; declare loop variable\n"@ + decl_code(i_name@, ValueType::Int);
                assert(ctx.buffer@ =~= b0 + head);
                let mut fields = VariableMapping::new();
                fields.insert(String::from_str("i"), i_name.clone(), ValueMetadata { value_type: ValueType::Int, nullable: false });
                assert(fields@ =~= range_env(i_name@));
                proof {
                    lemma_extends_append(b0, head);
                }
                if *start < *end {
                    emit_loop_open(ctx, &i_name, &loop_name, *start);
                    let ghost b1 = ctx.buffer@;
                    proof {
                        lemma_extends_append(b0 + head, loop_open(i_name@, loop_name@, *start as nat));
                        lemma_extends_trans(b0, b0 + head, b1);
                    }
                    match consumer.accept(ctx, &fields) {
                        Err(e) => {
                            proof {
                                lemma_extends_trans(b0, b1, ctx.buffer@);
                            }
                            return Err(e);
                        },
                        Ok(()) => {},
                    }
                    let ghost b2 = ctx.buffer@;
                    emit_loop_close(ctx, &i_name, &loop_name, *end);
                    assert(ctx.buffer@ =~= b0 + (head + loop_open(i_name@, loop_name@, *start as nat)
                        + (b2.subrange(b1.len() as int, b2.len() as int)) + loop_close(i_name@, loop_name@, *end as nat)));
                    proof {
                        lemma_extends_append(b0, ctx.buffer@.subrange(b0.len() as int, ctx.buffer@.len() as int));
                        assert(ctx.buffer@ =~= b0 + ctx.buffer@.subrange(b0.len() as int, ctx.buffer@.len() as int));
                    }
                } else {
                    // No row is produced, but the consumer's reads are still
                    // checked against the row it would be handed.
                    let mut scratch = GenContext { unique_name_number: ctx.unique_name_number, buffer: String::new() };
                    match consumer.accept(&mut scratch, &fields) {
                        Err(e) => return Err(e),
                        Ok(()) => {},
                    }
                }
                Ok(())
            },
            Node::Output(source, field, slot) => {
                if *slot > MAX_OUTPUT_SLOT {
                    proof {
                        lemma_extends_refl(b0);
                    }
                    return Err(CodegenError::Unsupported);
                }
                let ptr = ctx.get_unique("output_ptr");
                emit_decl(ctx, &ptr, ValueType::Int);
                let store = Consumer::Store { ptr, field: field.clone(), offset: *slot * INT_WIDTH };
                let ghost b1 = ctx.buffer@;
                let r = source.generate(ctx, store);
                proof {
                    assert(b1 =~= b0 + b1.subrange(b0.len() as int, b1.len() as int));
                    lemma_extends_append(b0, b1.subrange(b0.len() as int, b1.len() as int));
                    lemma_extends_trans(b0, b1, ctx.buffer@);
                }
                proof {
                    if r is Ok {
                        assert(ctx.buffer@ =~= b0 + (decl_code(unique_name("output_ptr"@, n0), ValueType::Int)
                            + ctx.buffer@.subrange(b1.len() as int, ctx.buffer@.len() as int)));
                    }
                }
                r
            },
            Node::Sum(source, field) => {
                ctx.emit(";; declare sum output\n");
                let sum_name = ctx.get_unique("sum");
                emit_decl(ctx, &sum_name, ValueType::Int);
                let ghost b1 = ctx.buffer@;
                let acc = Consumer::Accumulate { acc: sum_name.clone(), field: field.clone() };
                match source.generate(ctx, acc) {
                    Err(e) => {
                        proof {
                            assert(b1 =~= b0 + b1.subrange(b0.len() as int, b1.len() as int));
                            lemma_extends_append(b0, b1.subrange(b0.len() as int, b1.len() as int));
                            lemma_extends_trans(b0, b1, ctx.buffer@);
                        }
                        return Err(e);
                    },
                    Ok(()) => {},
                }
                let ghost b2 = ctx.buffer@;
                let mut out_name = field.clone();
                out_name.append("_sum");
                let mut fields = VariableMapping::new();
                fields.insert(out_name, sum_name, ValueMetadata { value_type: ValueType::Int, nullable: false });
                assert(fields@ =~= sum_env(field@, sum_name@));
                match consumer.accept(ctx, &fields) {
                    Err(e) => {
                        proof {
                            assert(b2 =~= b0 + b2.subrange(b0.len() as int, b2.len() as int));
                            lemma_extends_append(b0, b2.subrange(b0.len() as int, b2.len() as int));
                            lemma_extends_trans(b0, b2, ctx.buffer@);
                        }
                        return Err(e);
                    },
                    Ok(()) => {},
                }
                assert(ctx.buffer@ =~= b0 + ((";; declare sum output\n"@ + decl_code(sum_name@, ValueType::Int))
                    + b2.subrange(b1.len() as int, b2.len() as int)
                    + ctx.buffer@.subrange(b2.len() as int, ctx.buffer@.len() as int)));
                proof {
                    lemma_extends_append(b0, ctx.buffer@.subrange(b0.len() as int, ctx.buffer@.len() as int));
                    assert(ctx.buffer@ =~= b0 + ctx.buffer@.subrange(b0.len() as int, ctx.buffer@.len() as int));
                }
                Ok(())
            },
            Node::Project(source, exprs, names) => {
                if exprs.len() != names.len() {
                    proof {
                        lemma_extends_refl(b0);
                    }
                    return Err(CodegenError::Unsupported);
                }
                let ghost em = exprs_model(exprs@);
                let ghost nm = strings_model(names@);
                let ghost sm = project_slots(nm, n0);
                ctx.emit(";; declare map output\n");
                let n = names.len();
                let mut slots: Vec<String> = Vec::new();
                let mut k: usize = 0;
                while k < n
                    invariant
                        n == names@.len(),
                        exprs@.len() == n,
                        k <= n,
                        em == exprs_model(exprs@),
                        nm == strings_model(names@),
                        sm == project_slots(nm, n0),
                        n0 + names_needed(self@) <= usize::MAX,
                        self@ == NodeModel::Project(Box::new(source@), em, nm),
                        ctx.unique_name_number == n0 + k,
                        strings_model(slots@) =~= sm.take(k as int),
                        ctx.buffer@ == b0 + ";; declare map output\n"@ + decls_code(sm, em, k as nat),
                    decreases n - k,
                {
                    let slot = ctx.get_unique(names[k].as_str());
                    let t = exprs[k].value_type();
                    emit_decl(ctx, &slot, t);
                    let ghost prev = slots@;
                    slots.push(slot);
                    proof {
                        lemma_strings_model_push(prev, slots@.last());
                        assert(slots@ == prev.push(slots@.last()));
                    }
                    assert(strings_model(slots@) =~= sm.take(k + 1));
                    assert(ctx.buffer@ =~= b0 + ";; declare map output\n"@ + decls_code(sm, em, (k + 1) as nat));
                    k = k + 1;
                }
                let mut exprs_copy: Vec<Expr> = Vec::new();
                let mut names_copy: Vec<String> = Vec::new();
                let mut j: usize = 0;
                while j < n
                    invariant
                        n == names@.len(),
                        exprs@.len() == n,
                        j <= n,
                        exprs_model(exprs_copy@) =~= exprs_model(exprs@).take(j as int),
                        strings_model(names_copy@) =~= strings_model(names@).take(j as int),
                    decreases n - j,
                {
                    let ghost pe = exprs_copy@;
                    let ghost pn = names_copy@;
                    let e = exprs[j].copy();
                    let s = names[j].clone();
                    proof {
                        lemma_exprs_model_push(pe, e);
                        lemma_strings_model_push(pn, s);
                    }
                    exprs_copy.push(e);
                    names_copy.push(s);
                    assert(exprs_model(exprs_copy@) =~= exprs_model(exprs@).take(j + 1));
                    assert(strings_model(names_copy@) =~= strings_model(names@).take(j + 1));
                    j = j + 1;
                }
                assert(exprs_model(exprs_copy@) =~= em);
                assert(strings_model(names_copy@) =~= nm);
                assert(strings_model(slots@) =~= sm);
                let frame = Consumer::Evaluate {
                    exprs: exprs_copy,
                    names: names_copy,
                    slots,
                    then: Box::new(consumer),
                };
                let ghost b1 = ctx.buffer@;
                let r = source.generate(ctx, frame);
                proof {
                    assert(b1 =~= b0 + b1.subrange(b0.len() as int, b1.len() as int));
                    lemma_extends_append(b0, b1.subrange(b0.len() as int, b1.len() as int));
                    lemma_extends_trans(b0, b1, ctx.buffer@);
                }
                proof {
                    if r is Ok {
                        assert(ctx.buffer@ =~= b0 + ((";; declare map output\n"@ + decls_code(sm, em, n as nat))
                            + ctx.buffer@.subrange(b1.len() as int, ctx.buffer@.len() as int)));
                    }
                }
                r
            },
        }
    }
}

} // verus!
