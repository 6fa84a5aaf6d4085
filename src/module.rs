//! Assembly of a complete module around the code of a plan.
use vstd::prelude::*;
use crate::codegen::{gen_code, names_needed, Consumer, ConsumerModel};
use crate::context::GenContext;
use crate::ir::{CodegenError, ErrorModel, Node, NodeModel};

verus! {

/// The module text that precedes the plan's code: an imported input memory,
/// an exported output memory, and the exported entry point.
pub open spec fn module_head() -> Seq<char> {
    "(module\n(import \"env\" \"input\" (memory 0))\n(memory (export \"memory\") 0)\n(func (export \"execute\")\n"@
}

/// The module text that follows the plan's code: it closes the entry point
/// and the module.
pub open spec fn module_tail() -> Seq<char> {
    ")\n)\n"@
}

/// The module compiled from `plan`, with the name counter starting at zero.
/// A plan that needs more storage names than a `usize` counts is refused.
pub open spec fn compile_model(plan: NodeModel) -> Result<Seq<char>, ErrorModel> {
    if names_needed(plan) > usize::MAX {
        Err(ErrorModel::Unsupported)
    } else {
        match gen_code(plan, ConsumerModel::Discard, 0) {
            Ok(c) => Ok(module_head() + c + module_tail()),
            Err(e) => Err(e),
        }
    }
}

/// Compiles `plan` into a module whose `execute` function runs it once; on
/// failure no module is produced.
pub fn compile(plan: &Node) -> (r: Result<String, CodegenError>)
    ensures
        match compile_model(plan@) {
            Ok(t) => r is Ok && r->Ok_0@ == t,
            Err(e) => r is Err && r->Err_0@ == e,
        },
{
    if plan.name_count().is_none() {
        return Err(CodegenError::Unsupported);
    }
    let mut ctx = GenContext::new();
    ctx.emit("(module\n(import \"env\" \"input\" (memory 0))\n(memory (export \"memory\") 0)\n(func (export \"execute\")\n");
    match plan.generate(&mut ctx, Consumer::Discard) {
        Err(e) => Err(e),
        Ok(()) => {
            ctx.emit(")\n)\n");
            Ok(ctx.buffer)
        },
    }
}

} // verus!
