use pushgen::bindings::VariableMapping;
use pushgen::codegen::{Consumer, MAX_OUTPUT_SLOT, MAX_RANGE_BOUND};
use pushgen::context::GenContext;
use pushgen::ir::{CodegenError, Expr, Node, ValueMetadata, ValueType};
use pushgen::module::compile;
use pushgen::text::decimal_string;
use std::collections::HashSet;

fn var(name: &str) -> Expr {
    Expr::Variable(name.to_string())
}

fn add(l: Expr, r: Expr) -> Expr {
    Expr::Add(Box::new(l), Box::new(r))
}

fn int_meta() -> ValueMetadata {
    ValueMetadata { value_type: ValueType::Int, nullable: false }
}

/// Runs the `execute` export of a module and returns the first 64 bytes of its
/// exported memory.
fn run(wat: &str) -> Vec<u8> {
    let mut config = wasmtime::Config::new();
    config.wasm_multi_memory(true);
    config.memory_reservation(1 << 20);
    config.memory_guard_size(0);
    config.memory_reservation_for_growth(1 << 20);
    let engine = wasmtime::Engine::new(&config).unwrap();
    let module = wasmtime::Module::new(&engine, wat).unwrap();
    let mut store = wasmtime::Store::new(&engine, ());
    let input = wasmtime::Memory::new(&mut store, wasmtime::MemoryType::new(1, None)).unwrap();
    let instance = wasmtime::Instance::new(&mut store, &module, &[input.into()]).unwrap();
    let memory = instance.get_memory(&mut store, "memory").unwrap();
    memory.grow(&mut store, 1).unwrap();
    let execute = instance.get_typed_func::<(), ()>(&mut store, "execute").unwrap();
    execute.call(&mut store, ()).unwrap();
    memory.data(&store)[0..64].to_vec()
}

fn word(bytes: &[u8], slot: usize) -> u32 {
    u32::from_le_bytes(bytes[slot * 4..slot * 4 + 4].try_into().unwrap())
}

#[test]
fn decimal_renders_numbers() {
    assert_eq!(decimal_string(0), "0");
    assert_eq!(decimal_string(7), "7");
    assert_eq!(decimal_string(10), "10");
    assert_eq!(decimal_string(1234), "1234");
    assert_eq!(decimal_string(usize::MAX), usize::MAX.to_string());
}

#[test]
fn get_unique_appends_counter() {
    let mut ctx = GenContext::new();
    assert_eq!(ctx.get_unique("i"), "i_0");
    assert_eq!(ctx.get_unique("i"), "i_1");
    assert_eq!(ctx.get_unique("loop"), "loop_2");
    assert_eq!(ctx.unique_name_number, 3);
    assert_eq!(ctx.buffer, "");
}

#[test]
fn get_unique_names_distinct() {
    let prefixes = ["a", "a_1", "a_", "", "_", "i", "sum"];
    let mut ctx = GenContext::new();
    let mut seen = HashSet::new();
    for k in 0..200 {
        seen.insert(ctx.get_unique(prefixes[k % prefixes.len()]));
    }
    assert_eq!(seen.len(), 200);
}

#[test]
fn primitive_type_name_is_i32() {
    assert_eq!(ValueType::Int.primitive_type_name(), "i32");
}

#[test]
fn value_type_is_int() {
    assert_eq!(add(var("a"), var("b")).value_type(), ValueType::Int);
    assert_eq!(var("a").value_type(), ValueType::Int);
}

#[test]
fn variable_unbound_fails() {
    let mut env = VariableMapping::new();
    env.insert("y".to_string(), "y_0".to_string(), int_meta());
    let mut ctx = GenContext::new();
    match var("x").generate(&mut ctx, &env) {
        Err(CodegenError::UnboundField(name)) => assert_eq!(name, "x"),
        other => panic!("expected an unbound field, got {:?}", other),
    }
    let mut empty_ctx = GenContext::new();
    let r = add(var("y"), var("z")).generate(&mut empty_ctx, &env);
    assert!(matches!(r, Err(CodegenError::UnboundField(ref n)) if n == "z"));
}

#[test]
fn variable_bound_loads_slot() {
    let mut env = VariableMapping::new();
    env.insert("x".to_string(), "x_3".to_string(), int_meta());
    let mut ctx = GenContext::new();
    var("x").generate(&mut ctx, &env).unwrap();
    assert_eq!(ctx.buffer, ";; load variable\n(local.get $x_3)\n");
}

#[test]
fn add_expression_code() {
    let mut env = VariableMapping::new();
    env.insert("x".to_string(), "x_3".to_string(), int_meta());
    env.insert("y".to_string(), "y_4".to_string(), int_meta());
    let mut ctx = GenContext::new();
    add(var("x"), var("y")).generate(&mut ctx, &env).unwrap();
    assert_eq!(
        ctx.buffer,
        ";; add\n;; load variable\n(local.get $x_3)\n;; load variable\n(local.get $y_4)\n(i32.add)\n"
    );
}

#[test]
fn binding_lookup_takes_last_entry() {
    let mut env = VariableMapping::new();
    env.insert("x".to_string(), "x_0".to_string(), int_meta());
    env.insert("x".to_string(), "x_1".to_string(), int_meta());
    assert_eq!(env.get(&"x".to_string()), Some(1));
    assert_eq!(env.get(&"q".to_string()), None);
}

#[test]
fn accumulate_consumer_code() {
    let mut env = VariableMapping::new();
    env.insert("a".to_string(), "a_5".to_string(), int_meta());
    let c = Consumer::Accumulate { acc: "sum_1".to_string(), field: "a".to_string() };
    let mut ctx = GenContext::new();
    c.accept(&mut ctx, &env).unwrap();
    assert_eq!(
        ctx.buffer,
        ";; add to sum\n(local.get $sum_1)\n(local.get $a_5)\n(i32.add)\n(local.set $sum_1)\n"
    );
}

#[test]
fn small_plan_exact_text() {
    let plan = Node::Output(Box::new(Node::Range(0, 1)), "i".to_string(), 0);
    let text = compile(&plan).unwrap();
    let expected = [
        "(module\n(import \"env\" \"input\" (memory 0))\n(memory (export \"memory\") 0)\n(func (export \"execute\")\n",
        "(local $output_ptr_0 i32)\n",
        ";; declare loop variable\n(local $i_1 i32)\n",
        "(i32.const 0)\n(local.set $i_1)\n(loop $loop_2\n",
        ";; store output\n(local.get $output_ptr_0)\n(local.get $i_1)\n(i32.store 1 offset=0)\n",
        ";; update output pointer\n(local.get $output_ptr_0)\n(i32.const 4)\n(i32.add)\n(local.set $output_ptr_0)\n",
        ";; increment i\n(local.get $i_1)\n(i32.const 1)\n(i32.add)\n(local.set $i_1)\n",
        ";; check if loop finished\n(local.get $i_1)\n(i32.const 1)\n(i32.lt_s)\n(br_if $loop_2)\n)\n",
        ")\n)\n",
    ]
    .concat();
    assert_eq!(text, expected);
}

#[test]
fn range_rows_counted() {
    let plan = Node::Output(Box::new(Node::Range(2, 7)), "i".to_string(), 0);
    let mem = run(&compile(&plan).unwrap());
    for k in 0..5 {
        assert_eq!(word(&mem, k), 2 + k as u32);
    }
    assert_eq!(word(&mem, 5), 0);
}

#[test]
fn range_empty_emits_no_rows() {
    for (s, e) in [(5, 5), (7, 3)] {
        let plan = Node::Output(Box::new(Node::Range(s, e)), "i".to_string(), 0);
        let text = compile(&plan).unwrap();
        assert!(!text.contains("(loop"));
        assert!(!text.contains(";; store output"));
        let mem = run(&text);
        assert!(mem.iter().all(|b| *b == 0));
    }
}

#[test]
fn project_consumer_sees_only_outputs() {
    let plan = Node::Output(
        Box::new(Node::Project(Box::new(Node::Range(0, 3)), vec![add(var("i"), var("i"))], vec!["a".to_string()])),
        "i".to_string(),
        0,
    );
    assert!(matches!(compile(&plan), Err(CodegenError::UnboundField(ref n)) if n == "i"));
    let plan = Node::Output(
        Box::new(Node::Project(Box::new(Node::Range(0, 3)), vec![add(var("i"), var("i"))], vec!["a".to_string()])),
        "a".to_string(),
        0,
    );
    let mem = run(&compile(&plan).unwrap());
    assert_eq!([word(&mem, 0), word(&mem, 1), word(&mem, 2), word(&mem, 3)], [0, 2, 4, 0]);
}

#[test]
fn sum_consumer_invoked_once() {
    let plan = Node::Output(Box::new(Node::Sum(Box::new(Node::Range(1, 5)), "i".to_string())), "i_sum".to_string(), 2);
    let text = compile(&plan).unwrap();
    assert_eq!(text.matches(";; store output").count(), 1);
    let mem = run(&text);
    assert_eq!(word(&mem, 2), 10);
    assert_eq!(word(&mem, 3), 0);
    assert_eq!(word(&mem, 1), 0);
}

#[test]
fn scenario_map_sum_output() {
    let plan = Node::Range(3, 10);
    let plan = Node::Project(
        Box::new(plan),
        vec![add(var("i"), var("i")), add(var("i"), var("i"))],
        vec!["a".to_string(), "b".to_string()],
    );
    let plan = Node::Sum(Box::new(plan), "a".to_string());
    let plan = Node::Output(Box::new(plan), "a_sum".to_string(), 1);
    let mem = run(&compile(&plan).unwrap());
    assert_eq!(word(&mem, 1), 84);
}

#[test]
fn scenario_range_sum() {
    let plan = Node::Output(Box::new(Node::Sum(Box::new(Node::Range(0, 4)), "i".to_string())), "i_sum".to_string(), 1);
    let mem = run(&compile(&plan).unwrap());
    assert_eq!(word(&mem, 1), 6);
}

#[test]
fn compile_twice_identical() {
    let plan = Node::Output(
        Box::new(Node::Sum(
            Box::new(Node::Project(Box::new(Node::Range(3, 10)), vec![add(var("i"), var("i"))], vec!["a".to_string()])),
            "a".to_string(),
        )),
        "a_sum".to_string(),
        1,
    );
    assert_eq!(compile(&plan).unwrap(), compile(&plan).unwrap());
}

#[test]
fn unsupported_plans_refused() {
    let too_far = Node::Output(Box::new(Node::Range(0, MAX_RANGE_BOUND + 1)), "i".to_string(), 0);
    assert!(matches!(compile(&too_far), Err(CodegenError::Unsupported)));
    let largest = Node::Output(Box::new(Node::Range(0, MAX_RANGE_BOUND)), "i".to_string(), 0);
    assert!(compile(&largest).is_ok());
    let arity = Node::Project(Box::new(Node::Range(0, 2)), vec![var("i")], vec!["a".to_string(), "b".to_string()]);
    assert!(matches!(compile(&arity), Err(CodegenError::Unsupported)));
    let slot = Node::Output(Box::new(Node::Range(0, 2)), "i".to_string(), MAX_OUTPUT_SLOT + 1);
    assert!(matches!(compile(&slot), Err(CodegenError::Unsupported)));
}

#[test]
fn sum_of_missing_field_fails() {
    let plan = Node::Output(Box::new(Node::Sum(Box::new(Node::Range(0, 4)), "x".to_string())), "x_sum".to_string(), 0);
    assert!(matches!(compile(&plan), Err(CodegenError::UnboundField(ref n)) if n == "x"));
}

#[test]
fn output_offset_follows_slot() {
    let plan = Node::Output(Box::new(Node::Range(0, 1)), "i".to_string(), 3);
    let text = compile(&plan).unwrap();
    assert!(text.contains("(i32.store 1 offset=12)"));
}

#[test]
fn name_count_sums_minted_names() {
    let plan = Node::Output(
        Box::new(Node::Project(Box::new(Node::Range(0, 1)), vec![var("i"), var("i")], vec!["a".to_string(), "b".to_string()])),
        "a".to_string(),
        0,
    );
    assert_eq!(plan.name_count(), Some(5));
}

#[test]
fn empty_range_reports_unbound_field() {
    let output = Node::Output(Box::new(Node::Range(5, 5)), "x".to_string(), 0);
    assert!(matches!(compile(&output), Err(CodegenError::UnboundField(ref n)) if n == "x"));
    let sum = Node::Output(Box::new(Node::Sum(Box::new(Node::Range(5, 5)), "x".to_string())), "x_sum".to_string(), 0);
    assert!(matches!(compile(&sum), Err(CodegenError::UnboundField(ref n)) if n == "x"));
    let project = Node::Output(
        Box::new(Node::Project(Box::new(Node::Range(7, 3)), vec![var("q")], vec!["a".to_string()])),
        "a".to_string(),
        0,
    );
    assert!(matches!(compile(&project), Err(CodegenError::UnboundField(ref n)) if n == "q"));
}

#[test]
fn generate_keeps_buffer_on_error() {
    let mut ctx = GenContext::new();
    ctx.buffer.push_str("prefix\n");
    let plan = Node::Sum(Box::new(Node::Range(0, 3)), "x".to_string());
    assert!(plan.generate(&mut ctx, Consumer::Discard).is_err());
    assert!(ctx.buffer.starts_with("prefix\n"));
    assert!(ctx.unique_name_number <= 3);
}

#[test]
fn repeated_output_name_reads_last() {
    let plan = Node::Output(
        Box::new(Node::Project(
            Box::new(Node::Range(0, 3)),
            vec![var("i"), add(var("i"), var("i"))],
            vec!["a".to_string(), "a".to_string()],
        )),
        "a".to_string(),
        0,
    );
    let mem = run(&compile(&plan).unwrap());
    assert_eq!([word(&mem, 0), word(&mem, 1), word(&mem, 2)], [0, 2, 4]);
}

#[test]
fn largest_output_slot_accepted() {
    let plan = Node::Output(Box::new(Node::Range(0, 1)), "i".to_string(), MAX_OUTPUT_SLOT);
    let text = compile(&plan).unwrap();
    assert!(text.contains("(i32.store 1 offset=4294967292)"));
}
