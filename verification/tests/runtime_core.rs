use semcode::runtime_core::{
    DebugNameMap, ExecutionConfig, ExecutionContext, QuotaExceeded, QuotaKind, RuntimeQuotas,
    RuntimeSymbolTable, SymbolId,
};

#[test]
fn runtime_symbol_table_assigns_deterministic_ids() {
    let mut table = RuntimeSymbolTable::new();
    let alpha = table.intern("alpha");
    let beta = table.intern("beta");
    let alpha_again = table.intern("alpha");

    assert_eq!(alpha, SymbolId(0));
    assert_eq!(beta, SymbolId(1));
    assert_eq!(alpha_again, alpha);
    assert_eq!(table.resolve(beta), Some("beta"));
}

#[test]
fn debug_name_map_is_append_only_and_stable() {
    let mut names = DebugNameMap::new();
    let first = names.push("main");
    let second = names.push("helper");

    assert_eq!(first, SymbolId(0));
    assert_eq!(second, SymbolId(1));
    assert_eq!(names.resolve(first), Some("main"));
    assert_eq!(names.len(), 2);
}

#[test]
fn verified_local_quotas_keep_stack_depth_at_contract_value() {
    let quotas = RuntimeQuotas::verified_local();
    assert_eq!(quotas.max_stack_depth, 256);
    assert_eq!(quotas.max_effect_calls, 1_024);
}

#[test]
fn quota_exceed_reports_precise_limit_and_usage() {
    let quotas = RuntimeQuotas::pure_compute();
    let exceed = quotas
        .exceed(QuotaKind::EffectCalls, 1)
        .expect("must exceed");

    assert_eq!(
        exceed,
        QuotaExceeded {
            kind: QuotaKind::EffectCalls,
            limit: 0,
            used: 1,
        }
    );
}

#[test]
fn execution_config_uses_context_defaults() {
    let config = ExecutionConfig::for_context(ExecutionContext::KernelBound);
    assert_eq!(config.context, ExecutionContext::KernelBound);
    assert_eq!(config.quotas.max_effect_calls, 4_096);
}

#[test]
fn quota_at_limit_is_not_exceeded() {
    let quotas = RuntimeQuotas::verified_local();
    assert_eq!(quotas.exceed(QuotaKind::StackDepth, 256), None);
    assert!(quotas.exceed(QuotaKind::StackDepth, 257).is_some());
    assert_eq!(RuntimeQuotas::default(), RuntimeQuotas::verified_local());
}

#[test]
fn rule_execution_uses_verified_local_quotas() {
    let config = ExecutionConfig::for_context(ExecutionContext::RuleExecution);
    assert_eq!(config.quotas, RuntimeQuotas::verified_local());
    assert!(!config.trace_enabled);
    let pure = ExecutionConfig::for_context(ExecutionContext::PureCompute);
    assert_eq!(pure.quotas.max_effect_calls, 0);
    assert_eq!(RuntimeQuotas::kernel_bound().max_steps, 250_000);
}

#[test]
fn interning_twice_keeps_the_table() {
    let mut table = RuntimeSymbolTable::new();
    assert!(table.is_empty());
    table.intern("x");
    table.intern("x");
    assert_eq!(table.len(), 1);
    assert_eq!(table.resolve(SymbolId::new(1)), None);
    assert_eq!(SymbolId::new(7).raw(), 7);
    let copy = table.clone();
    assert_eq!(copy.resolve(SymbolId(0)), Some("x"));
}
