use semcode::ir::{validate_ir, IrFunction, IrInstr};
use semcode::passes::cleanup::{load_dst_and_payload, StructuralCleanupPass};
use semcode::passes::crystalfold::{
    const_eq, fold_constants_and_identities, run_default_opt_passes, ConstVal, CrystalFoldPass,
    F64Op,
};
use semcode::passes::{IrModule, OptPass, OptReport};
use semcode::quad::QuadVal;

fn native_f64(op: F64Op, a: u64, b: u64) -> u64 {
    let x = f64::from_bits(a);
    let y = f64::from_bits(b);
    let r = match op {
        F64Op::Add => x + y,
        F64Op::Sub => x - y,
        F64Op::Mul => x * y,
        F64Op::Div => x / y,
        F64Op::Sin => x.sin(),
        F64Op::Cos => x.cos(),
        F64Op::Tan => x.tan(),
        F64Op::Sqrt => x.sqrt(),
        F64Op::Abs => x.abs(),
        F64Op::Pow => x.powf(y),
    };
    r.to_bits()
}

fn label(name: &str) -> IrInstr {
    IrInstr::Label {
        name: name.to_string(),
    }
}

fn jmp(name: &str) -> IrInstr {
    IrInstr::Jmp {
        label: name.to_string(),
    }
}

fn single(instrs: Vec<IrInstr>) -> IrModule {
    IrModule {
        functions: vec![IrFunction {
            name: "main".to_string(),
            instrs,
        }],
    }
}

#[test]
fn structural_cleanup_removes_unreachable_and_noop_jmp() {
    let mut module = single(vec![
        label("entry"),
        jmp("l1"),
        IrInstr::LoadBool { dst: 0, val: true },
        label("l1"),
        IrInstr::Ret { src: None },
    ]);

    let report = StructuralCleanupPass.run(&mut module);
    assert!(report.changed);
    assert!(matches!(
        module.functions[0].instrs[0],
        IrInstr::Label { .. }
    ));
    assert!(module.functions[0]
        .instrs
        .iter()
        .all(|i| !matches!(i, IrInstr::LoadBool { dst: 0, val: true })));
}

#[test]
fn structural_cleanup_removes_redundant_consecutive_loads() {
    let mut module = single(vec![
        IrInstr::LoadI32 { dst: 1, val: 10 },
        IrInstr::LoadI32 { dst: 1, val: 11 },
        IrInstr::Ret { src: Some(1) },
    ]);

    let report = StructuralCleanupPass.run(&mut module);
    assert!(report.changed);
    let loads = module.functions[0]
        .instrs
        .iter()
        .filter(|i| matches!(i, IrInstr::LoadI32 { dst: 1, .. }))
        .count();
    assert_eq!(loads, 1);
    assert!(matches!(
        module.functions[0].instrs[0],
        IrInstr::LoadI32 { dst: 1, val: 11 }
    ));
}

#[test]
fn structural_cleanup_deduplicates_consecutive_labels() {
    let mut module = single(vec![label("l0"), label("l0"), IrInstr::Ret { src: None }]);

    let report = StructuralCleanupPass.run(&mut module);
    assert!(report.changed);
    assert_eq!(
        module.functions[0]
            .instrs
            .iter()
            .filter(|i| matches!(i, IrInstr::Label { name } if name == "l0"))
            .count(),
        1
    );
}

#[test]
fn structural_cleanup_counts_every_removal_and_reports_exact_result() {
    let mut module = single(vec![
        label("a"),
        label("a"),
        jmp("b"),
        IrInstr::LoadBool { dst: 2, val: false },
        IrInstr::LoadI32 { dst: 3, val: 1 },
        label("b"),
        IrInstr::LoadQ {
            dst: 4,
            val: QuadVal::T,
        },
        IrInstr::LoadVar {
            dst: 4,
            name: "x".to_string(),
        },
        IrInstr::Ret { src: Some(4) },
    ]);
    let report = StructuralCleanupPass.run(&mut module);
    assert_eq!(
        report,
        OptReport {
            changed: true,
            num_rewrites: 5
        }
    );
    assert_eq!(
        module.functions[0].instrs,
        vec![
            label("a"),
            label("b"),
            IrInstr::LoadVar {
                dst: 4,
                name: "x".to_string()
            },
            IrInstr::Ret { src: Some(4) },
        ]
    );
}

#[test]
fn structural_cleanup_leaves_clean_code_alone() {
    let mut module = single(vec![
        label("a"),
        IrInstr::LoadI32 { dst: 1, val: 7 },
        IrInstr::JmpIf {
            cond: 1,
            label: "a".to_string(),
        },
        IrInstr::Ret { src: Some(1) },
    ]);
    let before = module.clone();
    let report = StructuralCleanupPass.run(&mut module);
    assert_eq!(
        report,
        OptReport {
            changed: false,
            num_rewrites: 0
        }
    );
    assert_eq!(module, before);
    assert_eq!(StructuralCleanupPass.name(), "StructuralCleanup");
    assert_eq!(StructuralCleanupPass.version(), 1);
}

#[test]
fn load_payload_tags_each_load_kind() {
    assert_eq!(
        load_dst_and_payload(&IrInstr::LoadQ {
            dst: 1,
            val: QuadVal::S
        }),
        Some((1, 0x1003))
    );
    assert_eq!(
        load_dst_and_payload(&IrInstr::LoadBool { dst: 2, val: true }),
        Some((2, 0x2001))
    );
    assert_eq!(
        load_dst_and_payload(&IrInstr::LoadI32 { dst: 3, val: -1 }),
        Some((3, u64::MAX))
    );
    assert_eq!(
        load_dst_and_payload(&IrInstr::LoadF64 {
            dst: 4,
            val: 2.0f64.to_bits()
        }),
        Some((4, 0x4000 | 2.0f64.to_bits()))
    );
    let mut h: u64 = 0xcbf29ce484222325;
    for b in "ab".bytes() {
        h ^= b as u64;
        h = h.wrapping_mul(0x100000001b3);
    }
    assert_eq!(
        load_dst_and_payload(&IrInstr::LoadVar {
            dst: 5,
            name: "ab".to_string()
        }),
        Some((5, 0x5000 ^ h))
    );
    assert_eq!(load_dst_and_payload(&IrInstr::LoadU32 { dst: 6, val: 1 }), None);
}

#[test]
fn crystalfold_idempotent() {
    let pass = CrystalFoldPass;
    let base = IrFunction {
        name: "main".to_string(),
        instrs: vec![
            IrInstr::LoadBool { dst: 0, val: true },
            IrInstr::LoadBool { dst: 1, val: false },
            IrInstr::BoolAnd {
                dst: 2,
                lhs: 0,
                rhs: 1,
            },
            IrInstr::LoadF64 {
                dst: 3,
                val: 2.0f64.to_bits(),
            },
            IrInstr::LoadF64 {
                dst: 4,
                val: 3.0f64.to_bits(),
            },
            IrInstr::AddF64 {
                dst: 5,
                lhs: 3,
                rhs: 4,
            },
            IrInstr::Ret { src: Some(5) },
        ],
    };

    let mut m1 = IrModule {
        functions: vec![base.clone()],
    };
    let r1 = pass.run(&mut m1, &native_f64);
    assert!(r1.changed);

    let mut m2 = m1.clone();
    let r2 = pass.run(&mut m2, &native_f64);
    assert!(!r2.changed);
    assert_eq!(m1, m2);
}

#[test]
fn crystalfold_folds_constants_to_loads() {
    let mut instrs = vec![
        IrInstr::LoadBool { dst: 0, val: true },
        IrInstr::LoadBool { dst: 1, val: false },
        IrInstr::BoolAnd {
            dst: 2,
            lhs: 0,
            rhs: 1,
        },
        IrInstr::LoadF64 {
            dst: 3,
            val: 2.0f64.to_bits(),
        },
        IrInstr::LoadF64 {
            dst: 4,
            val: 3.0f64.to_bits(),
        },
        IrInstr::AddF64 {
            dst: 5,
            lhs: 3,
            rhs: 4,
        },
        IrInstr::Ret { src: Some(5) },
    ];
    let n = fold_constants_and_identities(&mut instrs, &native_f64);
    assert_eq!(n, 2);
    assert_eq!(instrs[2], IrInstr::LoadBool { dst: 2, val: false });
    assert_eq!(
        instrs[5],
        IrInstr::LoadF64 {
            dst: 5,
            val: 5.0f64.to_bits()
        }
    );
}

#[test]
fn crystalfold_quad_identities_and_absorption() {
    let mut instrs = vec![
        IrInstr::LoadQ {
            dst: 1,
            val: QuadVal::S,
        },
        IrInstr::QAnd {
            dst: 0,
            lhs: 0,
            rhs: 1,
        },
        IrInstr::LoadQ {
            dst: 2,
            val: QuadVal::N,
        },
        IrInstr::QAnd {
            dst: 3,
            lhs: 0,
            rhs: 2,
        },
        IrInstr::LoadQ {
            dst: 4,
            val: QuadVal::T,
        },
        IrInstr::QNot { dst: 5, src: 4 },
        IrInstr::QImpl {
            dst: 6,
            lhs: 4,
            rhs: 2,
        },
        IrInstr::Ret { src: None },
    ];
    let n = fold_constants_and_identities(&mut instrs, &native_f64);
    assert_eq!(n, 4);
    assert_eq!(
        instrs,
        vec![
            IrInstr::LoadQ {
                dst: 1,
                val: QuadVal::S
            },
            IrInstr::LoadQ {
                dst: 2,
                val: QuadVal::N
            },
            IrInstr::LoadQ {
                dst: 3,
                val: QuadVal::N
            },
            IrInstr::LoadQ {
                dst: 4,
                val: QuadVal::T
            },
            IrInstr::LoadQ {
                dst: 5,
                val: QuadVal::F
            },
            IrInstr::LoadQ {
                dst: 6,
                val: QuadVal::F
            },
            IrInstr::Ret { src: None },
        ]
    );
}

#[test]
fn crystalfold_forgets_constants_at_labels_and_keeps_zero_division() {
    let mut instrs = vec![
        IrInstr::LoadBool { dst: 0, val: true },
        label("l"),
        IrInstr::BoolNot { dst: 1, src: 0 },
        IrInstr::LoadF64 {
            dst: 2,
            val: 1.0f64.to_bits(),
        },
        IrInstr::LoadF64 {
            dst: 3,
            val: (-0.0f64).to_bits(),
        },
        IrInstr::DivF64 {
            dst: 4,
            lhs: 2,
            rhs: 3,
        },
        IrInstr::MulF64 {
            dst: 5,
            lhs: 5,
            rhs: 2,
        },
        IrInstr::Ret { src: None },
    ];
    let n = fold_constants_and_identities(&mut instrs, &native_f64);
    assert_eq!(n, 1);
    assert_eq!(instrs[2], IrInstr::BoolNot { dst: 1, src: 0 });
    assert_eq!(
        instrs[5],
        IrInstr::DivF64 {
            dst: 4,
            lhs: 2,
            rhs: 3
        }
    );
    assert_eq!(instrs.len(), 7);
}

#[test]
fn const_eq_follows_ieee_for_f64() {
    let nan = f64::NAN.to_bits();
    assert!(!const_eq(ConstVal::F64(nan), ConstVal::F64(nan)));
    assert!(const_eq(
        ConstVal::F64(0.0f64.to_bits()),
        ConstVal::F64((-0.0f64).to_bits())
    ));
    assert!(!const_eq(ConstVal::U32(1), ConstVal::U32(1)));
    assert!(const_eq(ConstVal::I32(-4), ConstVal::I32(-4)));
    assert!(!const_eq(ConstVal::I32(1), ConstVal::Fx(1)));
}

#[test]
fn default_pipeline_runs_crystalfold() {
    let mut functions = vec![IrFunction {
        name: "f".to_string(),
        instrs: vec![
            IrInstr::LoadI32 { dst: 0, val: 3 },
            IrInstr::LoadI32 { dst: 1, val: 3 },
            IrInstr::CmpNe {
                dst: 2,
                lhs: 0,
                rhs: 1,
            },
            IrInstr::Ret { src: Some(2) },
        ],
    }];
    let report = run_default_opt_passes(&mut functions, &native_f64);
    assert_eq!(
        report,
        OptReport {
            changed: true,
            num_rewrites: 1
        }
    );
    assert_eq!(functions[0].instrs[2], IrInstr::LoadBool { dst: 2, val: false });
}

#[test]
fn opt_report_merge_saturates() {
    let mut r = OptReport {
        changed: false,
        num_rewrites: u32::MAX - 1,
    };
    r.merge(OptReport {
        changed: true,
        num_rewrites: 5,
    });
    assert_eq!(
        r,
        OptReport {
            changed: true,
            num_rewrites: u32::MAX
        }
    );
    assert_eq!(OptReport::default(), OptReport {
        changed: false,
        num_rewrites: 0
    });
}

#[test]
fn validate_ir_reports_each_defect() {
    let dup = IrFunction {
        name: "f".to_string(),
        instrs: vec![label("a"), label("a")],
    };
    let e = validate_ir(&dup).unwrap_err();
    assert_eq!(e.pos, 1);
    assert_eq!(e.message, "duplicate label 'a' in 'f'");

    let no_ret = IrFunction {
        name: "g".to_string(),
        instrs: vec![label("a"), jmp("a")],
    };
    let e = validate_ir(&no_ret).unwrap_err();
    assert_eq!(e.pos, 0);
    assert_eq!(e.message, "function 'g' has no RET");

    let bad_jump = IrFunction {
        name: "h".to_string(),
        instrs: vec![
            IrInstr::JmpIf {
                cond: 0,
                label: "x".to_string(),
            },
            IrInstr::Ret { src: None },
        ],
    };
    let e = validate_ir(&bad_jump).unwrap_err();
    assert_eq!(e.pos, 0);
    assert_eq!(e.message, "jump to unknown label 'x' in 'h'");

    let ok = IrFunction {
        name: "k".to_string(),
        instrs: vec![label("a"), jmp("a"), IrInstr::Ret { src: None }],
    };
    assert!(validate_ir(&ok).is_ok());
}

#[test]
fn opt_removes_unreachable_and_noop_jmp() {
    let mut ir = vec![IrFunction {
        name: "main".to_string(),
        instrs: vec![
            IrInstr::Label {
                name: "entry".to_string(),
            },
            IrInstr::Jmp {
                label: "l1".to_string(),
            },
            IrInstr::LoadBool { dst: 0, val: true },
            IrInstr::Label {
                name: "l1".to_string(),
            },
            IrInstr::Ret { src: None },
        ],
    }];
    let report = run_default_opt_passes(&mut ir, &native_f64);
    assert!(report.changed);
    assert!(matches!(ir[0].instrs[0], IrInstr::Label { .. }));
    assert!(ir[0]
        .instrs
        .iter()
        .all(|i| !matches!(i, IrInstr::LoadBool { dst: 0, val: true })));
}

#[test]
fn opt_removes_redundant_consecutive_loads() {
    let mut ir = vec![IrFunction {
        name: "main".to_string(),
        instrs: vec![
            IrInstr::LoadI32 { dst: 1, val: 10 },
            IrInstr::LoadI32 { dst: 1, val: 11 },
            IrInstr::Ret { src: Some(1) },
        ],
    }];
    let report = run_default_opt_passes(&mut ir, &native_f64);
    assert!(report.changed);
    let loads = ir[0]
        .instrs
        .iter()
        .filter(|i| matches!(i, IrInstr::LoadI32 { dst: 1, .. }))
        .count();
    assert_eq!(loads, 1);
    assert!(matches!(
        ir[0].instrs[0],
        IrInstr::LoadI32 { dst: 1, val: 11 }
    ));
}

#[test]
fn opt_folds_bool_and_f64_constants() {
    let f = IrFunction {
        name: "main".to_string(),
        instrs: vec![
            IrInstr::LoadBool { dst: 0, val: true },
            IrInstr::LoadBool { dst: 1, val: false },
            IrInstr::BoolAnd {
                dst: 2,
                lhs: 0,
                rhs: 1,
            },
            IrInstr::LoadF64 { dst: 3, val: 2.0f64.to_bits() },
            IrInstr::LoadF64 { dst: 4, val: 3.0f64.to_bits() },
            IrInstr::AddF64 {
                dst: 5,
                lhs: 3,
                rhs: 4,
            },
            IrInstr::Ret { src: Some(5) },
        ],
    };
    let mut ir = vec![f];
    let report = run_default_opt_passes(&mut ir, &native_f64);
    assert!(report.changed);
    let f = &ir[0];
    assert!(f
        .instrs
        .iter()
        .any(|i| matches!(i, IrInstr::LoadBool { dst: 2, val: false })));
    assert!(f.instrs.iter().any(|i| matches!(
        i,
        IrInstr::LoadF64 { dst: 5, val } if (f64::from_bits(*val) - 5.0).abs() < f64::EPSILON
    )));
}
