use sigil_frontend_emp::flag_check::{
    branch_target, transfer_target_sym, branch_cond, canonical_cc, check_flag_unused, check_result_invalid_path,
    conditional_out_edge_credits, entry_instr_idx, instr_span, negate_cc, regs_mentioned, Cfg,
    Edge, FlagFiring, FlagFiringKind,
};
use sigil_frontend_emp::value::{CodeItem, CodeOperand, Cpu, Reg, Span, Z80Cond};

fn sp() -> Span {
    Span { source: 0, start: 0, end: 0 }
}
fn at(start: u32) -> Span {
    Span { source: 0, start, end: start + 1 }
}
fn instr(mnemonic: &str, ops: Vec<CodeOperand>) -> CodeItem {
    CodeItem::Instr { mnemonic: mnemonic.to_string(), ops, span: sp() }
}
fn instr_at(mnemonic: &str, ops: Vec<CodeOperand>, start: u32) -> CodeItem {
    CodeItem::Instr { mnemonic: mnemonic.to_string(), ops, span: at(start) }
}
fn label(name: &str) -> CodeItem {
    CodeItem::Label { name: name.to_string(), export: false, span: sp() }
}
fn sym(n: &str) -> CodeOperand {
    CodeOperand::Sym(n.to_string())
}
fn cc(c: Z80Cond) -> CodeOperand {
    CodeOperand::Z80Cc(c)
}
fn carry_callees(name: &str) -> Vec<(String, Vec<String>)> {
    vec![(name.to_string(), vec!["carry".to_string()])]
}

// ---- the edge model -------------------------------------------------------

#[test]
fn a_tail_conditional_return_names_its_two_ends_apart() {
    let items = vec![instr("nop", vec![]), instr("ret", vec![cc(Z80Cond::Z)])];
    let cfg = Cfg::build(&items);
    let edges = cfg.z80_edges(1);
    assert_eq!(edges.len(), 2);
    assert_ne!(edges[0], edges[1], "the two ends of a tail `ret cc` are not the same fact");
    assert_eq!(edges, vec![Edge::Return, Edge::FallOff]);
}

#[test]
fn a_bsr_calls_it_does_not_branch() {
    let items = vec![
        instr("bsr", vec![sym(".helper")]),
        instr("rts", vec![]),
        label(".helper"),
        instr("nop", vec![]),
        instr("rts", vec![]),
    ];
    let cfg = Cfg::build(&items);
    assert_eq!(cfg.edges(0), vec![Edge::Follow(1)], "`bsr` calls; it does not branch");
}

#[test]
fn a_conditional_z80_call_calls_it_does_not_branch() {
    let local = vec![
        instr("call", vec![cc(Z80Cond::Nz), sym(".helper")]),
        instr("ret", vec![]),
        label(".helper"),
        instr("nop", vec![]),
        instr("ret", vec![]),
    ];
    let cfg = Cfg::build(&local);
    assert_eq!(
        cfg.z80_edges(0),
        vec![Edge::Follow(1)],
        "the callee is not a successor of the caller"
    );

    let external = vec![
        instr("call", vec![cc(Z80Cond::Nz), sym("Fm_NoteOff")]),
        instr("ret", vec![]),
    ];
    let cfg = Cfg::build(&external);
    assert_eq!(cfg.z80_edges(0), vec![Edge::Follow(1)], "a call comes back");

    let tail = vec![instr("call", vec![cc(Z80Cond::Nz), sym("Fm_NoteOff")])];
    let cfg = Cfg::build(&tail);
    assert_eq!(cfg.z80_edges(0), vec![Edge::FallOff]);
}

#[test]
fn no_call_mnemonic_yields_a_transfer_out_edge() {
    for m in ["jsr", "jbsr", "bsr"] {
        let items = vec![instr(m, vec![sym("Elsewhere")]), instr("rts", vec![])];
        let cfg = Cfg::build(&items);
        assert_eq!(cfg.edges(0), vec![Edge::Follow(1)], "68k `{m}` comes back");
    }
    for m in ["call", "rst"] {
        let items = vec![instr(m, vec![sym("Elsewhere")]), instr("ret", vec![])];
        let cfg = Cfg::build(&items);
        assert_eq!(cfg.z80_edges(0), vec![Edge::Follow(1)], "z80 `{m}` comes back");
    }
}

#[test]
fn a_jump_to_a_closing_label_falls_off_it_does_not_transfer_out() {
    let items = vec![
        instr("call", vec![sym("FlagCallee")]),
        instr("jr", vec![sym(".done")]),
        label(".done"),
    ];
    let cfg = Cfg::build(&items);
    assert_eq!(cfg.z80_edges(1), vec![Edge::FallOff], "`.done` closes this proc");

    let guarded = vec![
        instr("call", vec![sym("FlagCallee")]),
        instr("jr", vec![cc(Z80Cond::Z), sym(".done")]),
        instr("ret", vec![]),
        label(".done"),
    ];
    let cfg = Cfg::build(&guarded);
    assert_eq!(cfg.z80_edges(1), vec![Edge::FallOff, Edge::Follow(2)]);

    let external = vec![
        instr("call", vec![sym("FlagCallee")]),
        instr("jr", vec![sym("Elsewhere")]),
    ];
    let cfg = Cfg::build(&external);
    assert_eq!(cfg.z80_edges(1), vec![Edge::TailOut]);
}

#[test]
fn a_68k_jump_to_a_closing_label_falls_off_it_does_not_transfer_out() {
    let uncond = vec![
        instr("jsr", vec![sym("FlagCallee")]),
        instr("jbra", vec![sym(".done")]),
        label(".done"),
    ];
    let cfg = Cfg::build(&uncond);
    assert_eq!(cfg.edges(1), vec![Edge::FallOff], "`.done` closes this 68k proc");

    let guarded = vec![
        instr("jsr", vec![sym("FlagCallee")]),
        instr("beq", vec![sym(".done")]),
        instr("nop", vec![]),
        label(".done"),
    ];
    let cfg = Cfg::build(&guarded);
    assert_eq!(cfg.edges(1), vec![Edge::FallOff, Edge::Follow(2)]);

    let external_uncond = vec![instr("jbra", vec![sym("Elsewhere")])];
    assert_eq!(Cfg::build(&external_uncond).edges(0), vec![Edge::TailOut]);
    let external_cond = vec![instr("beq", vec![sym("Elsewhere")])];
    assert_eq!(
        Cfg::build(&external_cond).edges(0),
        vec![Edge::BranchOut, Edge::FallOff],
        "the conditional's taken edge leaves as a `BranchOut`; the fall-through \
         runs off the end"
    );

    let in_body = vec![
        instr("jbra", vec![sym(".loop")]),
        label(".loop"),
        instr("nop", vec![]),
        instr("rts", vec![]),
    ];
    assert_eq!(Cfg::build(&in_body).edges(0), vec![Edge::Follow(2)]);
}

#[test]
fn the_z80_return_table_is_classified_whole() {
    for m in ["ret", "reti", "retn"] {
        let bare = vec![instr(m, vec![])];
        assert_eq!(Cfg::build(&bare).z80_edges(0), vec![Edge::Return], "`{m}`");
        let guarded = vec![instr(m, vec![cc(Z80Cond::Z)])];
        assert_eq!(
            Cfg::build(&guarded).z80_edges(0),
            vec![Edge::Return, Edge::FallOff],
            "`{m} cc`"
        );
    }
}

#[test]
fn the_builder_owns_the_return_table_not_its_consumers() {
    let items = vec![instr("ret", vec![])];
    let cfg = Cfg::build(&items);
    assert_eq!(cfg.z80_edges(0), vec![Edge::Return]);
    assert_eq!(cfg.edges(0), vec![Edge::FallOff], "`ret` is no 68k terminator");

    let items = vec![instr("rts", vec![])];
    let cfg = Cfg::build(&items);
    assert_eq!(cfg.edges(0), vec![Edge::Return]);
    assert_eq!(cfg.z80_edges(0), vec![Edge::FallOff], "`rts` is no Z80 terminator");
}

#[test]
fn a_branch_out_always_has_a_sibling_and_a_tail_out_never_does() {
    let conditional: Vec<Vec<CodeItem>> = vec![
        vec![instr("beq", vec![sym("Elsewhere")]), instr("rts", vec![])],
        vec![
            instr("dbra", vec![CodeOperand::Reg(Reg::D0), sym("Elsewhere")]),
            instr("rts", vec![]),
        ],
        vec![instr("bne", vec![sym("Elsewhere")])],
        vec![instr("jr", vec![cc(Z80Cond::Z), sym("Elsewhere")]), instr("ret", vec![])],
        vec![instr("jp", vec![cc(Z80Cond::Nz), sym("Elsewhere")]), instr("ret", vec![])],
        vec![instr("djnz", vec![sym("Elsewhere")]), instr("ret", vec![])],
        vec![instr("djnz", vec![sym("Elsewhere")])],
    ];
    let mut branch_outs = 0;
    for items in &conditional {
        let cfg = Cfg::build(items);
        for edges in [cfg.edges(0), cfg.z80_edges(0)] {
            if edges.contains(&Edge::BranchOut) {
                branch_outs += 1;
                assert!(
                    edges.len() >= 2,
                    "a `BranchOut` must carry a sibling local edge, got {edges:?}"
                );
                assert!(
                    !edges.contains(&Edge::TailOut),
                    "the two flavors never share an instruction: {edges:?}"
                );
            }
        }
    }
    assert!(branch_outs >= 7, "the sweep observed only {branch_outs} `BranchOut` edges");

    let unconditional: Vec<Vec<CodeItem>> = vec![
        vec![instr("jbra", vec![sym("Elsewhere")])],
        vec![instr("bra", vec![sym("Elsewhere")])],
        vec![instr("jmp", vec![CodeOperand::Ind(Reg::A0)])],
        vec![instr("jp", vec![sym("Elsewhere")])],
        vec![instr("jr", vec![sym("Elsewhere")])],
        vec![instr("jp", vec![CodeOperand::Z80IndHl])],
    ];
    let mut tail_outs = 0;
    for items in &unconditional {
        let cfg = Cfg::build(items);
        for edges in [cfg.edges(0), cfg.z80_edges(0)] {
            if edges.contains(&Edge::TailOut) {
                tail_outs += 1;
                assert_eq!(edges, vec![Edge::TailOut], "a `TailOut` is the only edge");
            }
        }
    }
    assert!(tail_outs >= 6, "the sweep observed only {tail_outs} `TailOut` edges");
}

#[test]
fn a_computed_transfer_is_a_singleton_tail_out() {
    let m68k = vec![instr("jmp", vec![CodeOperand::Ind(Reg::A0)])];
    assert_eq!(Cfg::build(&m68k).edges(0), vec![Edge::TailOut]);

    let z80 = vec![instr("jp", vec![CodeOperand::Z80IndHl])];
    assert_eq!(Cfg::build(&z80).z80_edges(0), vec![Edge::TailOut]);
}

#[test]
fn a_djnz_leg_that_leaves_the_body_keeps_its_edge() {
    let loop_back = vec![
        label(".spin"),
        instr("nop", vec![]),
        instr("djnz", vec![sym(".spin")]),
        instr("ret", vec![]),
    ];
    let cfg = Cfg::build(&loop_back);
    assert_eq!(cfg.z80_edges(2), vec![Edge::Follow(1), Edge::Follow(3)]);

    let external = vec![instr("djnz", vec![sym("Elsewhere")]), instr("ret", vec![])];
    let cfg = Cfg::build(&external);
    assert_eq!(cfg.z80_edges(0), vec![Edge::BranchOut, Edge::Follow(1)]);

    let trailing = vec![
        instr("djnz", vec![sym(".done")]),
        instr("ret", vec![]),
        label(".done"),
    ];
    let cfg = Cfg::build(&trailing);
    assert_eq!(cfg.z80_edges(0), vec![Edge::FallOff, Edge::Follow(1)]);

    let external_closing = vec![instr("djnz", vec![sym("Elsewhere")])];
    assert_eq!(
        Cfg::build(&external_closing).z80_edges(0),
        vec![Edge::BranchOut, Edge::FallOff]
    );
}

// ---- the graph's lookups ---------------------------------------------------

#[test]
fn labels_target_the_next_instruction_and_the_last_definition_wins() {
    let items = vec![
        label(".a"),
        CodeItem::Data { bytes: vec![1, 2], span: sp() },
        instr("nop", vec![]),
        label(".a"),
        instr("rts", vec![]),
        label(".end"),
    ];
    let cfg = Cfg::build(&items);
    assert_eq!(cfg.label_index(".a"), Some(4));
    assert_eq!(cfg.label_index(".end"), None);
    assert!(cfg.is_local_label(".end"));
    assert!(!cfg.is_local_label("Elsewhere"));
    assert_eq!(cfg.next_instr(2), Some(4));
    assert_eq!(cfg.next_instr(4), None);
    assert_eq!(cfg.next_instr(0), None);
    assert_eq!(entry_instr_idx(&items), Some(2));
    assert_eq!(entry_instr_idx(&[label(".x")]), None);
    assert_eq!(instr_span(&items, 2), Some(sp()));
    assert_eq!(instr_span(&items, 1), None);
    assert_eq!(instr_span(&items, 9), None);
}

// ---- [call.flag-result-unused] -------------------------------------------

#[test]
fn a_call_whose_carry_is_tested_does_not_fire() {
    let items = vec![
        instr_at("jsr", vec![sym("Check")], 10),
        instr("movem", vec![]),
        instr("bcs", vec![sym(".bad")]),
        instr("rts", vec![]),
        label(".bad"),
        instr("rts", vec![]),
    ];
    let fired = check_flag_unused("Proc", &items, &carry_callees("Check"), &[], Cpu::M68000);
    assert!(fired.is_empty(), "{fired:?}");
}

#[test]
fn a_call_whose_carry_reaches_a_return_fires_once() {
    let items = vec![instr_at("jsr", vec![sym("Check")], 10), instr("rts", vec![])];
    let fired = check_flag_unused("Proc", &items, &carry_callees("Check"), &[], Cpu::M68000);
    assert_eq!(
        fired,
        vec![FlagFiring {
            proc: "Proc".to_string(),
            callee: "Check".to_string(),
            flag: "carry".to_string(),
            span: at(10),
            kind: FlagFiringKind::Unused,
        }]
    );
}

#[test]
fn a_redefine_before_the_test_fires_and_a_discard_silences_it() {
    let items = vec![
        instr_at("jsr", vec![sym("Check")], 10),
        instr("moveq", vec![CodeOperand::Imm(0), CodeOperand::Reg(Reg::D0)]),
        instr("bcs", vec![sym(".bad")]),
        instr("rts", vec![]),
        label(".bad"),
        instr("rts", vec![]),
    ];
    let fired = check_flag_unused("Proc", &items, &carry_callees("Check"), &[], Cpu::M68000);
    assert_eq!(fired.len(), 1);
    assert_eq!(fired[0].span, at(10));
    let silenced = check_flag_unused("Proc", &items, &carry_callees("Check"), &[at(10)], Cpu::M68000);
    assert!(silenced.is_empty());
}

#[test]
fn one_unconsumed_path_of_a_join_is_enough_to_fire() {
    // One side of the branch tests the carry; the other returns with it.
    let items = vec![
        instr_at("jsr", vec![sym("Check")], 10),
        instr("beq", vec![sym(".skip")]),
        instr("bcs", vec![sym(".bad")]),
        label(".skip"),
        instr("rts", vec![]),
        label(".bad"),
        instr("rts", vec![]),
    ];
    let fired = check_flag_unused("Proc", &items, &carry_callees("Check"), &[], Cpu::M68000);
    assert_eq!(fired.len(), 1);
}

#[test]
fn a_loop_without_a_consumer_terminates_and_a_tail_transfer_prunes() {
    let looped = vec![
        instr_at("jsr", vec![sym("Check")], 10),
        label(".spin"),
        instr("nop", vec![]),
        instr("jbra", vec![sym(".spin")]),
    ];
    let fired = check_flag_unused("Proc", &looped, &carry_callees("Check"), &[], Cpu::M68000);
    assert!(fired.is_empty(), "a loop that never exits never abandons the carry");

    let tail = vec![instr_at("jsr", vec![sym("Check")], 10), instr("jbra", vec![sym("Other")])];
    let fired = check_flag_unused("Proc", &tail, &carry_callees("Check"), &[], Cpu::M68000);
    assert!(fired.is_empty(), "the carry flows out with the tail transfer");
}

#[test]
fn only_callees_declaring_the_carry_are_checked() {
    let items = vec![
        instr_at("jsr", vec![sym("Plain")], 10),
        instr_at("jsr", vec![CodeOperand::Ind(Reg::A1)], 20),
        instr("rts", vec![]),
    ];
    let other_flag = vec![("Plain".to_string(), vec!["zero".to_string()])];
    assert!(check_flag_unused("Proc", &items, &other_flag, &[], Cpu::M68000).is_empty());
    assert!(check_flag_unused("Proc", &items, &carry_callees("Check"), &[], Cpu::M68000).is_empty());
}

#[test]
fn the_z80_walk_reads_carry_conditions_and_ret() {
    let tested = vec![
        instr_at("call", vec![sym("Check")], 10),
        instr("jr", vec![cc(Z80Cond::C), sym(".bad")]),
        instr("ret", vec![]),
        label(".bad"),
        instr("ret", vec![]),
    ];
    assert!(check_flag_unused("Proc", &tested, &carry_callees("Check"), &[], Cpu::Z80).is_empty());

    let untested = vec![
        instr_at("call", vec![sym("Check")], 10),
        instr("jr", vec![cc(Z80Cond::Z), sym(".bad")]),
        instr("ret", vec![]),
        label(".bad"),
        instr("ret", vec![]),
    ];
    assert_eq!(check_flag_unused("Proc", &untested, &carry_callees("Check"), &[], Cpu::Z80).len(), 1);

    let redefined = vec![
        instr_at("call", vec![sym("Check")], 10),
        instr("cp", vec![]),
        instr("ret", vec![cc(Z80Cond::C)]),
    ];
    assert_eq!(check_flag_unused("Proc", &redefined, &carry_callees("Check"), &[], Cpu::Z80).len(), 1);
}

// ---- [call.result-invalid-path] -----------------------------------------

#[test]
fn branch_conditions_are_canonical() {
    assert_eq!(branch_cond("bcc"), Some("cc"));
    assert_eq!(branch_cond("bhs"), Some("cc"));
    assert_eq!(branch_cond("blo"), Some("cs"));
    assert_eq!(branch_cond("seq"), Some("eq"));
    assert_eq!(branch_cond("bra"), None);
    assert_eq!(branch_cond("dbf"), None);
    assert_eq!(branch_cond("moveq"), None);
    assert_eq!(branch_cond(""), None);
    assert_eq!(negate_cc("hs"), Some("cs"));
    assert_eq!(negate_cc("lo"), Some("cc"));
    assert_eq!(negate_cc("gt"), Some("le"));
    assert_eq!(negate_cc("t"), None);
    assert_eq!(canonical_cc("hs"), "cc");
    assert_eq!(canonical_cc("lo"), "cs");
    assert_eq!(canonical_cc("eq"), "eq");
}

#[test]
fn every_condition_negates_back_to_its_canonical_spelling() {
    for c in [
        "cc", "hs", "cs", "lo", "eq", "ne", "hi", "ls", "pl", "mi", "vc", "vs", "ge", "lt", "gt", "le",
    ] {
        let n = negate_cc(c).unwrap();
        assert_eq!(negate_cc(n), Some(canonical_cc(c)), "{c}");
    }
}

#[test]
fn mentioned_registers_are_listed_once_in_order() {
    let ops = vec![
        CodeOperand::IndIdx { disp: 4, reg: Reg::A0, xn: Reg::D1 },
        CodeOperand::Reg(Reg::D1),
        CodeOperand::Imm(3),
        CodeOperand::PostInc(Reg::A2),
        CodeOperand::DispSymInd { sym: "Tbl".to_string(), reg: Reg::A0 },
    ];
    assert_eq!(regs_mentioned(&ops), vec![Reg::A0, Reg::D1, Reg::A2]);
    assert!(regs_mentioned(&[CodeOperand::Ccr, sym("X")]).is_empty());
}

fn cond_callees() -> Vec<(String, Vec<(String, String)>)> {
    vec![("Find".to_string(), vec![("d1".to_string(), "cc".to_string())])]
}

#[test]
fn a_read_on_the_invalid_path_fires_and_a_redefine_clears_it() {
    // `bcc .ok` takes the valid side; the fall-through is invalid and reads d1.
    let items = vec![
        instr_at("jsr", vec![sym("Find")], 10),
        instr("bcc", vec![sym(".ok")]),
        instr("move", vec![CodeOperand::Reg(Reg::D1), CodeOperand::Reg(Reg::D2)]),
        label(".ok"),
        instr("rts", vec![]),
    ];
    let written: Vec<Vec<Reg>> = vec![vec![], vec![], vec![Reg::D2], vec![], vec![]];
    let fired = check_result_invalid_path("Proc", &items, &cond_callees(), &[], &written);
    assert_eq!(
        fired,
        vec![FlagFiring {
            proc: "Proc".to_string(),
            callee: "Find".to_string(),
            flag: "cc".to_string(),
            span: at(10),
            kind: FlagFiringKind::InvalidPathRead { reg: "d1".to_string(), cc: "cc".to_string() },
        }]
    );

    let cleared = vec![
        instr_at("jsr", vec![sym("Find")], 10),
        instr("bcc", vec![sym(".ok")]),
        instr("moveq", vec![CodeOperand::Imm(0), CodeOperand::Reg(Reg::D1)]),
        instr("move", vec![CodeOperand::Reg(Reg::D1), CodeOperand::Reg(Reg::D2)]),
        label(".ok"),
        instr("rts", vec![]),
    ];
    let written: Vec<Vec<Reg>> = vec![vec![], vec![], vec![Reg::D1], vec![Reg::D2], vec![], vec![]];
    assert!(check_result_invalid_path("Proc", &cleared, &cond_callees(), &[], &written).is_empty());
}

#[test]
fn the_negated_guard_makes_the_taken_edge_invalid() {
    // `bcs .bad` tests the negation: the taken side is invalid.
    let items = vec![
        instr_at("jsr", vec![sym("Find")], 10),
        instr("bcs", vec![sym(".bad")]),
        instr("rts", vec![]),
        label(".bad"),
        instr("tst", vec![CodeOperand::Ind(Reg::D1)]),
        instr("rts", vec![]),
    ];
    let fired = check_result_invalid_path("Proc", &items, &cond_callees(), &[], &[]);
    assert_eq!(fired.len(), 1);

    // A call defining d1 on every return clears the invalid value first.
    let refreshed = vec![
        instr_at("jsr", vec![sym("Find")], 10),
        instr("bcs", vec![sym(".bad")]),
        instr("rts", vec![]),
        label(".bad"),
        instr("jsr", vec![sym("Reload")]),
        instr("tst", vec![CodeOperand::Ind(Reg::D1)]),
        instr("rts", vec![]),
    ];
    let outs = vec![("Reload".to_string(), vec!["d1".to_string()])];
    assert!(check_result_invalid_path("Proc", &refreshed, &cond_callees(), &outs, &[]).is_empty());
}

#[test]
fn an_unrelated_branch_or_redefine_bails() {
    let items = vec![
        instr_at("jsr", vec![sym("Find")], 10),
        instr("beq", vec![sym(".x")]),
        instr("move", vec![CodeOperand::Reg(Reg::D1), CodeOperand::Reg(Reg::D2)]),
        label(".x"),
        instr("rts", vec![]),
    ];
    assert!(check_result_invalid_path("Proc", &items, &cond_callees(), &[], &[]).is_empty());
    let cfg = Cfg::build(&items);
    assert_eq!(cfg.invalid_edge(0, "cc"), None);
    assert_eq!(cfg.invalid_edge(0, "zz"), None);

    let guarded = vec![
        instr_at("jsr", vec![sym("Find")], 10),
        instr("movem", vec![]),
        instr("bhs", vec![sym(".ok")]),
        instr("nop", vec![]),
        label(".ok"),
        instr("rts", vec![]),
    ];
    let cfg = Cfg::build(&guarded);
    assert_eq!(cfg.invalid_edge(0, "hs"), Some(3));
    assert_eq!(cfg.invalid_edge(0, "lo"), Some(5));
}

#[test]
fn the_success_edge_is_credited_only_across_transparent_straight_line_code() {
    let transparent = vec!["movem".to_string(), "nop".to_string()];
    let items = vec![
        instr_at("jsr", vec![sym("Find")], 10),
        instr("movem", vec![]),
        instr("bcc", vec![sym(".ok")]),
        instr("rts", vec![]),
        label(".ok"),
        instr("rts", vec![]),
    ];
    let cfg = Cfg::build(&items);
    assert_eq!(cfg.valid_edge(0, "cc", &transparent), Some((2, 5)));
    assert_eq!(cfg.valid_edge(0, "cs", &transparent), Some((2, 3)));
    assert_eq!(cfg.valid_edge(0, "cc", &[]), None);
    let credits = conditional_out_edge_credits(&cfg, &items, &cond_callees(), &transparent);
    assert_eq!(credits, vec![((2, 5), "d1".to_string())]);

    // A label between the call and the guard is a join: no credit.
    let joined = vec![
        instr_at("jsr", vec![sym("Find")], 10),
        label(".join"),
        instr("bcc", vec![sym(".ok")]),
        instr("rts", vec![]),
        label(".ok"),
        instr("rts", vec![]),
    ];
    let cfg = Cfg::build(&joined);
    assert_eq!(cfg.valid_edge(0, "cc", &transparent), None);
    assert!(conditional_out_edge_credits(&cfg, &joined, &cond_callees(), &transparent).is_empty());
}

#[test]
fn branch_and_transfer_targets_read_the_last_naming_operand() {
    let dbra = vec![CodeOperand::Reg(Reg::D0), sym(".loop")];
    assert_eq!(branch_target(&dbra), Some(".loop"));
    assert_eq!(transfer_target_sym(&dbra), Some(".loop"));
    let indirect = vec![CodeOperand::Ind(Reg::A1)];
    assert_eq!(branch_target(&indirect), None);
    assert_eq!(transfer_target_sym(&indirect), None);
    let offset = vec![CodeOperand::SymOff { sym: "Table".to_string(), off: 4 }];
    assert_eq!(branch_target(&offset), None);
    assert_eq!(transfer_target_sym(&offset), Some("Table"));
    let pinned = vec![CodeOperand::AbsSym { target: "Far".to_string(), long: true }];
    assert_eq!(branch_target(&pinned), None);
    assert_eq!(transfer_target_sym(&pinned), Some("Far"));
    let two = vec![sym("First"), CodeOperand::Imm(1), sym("Second")];
    assert_eq!(branch_target(&two), Some("Second"));
}
