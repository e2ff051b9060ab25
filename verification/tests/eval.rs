use ownership_sim::eval::{exhaustive, first_arm, run, Arm, Flow, Instr, Machine, Pattern, DEFAULT_LIMIT};
use ownership_sim::fault::{FaultKind, RunResult};
use ownership_sim::store::OwnState;
use ownership_sim::value::{Value, Width};

fn num(n: i128) -> Value {
    Value::Integer { width: Width::W32, signed: true, value: n }
}

fn text(s: &str) -> Value {
    Value::Text(String::from(s))
}

fn name(s: &str) -> String {
    String::from(s)
}

fn lit(v: Value) -> Box<Instr> {
    Box::new(Instr::Literal(v))
}

fn let_(n: &str, v: Value) -> Instr {
    Instr::Let(name(n), lit(v))
}

fn use_(n: &str) -> Instr {
    Instr::Use(name(n))
}

fn faulted(kind: FaultKind) -> RunResult {
    RunResult::Faulted(kind, kind.describe())
}

fn variant(tag: u32) -> Pattern {
    Pattern::Variant { tag, bind: None, by_ref: false }
}

fn some(v: Value) -> Value {
    Value::Enum { variants: 2, tag: 0, payload: Some(Box::new(v)) }
}

fn none() -> Value {
    Value::Enum { variants: 2, tag: 1, payload: None }
}

#[test]
fn empty_program_completes_with_unit() {
    assert_eq!(run(&vec![]), RunResult::Completed(Value::Unit));
}

#[test]
fn program_yields_the_value_of_its_last_instruction() {
    assert_eq!(run(&vec![Instr::Literal(num(1)), Instr::Literal(num(2))]), RunResult::Completed(num(2)));
    assert_eq!(run(&vec![let_("x", num(5))]), RunResult::Completed(Value::Unit));
    assert_eq!(run(&vec![let_("x", num(5)), use_("x")]), RunResult::Completed(num(5)));
}

#[test]
fn loop_with_break_value_evaluates_to_the_value() {
    let program = vec![Instr::Loop(vec![Instr::Break(Some(lit(num(5))))])];
    assert_eq!(run(&program), RunResult::Completed(num(5)));
}

#[test]
fn loop_with_bare_break_evaluates_to_unit() {
    let program = vec![Instr::Loop(vec![Instr::Break(None)])];
    assert_eq!(run(&program), RunResult::Completed(Value::Unit));
}

#[test]
fn loop_value_can_be_bound() {
    let program = vec![
        Instr::Let(name("five"), Box::new(Instr::Loop(vec![Instr::Break(Some(lit(num(5))))]))),
        use_("five"),
    ];
    assert_eq!(run(&program), RunResult::Completed(num(5)));
}

#[test]
fn loop_without_break_exceeds_the_limit() {
    let mut machine = Machine::new(3);
    let program = vec![Instr::Loop(vec![Instr::Print(lit(text("again")))])];
    assert_eq!(machine.run(&program), faulted(FaultKind::LimitExceeded));
    assert_eq!(machine.output, vec![name("again"), name("again"), name("again")]);
    assert_eq!(machine.limit, 3);
}

#[test]
fn loop_may_run_exactly_the_limit() {
    // The body breaks in the round in which the flag, set in the round before, is true.
    let body = vec![
        Instr::If(Box::new(use_("stop")), vec![Instr::Break(Some(lit(num(7))))], vec![]),
        Instr::Assign(name("stop"), lit(Value::Boolean(true))),
    ];
    let program = vec![let_("stop", Value::Boolean(false)), Instr::Loop(body)];
    let mut two = Machine::new(2);
    assert_eq!(two.run(&program), RunResult::Completed(num(7)));
    let mut one = Machine::new(1);
    assert_eq!(one.run(&program), faulted(FaultKind::LimitExceeded));
    let mut zero = Machine::new(0);
    assert_eq!(zero.run(&program), faulted(FaultKind::LimitExceeded));
}

#[test]
fn default_limit_is_a_million_rounds() {
    assert_eq!(DEFAULT_LIMIT, 1_000_000);
}

#[test]
fn while_reevaluates_its_condition() {
    let program = vec![
        let_("go", Value::Boolean(true)),
        Instr::While(
            Box::new(use_("go")),
            vec![Instr::Print(lit(text("round"))), Instr::Assign(name("go"), lit(Value::Boolean(false)))],
        ),
    ];
    let mut machine = Machine::new(10);
    assert_eq!(machine.run(&program), RunResult::Completed(Value::Unit));
    assert_eq!(machine.output, vec![name("round")]);
}

#[test]
fn while_with_false_condition_runs_no_round() {
    let mut machine = Machine::new(0);
    let program = vec![Instr::While(lit(Value::Boolean(false)), vec![Instr::Abort(name("never"))])];
    assert_eq!(machine.run(&program), RunResult::Completed(Value::Unit));
}

#[test]
fn while_stops_at_a_break_and_yields_unit() {
    let program = vec![Instr::While(lit(Value::Boolean(true)), vec![Instr::Break(Some(lit(num(9))))])];
    assert_eq!(run(&program), RunResult::Completed(Value::Unit));
}

#[test]
fn while_that_never_ends_exceeds_the_limit() {
    let mut machine = Machine::new(5);
    let program = vec![Instr::While(lit(Value::Boolean(true)), vec![])];
    assert_eq!(machine.run(&program), faulted(FaultKind::LimitExceeded));
}

#[test]
fn condition_that_is_not_boolean_is_a_type_mismatch() {
    assert_eq!(run(&vec![Instr::If(lit(num(1)), vec![], vec![])]), faulted(FaultKind::TypeMismatch));
    assert_eq!(run(&vec![Instr::While(lit(text("yes")), vec![])]), faulted(FaultKind::TypeMismatch));
}

#[test]
fn if_takes_the_branch_of_its_condition() {
    let choose = |b: bool| {
        vec![Instr::If(lit(Value::Boolean(b)), vec![Instr::Literal(num(10))], vec![Instr::Literal(num(0))])]
    };
    assert_eq!(run(&choose(true)), RunResult::Completed(num(10)));
    assert_eq!(run(&choose(false)), RunResult::Completed(num(0)));
}

#[test]
fn else_if_chain() {
    let chain = |a: bool, b: bool| {
        vec![Instr::If(
            lit(Value::Boolean(a)),
            vec![Instr::Literal(num(10))],
            vec![Instr::If(lit(Value::Boolean(b)), vec![Instr::Literal(num(5))], vec![Instr::Literal(num(0))])],
        )]
    };
    assert_eq!(run(&chain(true, false)), RunResult::Completed(num(10)));
    assert_eq!(run(&chain(false, true)), RunResult::Completed(num(5)));
    assert_eq!(run(&chain(false, false)), RunResult::Completed(num(0)));
}

#[test]
fn moved_binding_cannot_be_used() {
    let program = vec![let_("s", text("hi")), Instr::Let(name("taken"), Box::new(use_("s"))), use_("s")];
    let mut machine = Machine::new(10);
    assert_eq!(machine.run(&program), faulted(FaultKind::UseAfterMove));
    assert_eq!(machine.store.state(0), Some(OwnState::MovedOut));
    assert_eq!(machine.store.state(1), Some(OwnState::Dropped));
}

#[test]
fn moved_binding_cannot_be_matched_or_iterated() {
    let moved = |last: Instr| vec![let_("s", text("hi")), Instr::Let(name("t"), Box::new(use_("s"))), last];
    assert_eq!(run(&moved(Instr::Match(name("s"), vec![]))), faulted(FaultKind::UseAfterMove));
    assert_eq!(run(&moved(Instr::For(name("e"), name("s"), vec![]))), faulted(FaultKind::UseAfterMove));
    assert_eq!(run(&moved(Instr::Peek(name("s")))), faulted(FaultKind::BorrowConflict));
}

#[test]
fn moved_binding_can_be_assigned_again() {
    let program = vec![
        let_("s", text("hi")),
        Instr::Let(name("t"), Box::new(use_("s"))),
        Instr::Assign(name("s"), lit(text("again"))),
        use_("s"),
    ];
    assert_eq!(run(&program), RunResult::Completed(text("again")));
}

#[test]
fn copy_binding_can_be_used_again() {
    let program = vec![
        let_("i", num(5)),
        Instr::Let(name("a"), Box::new(use_("i"))),
        Instr::Let(name("b"), Box::new(use_("i"))),
        use_("i"),
    ];
    assert_eq!(run(&program), RunResult::Completed(num(5)));
}

#[test]
fn peek_does_not_consume() {
    let program = vec![
        let_("s", text("I get cloned!")),
        Instr::Let(name("copy"), Box::new(Instr::Peek(name("s")))),
        Instr::Print(Box::new(Instr::Peek(name("s")))),
        Instr::Print(Box::new(use_("copy"))),
        use_("s"),
    ];
    let mut machine = Machine::new(10);
    assert_eq!(machine.run(&program), RunResult::Completed(text("I get cloned!")));
    assert_eq!(machine.output, vec![name("I get cloned!"), name("I get cloned!")]);
}

#[test]
fn mutation_through_exclusive_borrow_then_release_then_move() {
    let program = vec![
        let_("s", text("hi")),
        Instr::Block(vec![
            Instr::Borrow { name: name("r"), target: name("s"), exclusive: true },
            Instr::Assign(name("r"), lit(text("bye"))),
        ]),
        use_("s"),
    ];
    assert_eq!(run(&program), RunResult::Completed(text("bye")));
}

#[test]
fn owner_cannot_be_used_while_exclusively_borrowed() {
    let with = |last: Instr| {
        vec![let_("x", num(10)), Instr::Borrow { name: name("r"), target: name("x"), exclusive: true }, last]
    };
    assert_eq!(run(&with(use_("x"))), faulted(FaultKind::UseWhileBorrowed));
    assert_eq!(run(&with(Instr::Assign(name("x"), lit(num(1))))), faulted(FaultKind::WriteWhileBorrowed));
    assert_eq!(run(&with(Instr::Peek(name("x")))), faulted(FaultKind::BorrowConflict));
    assert_eq!(
        run(&with(Instr::Borrow { name: name("q"), target: name("x"), exclusive: false })),
        faulted(FaultKind::BorrowConflict)
    );
    assert_eq!(
        run(&with(Instr::Borrow { name: name("q"), target: name("x"), exclusive: true })),
        faulted(FaultKind::BorrowConflict)
    );
    assert_eq!(run(&with(Instr::Assign(name("r"), lit(num(100))))), RunResult::Completed(Value::Unit));
}

#[test]
fn shared_borrows_coexist_and_forbid_writes() {
    let with = |last: Instr| {
        vec![
            let_("s", text("I get borrowed!")),
            Instr::Borrow { name: name("a"), target: name("s"), exclusive: false },
            Instr::Borrow { name: name("b"), target: name("a"), exclusive: false },
            last,
        ]
    };
    assert_eq!(run(&with(Instr::Peek(name("s")))), RunResult::Completed(text("I get borrowed!")));
    assert_eq!(run(&with(Instr::Peek(name("b")))), RunResult::Completed(text("I get borrowed!")));
    assert_eq!(run(&with(use_("s"))), faulted(FaultKind::UseWhileBorrowed));
    assert_eq!(run(&with(Instr::Assign(name("s"), lit(text("x"))))), faulted(FaultKind::WriteWhileBorrowed));
    assert_eq!(run(&with(Instr::Assign(name("a"), lit(text("x"))))), faulted(FaultKind::WriteWhileBorrowed));
    assert_eq!(
        run(&with(Instr::Borrow { name: name("w"), target: name("s"), exclusive: true })),
        faulted(FaultKind::BorrowConflict)
    );
}

#[test]
fn borrow_ends_with_the_scope_of_its_binding() {
    let mut machine = Machine::new(10);
    let program = vec![
        let_("x", num(10)),
        Instr::Block(vec![Instr::Borrow { name: name("r"), target: name("x"), exclusive: false }]),
        Instr::Block(vec![
            Instr::Borrow { name: name("w"), target: name("x"), exclusive: true },
            Instr::Assign(name("w"), lit(num(100))),
        ]),
        use_("x"),
    ];
    assert_eq!(machine.run(&program), RunResult::Completed(num(100)));
}

#[test]
fn unknown_names_fault() {
    assert_eq!(run(&vec![use_("nobody")]), faulted(FaultKind::UnknownName));
    assert_eq!(run(&vec![Instr::Peek(name("nobody"))]), faulted(FaultKind::UnknownName));
    assert_eq!(run(&vec![Instr::Assign(name("nobody"), lit(num(1)))]), faulted(FaultKind::UnknownName));
    assert_eq!(
        run(&vec![Instr::Borrow { name: name("r"), target: name("nobody"), exclusive: false }]),
        faulted(FaultKind::UnknownName)
    );
    assert_eq!(run(&vec![Instr::For(name("e"), name("nobody"), vec![])]), faulted(FaultKind::UnknownName));
    assert_eq!(run(&vec![Instr::Match(name("nobody"), vec![])]), faulted(FaultKind::UnknownName));
}

#[test]
fn binding_of_a_block_is_gone_after_the_block() {
    let program = vec![Instr::Block(vec![let_("inner", num(1))]), use_("inner")];
    assert_eq!(run(&program), faulted(FaultKind::UnknownName));
}

#[test]
fn print_appends_text_to_the_output() {
    let mut machine = Machine::new(10);
    let program = vec![Instr::Print(lit(text("VARIABLES"))), Instr::Print(lit(text("x = 5")))];
    assert_eq!(machine.run(&program), RunResult::Completed(Value::Unit));
    assert_eq!(machine.output, vec![name("VARIABLES"), name("x = 5")]);
    assert_eq!(machine.run(&vec![Instr::Print(lit(text("more")))]), RunResult::Completed(Value::Unit));
    assert_eq!(machine.output, vec![name("VARIABLES"), name("x = 5"), name("more")]);
}

#[test]
fn print_of_a_value_that_is_not_text_is_a_type_mismatch() {
    let mut machine = Machine::new(10);
    assert_eq!(machine.run(&vec![Instr::Print(lit(num(5)))]), faulted(FaultKind::TypeMismatch));
    assert_eq!(machine.output, Vec::<String>::new());
}

#[test]
fn for_over_a_copy_array_never_consumes_it() {
    let array = Value::Array(vec![num(1), num(2), num(3), num(4)]);
    let program = vec![
        let_("array", array),
        let_("seen", num(0)),
        Instr::For(name("elem"), name("array"), vec![Instr::Assign(name("seen"), Box::new(use_("elem")))]),
        Instr::Let(name("again"), Box::new(use_("array"))),
        use_("seen"),
    ];
    assert_eq!(run(&program), RunResult::Completed(num(4)));
}

#[test]
fn for_over_a_move_only_array_holds_a_shared_borrow() {
    let words = Value::Array(vec![text("one"), text("two")]);
    let mut machine = Machine::new(10);
    let program = vec![
        let_("words", words),
        Instr::For(name("w"), name("words"), vec![Instr::Print(Box::new(use_("w")))]),
        Instr::Peek(name("words")),
    ];
    assert_eq!(machine.run(&program), RunResult::Completed(Value::Array(vec![text("one"), text("two")])));
    assert_eq!(machine.output, vec![name("one"), name("two")]);
    let spoil = vec![
        let_("words", Value::Array(vec![text("one"), text("two")])),
        Instr::For(name("w"), name("words"), vec![Instr::Assign(name("words"), lit(Value::Unit))]),
    ];
    assert_eq!(run(&spoil), faulted(FaultKind::WriteWhileBorrowed));
}

#[test]
fn for_over_a_value_that_is_not_an_array_is_a_type_mismatch() {
    let program = vec![let_("x", num(5)), Instr::For(name("e"), name("x"), vec![])];
    assert_eq!(run(&program), faulted(FaultKind::TypeMismatch));
    let program = vec![let_("s", text("abc")), Instr::For(name("e"), name("s"), vec![]), use_("s")];
    assert_eq!(run(&program), faulted(FaultKind::TypeMismatch));
}

#[test]
fn for_stops_at_a_break() {
    let mut machine = Machine::new(10);
    let program = vec![
        let_("words", Value::Array(vec![text("one"), text("two"), text("three")])),
        Instr::For(
            name("w"),
            name("words"),
            vec![Instr::Print(Box::new(use_("w"))), Instr::Break(None)],
        ),
        use_("words"),
    ];
    assert_eq!(
        machine.run(&program),
        RunResult::Completed(Value::Array(vec![text("one"), text("two"), text("three")]))
    );
    assert_eq!(machine.output, vec![name("one")]);
}

#[test]
fn for_is_not_bounded_by_the_limit() {
    let mut machine = Machine::new(1);
    let program = vec![
        let_("array", Value::Array(vec![num(1), num(2), num(3), num(4)])),
        Instr::For(name("e"), name("array"), vec![Instr::Print(lit(text(".")))]),
    ];
    assert_eq!(machine.run(&program), RunResult::Completed(Value::Unit));
    assert_eq!(machine.output.len(), 4);
}

#[test]
fn match_with_one_arm_too_few_is_non_exhaustive() {
    // Three variants, arms for two of them, no wildcard: the value holds a covered variant.
    let en = Value::Enum { variants: 3, tag: 0, payload: None };
    let arms = vec![
        Arm { pattern: variant(0), body: vec![Instr::Literal(num(1))] },
        Arm { pattern: variant(1), body: vec![Instr::Literal(num(2))] },
    ];
    let program = vec![let_("en", en), Instr::Match(name("en"), arms)];
    assert_eq!(run(&program), faulted(FaultKind::NonExhaustiveMatch));
}

#[test]
fn match_with_a_repeated_arm_is_non_exhaustive() {
    let en = Value::Enum { variants: 2, tag: 0, payload: None };
    let arms = vec![
        Arm { pattern: variant(0), body: vec![] },
        Arm { pattern: variant(0), body: vec![] },
    ];
    assert_eq!(run(&vec![let_("en", en), Instr::Match(name("en"), arms)]), faulted(FaultKind::NonExhaustiveMatch));
}

#[test]
fn match_runs_the_first_arm_that_accepts() {
    let arms = || {
        vec![
            Arm { pattern: variant(0), body: vec![Instr::Literal(text("Variant 1!"))] },
            Arm { pattern: variant(1), body: vec![Instr::Literal(text("Variant 2"))] },
            Arm { pattern: Pattern::Wildcard, body: vec![Instr::Literal(text("other"))] },
        ]
    };
    let with = |tag: u32| vec![let_("en", Value::Enum { variants: 4, tag, payload: None }), Instr::Match(name("en"), arms())];
    assert_eq!(run(&with(0)), RunResult::Completed(text("Variant 1!")));
    assert_eq!(run(&with(1)), RunResult::Completed(text("Variant 2")));
    assert_eq!(run(&with(2)), RunResult::Completed(text("other")));
    assert_eq!(run(&with(3)), RunResult::Completed(text("other")));
}

#[test]
fn match_binding_by_value_consumes_the_matched_value() {
    let en = Value::Enum { variants: 2, tag: 1, payload: Some(Box::new(text("Something!"))) };
    let arms = vec![
        Arm { pattern: variant(0), body: vec![Instr::Literal(text("Variant 1!"))] },
        Arm {
            pattern: Pattern::Variant { tag: 1, bind: Some(name("value")), by_ref: false },
            body: vec![use_("value")],
        },
    ];
    let mut machine = Machine::new(10);
    let program = vec![let_("en", en), Instr::Match(name("en"), arms)];
    assert_eq!(machine.eval(&program[0]), Flow::Normal(Value::Unit));
    assert_eq!(machine.eval(&program[1]), Flow::Normal(text("Something!")));
    assert_eq!(machine.store.state(0), Some(OwnState::MovedOut));
    assert_eq!(machine.eval(&use_("en")), Flow::Faulted(ownership_sim::fault::Fault::of(FaultKind::UseAfterMove)));
}

#[test]
fn match_binding_by_reference_borrows_for_the_arm() {
    let en = || Value::Enum { variants: 2, tag: 1, payload: Some(Box::new(text("Something!"))) };
    let arms = |body: Vec<Instr>| {
        vec![
            Arm { pattern: variant(0), body: vec![] },
            Arm { pattern: Pattern::Variant { tag: 1, bind: Some(name("value")), by_ref: true }, body },
        ]
    };
    let kept = vec![
        let_("en", en()),
        Instr::Match(name("en"), arms(vec![Instr::Print(Box::new(use_("value")))])),
        use_("en"),
    ];
    let mut machine = Machine::new(10);
    assert_eq!(machine.run(&kept), RunResult::Completed(en()));
    assert_eq!(machine.output, vec![name("Something!")]);
    let moved_inside = vec![let_("en", en()), Instr::Match(name("en"), arms(vec![use_("en")]))];
    assert_eq!(run(&moved_inside), faulted(FaultKind::UseWhileBorrowed));
}

#[test]
fn match_binding_of_a_copy_payload_keeps_the_matched_value() {
    let program = vec![
        let_("option", some(num(32))),
        Instr::Match(
            name("option"),
            vec![
                Arm {
                    pattern: Pattern::Variant { tag: 0, bind: Some(name("v")), by_ref: false },
                    body: vec![use_("v")],
                },
                Arm { pattern: variant(1), body: vec![Instr::Literal(num(0))] },
            ],
        ),
        use_("option"),
    ];
    assert_eq!(run(&program), RunResult::Completed(some(num(32))));
}

#[test]
fn match_binding_without_a_payload_is_a_type_mismatch() {
    let program = vec![
        let_("option", none()),
        Instr::Match(
            name("option"),
            vec![
                Arm { pattern: variant(0), body: vec![] },
                Arm { pattern: Pattern::Variant { tag: 1, bind: Some(name("v")), by_ref: false }, body: vec![] },
            ],
        ),
    ];
    assert_eq!(run(&program), faulted(FaultKind::TypeMismatch));
}

#[test]
fn match_on_a_value_that_is_not_an_enum_is_a_type_mismatch() {
    let program = vec![let_("x", num(5)), Instr::Match(name("x"), vec![Arm { pattern: Pattern::Wildcard, body: vec![] }])];
    assert_eq!(run(&program), faulted(FaultKind::TypeMismatch));
}

#[test]
fn exhaustive_counts_variants_not_arms() {
    let arms = |tags: &[u32]| tags.iter().map(|t| Arm { pattern: variant(*t), body: vec![] }).collect::<Vec<Arm>>();
    assert!(exhaustive(&arms(&[0, 1]), 2));
    assert!(exhaustive(&arms(&[1, 0, 1]), 2));
    assert!(!exhaustive(&arms(&[0]), 2));
    assert!(!exhaustive(&arms(&[0, 0]), 2));
    assert!(!exhaustive(&arms(&[0, 2, 3]), 3));
    assert!(exhaustive(&arms(&[]), 0));
    assert!(!exhaustive(&arms(&[]), 1));
    assert!(exhaustive(&vec![Arm { pattern: Pattern::Wildcard, body: vec![] }], u32::MAX));
    assert!(!exhaustive(&arms(&[0, 1, 2]), u32::MAX));
}

#[test]
fn first_arm_is_the_first_that_accepts() {
    let arms = vec![
        Arm { pattern: variant(2), body: vec![] },
        Arm { pattern: variant(0), body: vec![] },
        Arm { pattern: Pattern::Wildcard, body: vec![] },
        Arm { pattern: variant(0), body: vec![] },
    ];
    assert_eq!(first_arm(&arms, 0), 1);
    assert_eq!(first_arm(&arms, 2), 0);
    assert_eq!(first_arm(&arms, 7), 2);
    assert_eq!(first_arm(&vec![], 0), 0);
    assert_eq!(first_arm(&vec![Arm { pattern: variant(1), body: vec![] }], 0), 1);
}

#[test]
fn extract_yields_the_payload_of_a_success() {
    assert_eq!(run(&vec![Instr::Extract(lit(some(num(32))))]), RunResult::Completed(num(32)));
}

#[test]
fn extract_from_an_error_or_an_absent_value_faults() {
    assert_eq!(run(&vec![Instr::Extract(lit(none()))]), faulted(FaultKind::UncheckedExtraction));
    let err = Value::Enum { variants: 2, tag: 1, payload: Some(Box::new(text("bad"))) };
    assert_eq!(run(&vec![Instr::Extract(lit(err))]), faulted(FaultKind::UncheckedExtraction));
    assert_eq!(run(&vec![Instr::Extract(lit(num(5)))]), faulted(FaultKind::TypeMismatch));
}

#[test]
fn abort_reports_its_message_verbatim() {
    let program = vec![Instr::Print(lit(text("before"))), Instr::Abort(name("i wasn't 5! It was actually 9000")), Instr::Print(lit(text("after")))];
    let mut machine = Machine::new(10);
    assert_eq!(
        machine.run(&program),
        RunResult::Faulted(FaultKind::Abort, name("i wasn't 5! It was actually 9000"))
    );
    assert_eq!(machine.output, vec![name("before")]);
}

#[test]
fn fault_runs_the_pending_scope_exits() {
    let program = vec![
        let_("a", text("a")),
        Instr::Borrow { name: name("r"), target: name("a"), exclusive: false },
        Instr::Block(vec![
            let_("b", text("b")),
            Instr::Borrow { name: name("w"), target: name("b"), exclusive: true },
            Instr::Loop(vec![let_("c", text("c")), Instr::Abort(name("stop"))]),
        ]),
    ];
    let mut machine = Machine::new(10);
    assert_eq!(machine.run(&program), RunResult::Faulted(FaultKind::Abort, name("stop")));
    assert_eq!(machine.table.depth(), 0);
    assert_eq!(machine.store.len(), 3);
    assert_eq!(machine.store.state(0), Some(OwnState::Dropped));
    assert_eq!(machine.store.state(1), Some(OwnState::Dropped));
    assert_eq!(machine.store.state(2), Some(OwnState::Dropped));
}

#[test]
fn break_leaves_scopes_behind_in_order() {
    let program = vec![
        let_("x", num(1)),
        Instr::Loop(vec![
            Instr::Borrow { name: name("r"), target: name("x"), exclusive: true },
            Instr::Block(vec![Instr::Break(Some(lit(text("out"))))]),
        ]),
        Instr::Assign(name("x"), lit(num(2))),
        use_("x"),
    ];
    assert_eq!(run(&program), RunResult::Completed(num(2)));
}

#[test]
fn break_outside_a_loop_ends_the_run_with_its_value() {
    let program = vec![Instr::Print(lit(text("a"))), Instr::Break(Some(lit(num(3)))), Instr::Print(lit(text("b")))];
    let mut machine = Machine::new(10);
    assert_eq!(machine.run(&program), RunResult::Completed(num(3)));
    assert_eq!(machine.output, vec![name("a")]);
}

#[test]
fn fault_inside_an_operand_is_the_fault_of_the_instruction() {
    let bad = || Box::new(use_("nobody"));
    assert_eq!(run(&vec![Instr::Let(name("x"), bad())]), faulted(FaultKind::UnknownName));
    assert_eq!(run(&vec![Instr::Print(bad())]), faulted(FaultKind::UnknownName));
    assert_eq!(run(&vec![Instr::Extract(bad())]), faulted(FaultKind::UnknownName));
    assert_eq!(run(&vec![Instr::Break(Some(bad()))]), faulted(FaultKind::UnknownName));
    assert_eq!(run(&vec![Instr::If(bad(), vec![], vec![])]), faulted(FaultKind::UnknownName));
    assert_eq!(run(&vec![Instr::While(bad(), vec![])]), faulted(FaultKind::UnknownName));
    assert_eq!(run(&vec![let_("x", num(1)), Instr::Assign(name("x"), bad())]), faulted(FaultKind::UnknownName));
}

#[test]
fn new_machine_is_empty() {
    let machine = Machine::new(42);
    assert_eq!(machine.limit, 42);
    assert_eq!(machine.store.len(), 0);
    assert_eq!(machine.table.depth(), 0);
    assert!(machine.output.is_empty());
}
