use bfjit::symbol::Symbol;

#[test]
fn single_sub_loop_becomes_zero() {
    assert_eq!(Symbol::parse_str("[-]", true), vec![Symbol::Zero]);
}

#[test]
fn single_add_loop_becomes_zero() {
    assert_eq!(Symbol::parse_str("[+]", true), vec![Symbol::Zero]);
}

#[test]
fn collapsed_run_loop_becomes_zero() {
    assert_eq!(Symbol::parse_str("[+++]", true), vec![Symbol::Zero]);
}

#[test]
fn even_delta_loop_also_rewritten() {
    // The rewrite applies to every delta, odd or even, although for an even
    // delta the loop itself need not terminate: a documented divergence.
    assert_eq!(Symbol::parse_str("[++]", true), vec![Symbol::Zero]);
}

#[test]
fn every_delta_rewritten_by_method() {
    for n in 0..=255u8 {
        let loop_sym = Symbol::Loop(vec![Symbol::Add(n)]);
        assert_eq!(loop_sym.optimize(), Symbol::Zero);
    }
}

#[test]
fn other_loops_kept() {
    assert_eq!(
        Symbol::parse_str("[>]", true),
        vec![Symbol::Loop(vec![Symbol::Move(1)])]
    );
}

#[test]
fn rewrite_is_recursive() {
    assert_eq!(
        Symbol::parse_str("[[-]]", true),
        vec![Symbol::Loop(vec![Symbol::Zero])]
    );
}

#[test]
fn non_loop_unchanged() {
    assert_eq!(Symbol::Add(7).optimize(), Symbol::Add(7));
    assert_eq!(Symbol::Print.optimize(), Symbol::Print);
}
