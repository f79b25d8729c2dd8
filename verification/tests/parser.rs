use bfjit::symbol::Symbol;

#[test]
fn parse_plus_minus_net() {
    assert_eq!(Symbol::parse_str("+++--", false), vec![Symbol::Add(1)]);
}

#[test]
fn parse_sixteen_plus() {
    assert_eq!(Symbol::parse_str(&"+".repeat(16), false), vec![Symbol::Add(16)]);
}

#[test]
fn parse_three_hundred_plus_wraps() {
    assert_eq!(Symbol::parse_str(&"+".repeat(300), false), vec![Symbol::Add(44)]);
}

#[test]
fn parse_all_minus() {
    assert_eq!(Symbol::parse_str("---", false), vec![Symbol::Add(253)]);
}

#[test]
fn parse_move_net() {
    assert_eq!(Symbol::parse_str(">>><<", false), vec![Symbol::Move(1)]);
}

#[test]
fn parse_move_left_wraps() {
    assert_eq!(Symbol::parse_str("<", false), vec![Symbol::Move(29999)]);
}

#[test]
fn parse_move_net_left() {
    assert_eq!(Symbol::parse_str("<<>", false), vec![Symbol::Move(29999)]);
}

#[test]
fn parse_print_read() {
    assert_eq!(Symbol::parse_str(".,", false), vec![Symbol::Print, Symbol::Read]);
}

#[test]
fn parse_print_never_collapsed() {
    assert_eq!(
        Symbol::parse_str("..", false),
        vec![Symbol::Print, Symbol::Print]
    );
}

#[test]
fn parse_comments_break_runs() {
    assert_eq!(
        Symbol::parse_str("+ x +", false),
        vec![Symbol::Add(1), Symbol::Add(1)]
    );
}

#[test]
fn parse_nested_loops() {
    assert_eq!(
        Symbol::parse_str("+[>[-]<]", false),
        vec![
            Symbol::Add(1),
            Symbol::Loop(vec![
                Symbol::Move(1),
                Symbol::Loop(vec![Symbol::Add(255)]),
                Symbol::Move(29999),
            ]),
        ]
    );
}

#[test]
fn parse_unmatched_open_runs_to_end() {
    assert_eq!(
        Symbol::parse_str("[+", false),
        vec![Symbol::Loop(vec![Symbol::Add(1)])]
    );
}

#[test]
fn parse_unmatched_close_ends_block() {
    assert_eq!(Symbol::parse_str("+]+", false), vec![Symbol::Add(1)]);
}

#[test]
fn parse_empty_source() {
    assert_eq!(Symbol::parse_str("", false), vec![]);
}

#[test]
fn parse_only_comments() {
    assert_eq!(Symbol::parse_str("hello world!", false), vec![]);
}
