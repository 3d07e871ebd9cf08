use parser::engine::accepts;
use parser::event::TreeEvent;
use parser::parse;
use parser::sink::EventRecorder;
use parser::source::TokenCursor;
use parser::syntax_kind::SyntaxKind;

fn start(kind: SyntaxKind) -> TreeEvent {
    TreeEvent::StartNode(kind)
}

fn token(kind: SyntaxKind) -> TreeEvent {
    TreeEvent::Token(kind)
}

fn finish() -> TreeEvent {
    TreeEvent::FinishNode
}

/// Parses `tokens` from their start; gives the events and how many tokens were consumed.
fn run(tokens: Vec<SyntaxKind>) -> (Vec<TreeEvent>, usize) {
    assert!(accepts(&tokens));
    let total = tokens.len();
    let mut source = TokenCursor::new(tokens);
    let mut sink = EventRecorder::new();
    parse(&mut source, &mut sink);
    let consumed = total - source.rest().len();
    (sink.into_events(), consumed)
}

fn token_kinds(events: &[TreeEvent]) -> Vec<SyntaxKind> {
    let mut kinds = Vec::new();
    for event in events {
        if let TreeEvent::Token(kind) = event {
            kinds.push(*kind);
        }
    }
    kinds
}

fn node_kinds(events: &[TreeEvent]) -> Vec<SyntaxKind> {
    let mut kinds = Vec::new();
    for event in events {
        if let TreeEvent::StartNode(kind) = event {
            kinds.push(*kind);
        }
    }
    kinds
}

/// The depth after each event, or `None` where a finish finds no open node.
fn depths(events: &[TreeEvent]) -> Option<Vec<usize>> {
    let mut depth: usize = 0;
    let mut all = Vec::new();
    for event in events {
        match event {
            TreeEvent::StartNode(_) => depth += 1,
            TreeEvent::FinishNode => {
                if depth == 0 {
                    return None;
                }
                depth -= 1;
            }
            _ => {}
        }
        all.push(depth);
    }
    Some(all)
}

fn let_x_eq_y_spaced() -> Vec<SyntaxKind> {
    vec![
        SyntaxKind::LET_KW,
        SyntaxKind::WHITESPACE,
        SyntaxKind::WHITESPACE,
        SyntaxKind::IDENT,
        SyntaxKind::WHITESPACE,
        SyntaxKind::EQ,
        SyntaxKind::WHITESPACE,
        SyntaxKind::IDENT,
    ]
}

#[test]
fn whitespace_is_absorbed_into_the_open_node() {
    let (events, consumed) = run(let_x_eq_y_spaced());
    assert_eq!(
        events,
        vec![
            start(SyntaxKind::ROOT),
            start(SyntaxKind::LET_STMT),
            token(SyntaxKind::LET_KW),
            token(SyntaxKind::WHITESPACE),
            token(SyntaxKind::WHITESPACE),
            start(SyntaxKind::LET_VAR),
            token(SyntaxKind::IDENT),
            finish(),
            token(SyntaxKind::WHITESPACE),
            token(SyntaxKind::EQ),
            token(SyntaxKind::WHITESPACE),
            token(SyntaxKind::IDENT),
            finish(),
            finish(),
        ]
    );
    assert_eq!(consumed, 8);
}

#[test]
fn let_statement_without_whitespace() {
    let (events, consumed) = run(vec![
        SyntaxKind::LET_KW,
        SyntaxKind::IDENT,
        SyntaxKind::EQ,
        SyntaxKind::IDENT,
    ]);
    assert_eq!(
        events,
        vec![
            start(SyntaxKind::ROOT),
            start(SyntaxKind::LET_STMT),
            token(SyntaxKind::LET_KW),
            start(SyntaxKind::LET_VAR),
            token(SyntaxKind::IDENT),
            finish(),
            token(SyntaxKind::EQ),
            token(SyntaxKind::IDENT),
            finish(),
            finish(),
        ]
    );
    assert_eq!(consumed, 4);
}

#[test]
fn trailing_whitespace_belongs_to_the_statement() {
    let mut tokens = let_x_eq_y_spaced();
    tokens.push(SyntaxKind::WHITESPACE);
    tokens.push(SyntaxKind::WHITESPACE);
    let (events, consumed) = run(tokens);
    assert_eq!(consumed, 10);
    assert_eq!(events.len(), 16);
    assert_eq!(
        events[11..],
        [
            token(SyntaxKind::IDENT),
            token(SyntaxKind::WHITESPACE),
            token(SyntaxKind::WHITESPACE),
            finish(),
            finish(),
        ]
    );
}

#[test]
fn tokens_behind_the_statement_stay_ahead_of_the_cursor() {
    let mut tokens = let_x_eq_y_spaced();
    tokens.push(SyntaxKind::WHITESPACE);
    tokens.push(SyntaxKind::IDENT);
    tokens.push(SyntaxKind::EQ);
    let (events, consumed) = run(tokens.clone());
    assert_eq!(consumed, 9);
    assert_eq!(token_kinds(&events), tokens[..9].to_vec());
    assert_eq!(events.last(), Some(&finish()));
}

#[test]
fn unmatched_top_level_is_inert() {
    let (events, consumed) = run(vec![SyntaxKind::IDENT]);
    assert_eq!(events, vec![start(SyntaxKind::ROOT), finish()]);
    assert_eq!(consumed, 0);

    let (events, consumed) = run(vec![
        SyntaxKind::EQ,
        SyntaxKind::WHITESPACE,
        SyntaxKind::LET_KW,
        SyntaxKind::IDENT,
    ]);
    assert_eq!(events, vec![start(SyntaxKind::ROOT), finish()]);
    assert_eq!(consumed, 0);
}

#[test]
fn leading_whitespace_hides_the_keyword() {
    let mut tokens = vec![SyntaxKind::WHITESPACE];
    tokens.extend(let_x_eq_y_spaced());
    let (events, consumed) = run(tokens);
    assert_eq!(events, vec![start(SyntaxKind::ROOT), finish()]);
    assert_eq!(token_kinds(&events), vec![]);
    assert_eq!(consumed, 0);
}

#[test]
fn empty_input_gives_an_empty_root() {
    let (events, consumed) = run(vec![]);
    assert_eq!(events, vec![start(SyntaxKind::ROOT), finish()]);
    assert_eq!(consumed, 0);
}

#[test]
fn variable_may_be_a_token_of_any_kind() {
    let (events, consumed) = run(vec![
        SyntaxKind::LET_KW,
        SyntaxKind::WHITESPACE,
        SyntaxKind::EQ,
        SyntaxKind::EQ,
        SyntaxKind::LET_KW,
    ]);
    assert_eq!(
        events,
        vec![
            start(SyntaxKind::ROOT),
            start(SyntaxKind::LET_STMT),
            token(SyntaxKind::LET_KW),
            token(SyntaxKind::WHITESPACE),
            start(SyntaxKind::LET_VAR),
            token(SyntaxKind::EQ),
            finish(),
            token(SyntaxKind::EQ),
            token(SyntaxKind::LET_KW),
            finish(),
            finish(),
        ]
    );
    assert_eq!(consumed, 5);
}

#[test]
fn missing_expression_leaves_the_statement_without_one() {
    let (events, consumed) = run(vec![
        SyntaxKind::LET_KW,
        SyntaxKind::WHITESPACE,
        SyntaxKind::IDENT,
        SyntaxKind::WHITESPACE,
        SyntaxKind::EQ,
        SyntaxKind::WHITESPACE,
    ]);
    assert_eq!(
        events,
        vec![
            start(SyntaxKind::ROOT),
            start(SyntaxKind::LET_STMT),
            token(SyntaxKind::LET_KW),
            token(SyntaxKind::WHITESPACE),
            start(SyntaxKind::LET_VAR),
            token(SyntaxKind::IDENT),
            finish(),
            token(SyntaxKind::WHITESPACE),
            token(SyntaxKind::EQ),
            token(SyntaxKind::WHITESPACE),
            finish(),
            finish(),
        ]
    );
    assert_eq!(consumed, 6);
}

#[test]
fn statement_that_ends_behind_its_assignment_has_three_leaves() {
    let tokens = vec![SyntaxKind::LET_KW, SyntaxKind::IDENT, SyntaxKind::EQ];
    let (events, consumed) = run(tokens.clone());
    assert_eq!(
        events,
        vec![
            start(SyntaxKind::ROOT),
            start(SyntaxKind::LET_STMT),
            token(SyntaxKind::LET_KW),
            start(SyntaxKind::LET_VAR),
            token(SyntaxKind::IDENT),
            finish(),
            token(SyntaxKind::EQ),
            finish(),
            finish(),
        ]
    );
    assert_eq!(consumed, 3);
    assert_eq!(token_kinds(&events), tokens);
}

#[test]
fn sentinel_kind_in_place_of_the_expression_is_not_consumed() {
    let (events, consumed) = run(vec![
        SyntaxKind::LET_KW,
        SyntaxKind::IDENT,
        SyntaxKind::EQ,
        SyntaxKind::WHITESPACE,
        SyntaxKind::EOF,
        SyntaxKind::IDENT,
    ]);
    assert_eq!(consumed, 4);
    assert_eq!(
        token_kinds(&events),
        vec![SyntaxKind::LET_KW, SyntaxKind::IDENT, SyntaxKind::EQ, SyntaxKind::WHITESPACE]
    );
}

#[test]
fn no_leaf_is_of_the_sentinel_kind() {
    let inputs = vec![
        vec![],
        vec![SyntaxKind::EOF],
        vec![SyntaxKind::LET_KW, SyntaxKind::IDENT, SyntaxKind::EQ],
        vec![SyntaxKind::LET_KW, SyntaxKind::IDENT, SyntaxKind::EQ, SyntaxKind::EOF],
        vec![SyntaxKind::LET_KW, SyntaxKind::WHITESPACE, SyntaxKind::IDENT, SyntaxKind::EQ, SyntaxKind::WHITESPACE],
        let_x_eq_y_spaced(),
    ];
    for tokens in inputs {
        let (events, consumed) = run(tokens.clone());
        let leaves = token_kinds(&events);
        assert!(!leaves.contains(&SyntaxKind::EOF));
        assert_eq!(leaves, tokens[..consumed].to_vec());
    }
}

#[test]
fn events_are_well_nested() {
    let inputs = vec![
        vec![],
        vec![SyntaxKind::IDENT],
        let_x_eq_y_spaced(),
        vec![SyntaxKind::LET_KW, SyntaxKind::IDENT, SyntaxKind::EQ],
        vec![SyntaxKind::LET_KW, SyntaxKind::LET_KW, SyntaxKind::EQ, SyntaxKind::WHITESPACE],
    ];
    for tokens in inputs {
        let (events, _) = run(tokens);
        assert_eq!(events.first(), Some(&start(SyntaxKind::ROOT)));
        assert_eq!(events.last(), Some(&finish()));
        let depths = depths(&events).expect("a finish without a start");
        assert_eq!(depths.last(), Some(&0));
        for depth in &depths[..depths.len() - 1] {
            assert!(*depth >= 1);
        }
    }
}

#[test]
fn leaves_reproduce_the_input() {
    let tokens = let_x_eq_y_spaced();
    let (events, consumed) = run(tokens.clone());
    assert_eq!(consumed, tokens.len());
    assert_eq!(token_kinds(&events), tokens);

    let mut longer = let_x_eq_y_spaced();
    longer.push(SyntaxKind::WHITESPACE);
    longer.push(SyntaxKind::LET_KW);
    let (events, consumed) = run(longer.clone());
    let mut rebuilt = token_kinds(&events);
    rebuilt.extend_from_slice(&longer[consumed..]);
    assert_eq!(rebuilt, longer);
}

#[test]
fn let_statement_is_the_sole_child_of_the_root() {
    let (events, _) = run(let_x_eq_y_spaced());
    assert_eq!(
        node_kinds(&events),
        vec![SyntaxKind::ROOT, SyntaxKind::LET_STMT, SyntaxKind::LET_VAR]
    );
    let depths = depths(&events).expect("a finish without a start");
    assert_eq!(events[1], start(SyntaxKind::LET_STMT));
    assert_eq!(events[events.len() - 2], finish());
    for depth in &depths[1..depths.len() - 2] {
        assert!(*depth >= 2);
    }
    assert_eq!(depths[depths.len() - 2], 1);
}

#[test]
fn parse_appends_to_what_the_sink_holds() {
    let mut source = TokenCursor::new(vec![SyntaxKind::IDENT]);
    let mut sink = EventRecorder::new();
    parse(&mut source, &mut sink);
    parse(&mut source, &mut sink);
    assert_eq!(
        sink.into_events(),
        vec![start(SyntaxKind::ROOT), finish(), start(SyntaxKind::ROOT), finish()]
    );
    assert_eq!(source.rest().len(), 1);
}

#[test]
fn parse_goes_on_where_the_last_parse_stopped() {
    let mut tokens = let_x_eq_y_spaced();
    tokens.push(SyntaxKind::WHITESPACE);
    tokens.extend(vec![
        SyntaxKind::LET_KW,
        SyntaxKind::WHITESPACE,
        SyntaxKind::IDENT,
        SyntaxKind::EQ,
        SyntaxKind::IDENT,
    ]);
    let mut source = TokenCursor::new(tokens);
    let mut sink = EventRecorder::new();

    assert!(accepts(source.rest()));
    parse(&mut source, &mut sink);
    assert_eq!(source.rest().len(), 5);
    assert_eq!(source.rest()[0], SyntaxKind::LET_KW);

    assert!(accepts(source.rest()));
    parse(&mut source, &mut sink);
    assert_eq!(source.rest().len(), 0);

    let events = sink.into_events();
    assert_eq!(events.len(), 15 + 11);
    assert_eq!(
        events[15..],
        [
            start(SyntaxKind::ROOT),
            start(SyntaxKind::LET_STMT),
            token(SyntaxKind::LET_KW),
            token(SyntaxKind::WHITESPACE),
            start(SyntaxKind::LET_VAR),
            token(SyntaxKind::IDENT),
            finish(),
            token(SyntaxKind::EQ),
            token(SyntaxKind::IDENT),
            finish(),
            finish(),
        ]
    );
}

#[test]
fn accepts_tells_which_tokens_parse_works_on() {
    assert!(accepts(&[]));
    assert!(accepts(&[SyntaxKind::IDENT]));
    assert!(accepts(&[SyntaxKind::WHITESPACE, SyntaxKind::LET_KW]));
    assert!(accepts(&let_x_eq_y_spaced()));
    assert!(accepts(&[SyntaxKind::LET_KW, SyntaxKind::IDENT, SyntaxKind::EQ]));
    assert!(accepts(&[SyntaxKind::LET_KW, SyntaxKind::EQ, SyntaxKind::EQ]));

    assert!(!accepts(&[SyntaxKind::LET_KW]));
    assert!(!accepts(&[SyntaxKind::LET_KW, SyntaxKind::WHITESPACE]));
    assert!(!accepts(&[SyntaxKind::LET_KW, SyntaxKind::IDENT]));
    assert!(!accepts(&[SyntaxKind::LET_KW, SyntaxKind::IDENT, SyntaxKind::WHITESPACE]));
    assert!(!accepts(&[SyntaxKind::LET_KW, SyntaxKind::IDENT, SyntaxKind::IDENT, SyntaxKind::EQ]));
    assert!(!accepts(&[SyntaxKind::LET_KW, SyntaxKind::WHITESPACE, SyntaxKind::EQ]));
    assert!(!accepts(&[SyntaxKind::LET_KW, SyntaxKind::EQ, SyntaxKind::IDENT]));
    assert!(!accepts(&[SyntaxKind::LET_KW, SyntaxKind::EOF, SyntaxKind::EQ]));
    assert!(!accepts(&[SyntaxKind::LET_KW, SyntaxKind::IDENT, SyntaxKind::EOF, SyntaxKind::EQ]));
}
