use dat_fechter::{
    find_member, parse_snapshot, Document, DualExecutor, EngineReport, Field, FieldPath,
    HeuristicBackend, MalformedSnapshot, Member, Ranking, Score, ScoredPool, ScoringEngine, Section,
    SummaryEngine, TopPool, TopPoolEngine, Violation,
};

fn text(value: &str) -> Document {
    Document::Text(value.to_string())
}

fn object(members: Vec<(&str, Document)>) -> Document {
    Document::Object(
        members
            .into_iter()
            .map(|(name, value)| Member { name: name.to_string(), value })
            .collect(),
    )
}

fn token(symbol: &str, decimals: i128, address: &str) -> Document {
    object(vec![
        ("symbol", text(symbol)),
        ("decimals", Document::Integer(decimals)),
        ("address", text(address)),
    ])
}

fn pool(name: &str, reserve0: i128, reserve1: i128, fee: i128) -> Document {
    object(vec![
        ("dexName", text(name)),
        ("chain", text("eth")),
        ("token0", text("0x1")),
        ("token1", text("0x2")),
        ("reserve0", Document::Integer(reserve0)),
        ("reserve1", Document::Integer(reserve1)),
        ("fee", Document::Integer(fee)),
    ])
}

fn snapshot(tokens: Vec<Document>, pools: Vec<Document>) -> Document {
    object(vec![("tokens", Document::List(tokens)), ("pools", Document::List(pools))])
}

fn fault(path: FieldPath, violation: Violation) -> MalformedSnapshot {
    MalformedSnapshot { path, violation }
}

/// `entry` with the member `name` taken out or given another value.
fn with_member(entry: Document, name: &str, value: Option<Document>) -> Document {
    match entry {
        Document::Object(members) => {
            let mut kept: Vec<Member> = Vec::new();
            for member in members {
                if member.name != name {
                    kept.push(member);
                } else if let Some(value) = &value {
                    kept.push(Member { name: member.name, value: clone(value) });
                }
            }
            Document::Object(kept)
        }
        other => other,
    }
}

fn clone(document: &Document) -> Document {
    match document {
        Document::Null => Document::Null,
        Document::Bool(flag) => Document::Bool(*flag),
        Document::Integer(number) => Document::Integer(*number),
        Document::Fraction => Document::Fraction,
        Document::Text(value) => Document::Text(value.clone()),
        Document::List(entries) => Document::List(entries.iter().map(clone).collect()),
        Document::Object(members) => Document::Object(
            members
                .iter()
                .map(|member| Member { name: member.name.clone(), value: clone(&member.value) })
                .collect(),
        ),
    }
}

fn error_of(document: &Document) -> MalformedSnapshot {
    match parse_snapshot(document) {
        Ok(data) => panic!("read as a snapshot: {:?}", data),
        Err(error) => error,
    }
}

#[test]
fn members_are_found_by_name() {
    let members = vec![
        Member { name: "a".to_string(), value: Document::Integer(1) },
        Member { name: "b".to_string(), value: Document::Null },
        Member { name: "a".to_string(), value: Document::Integer(2) },
    ];
    assert_eq!(find_member(&members, "a"), Some(&Document::Integer(1)));
    assert_eq!(find_member(&members, "b"), Some(&Document::Null));
    assert_eq!(find_member(&members, "c"), None);
    assert_eq!(find_member(&members, "A"), None);
    assert_eq!(find_member(&vec![], "a"), None);
}

#[test]
fn well_formed_document_is_read_whole() {
    let document = snapshot(
        vec![token("ETH", 18, "0x1"), token("USDC", 6, "0x2")],
        vec![pool("UniV3", 1_000_000, 2_000_000, 3000)],
    );
    let data = parse_snapshot(&document).unwrap();

    assert_eq!(data.tokens.len(), 2);
    assert_eq!(data.tokens[0].symbol, "ETH");
    assert_eq!(data.tokens[0].decimals, 18);
    assert_eq!(data.tokens[0].address, "0x1");
    assert_eq!(data.tokens[1].symbol, "USDC");
    assert_eq!(data.tokens[1].decimals, 6);
    assert_eq!(data.tokens[1].address, "0x2");
    assert_eq!(data.pools.len(), 1);
    assert_eq!(data.pools[0].dexName, "UniV3");
    assert_eq!(data.pools[0].chain, "eth");
    assert_eq!(data.pools[0].token0, "0x1");
    assert_eq!(data.pools[0].token1, "0x2");
    assert_eq!(data.pools[0].reserve0, 1_000_000);
    assert_eq!(data.pools[0].reserve1, 2_000_000);
    assert_eq!(data.pools[0].fee, 3000);
}

#[test]
fn empty_lists_are_a_snapshot() {
    let data = parse_snapshot(&snapshot(vec![], vec![])).unwrap();
    assert!(data.tokens.is_empty());
    assert!(data.pools.is_empty());
}

#[test]
fn largest_numbers_are_read() {
    let document = snapshot(
        vec![token("T", u32::MAX as i128, "0x1")],
        vec![pool("P", u64::MAX as i128, 0, u64::MAX as i128)],
    );
    let data = parse_snapshot(&document).unwrap();
    assert_eq!(data.tokens[0].decimals, u32::MAX);
    assert_eq!(data.pools[0].reserve0, u64::MAX);
    assert_eq!(data.pools[0].reserve1, 0);
    assert_eq!(data.pools[0].fee, u64::MAX);
}

#[test]
fn other_members_are_passed_over_and_order_is_free() {
    let document = object(vec![
        ("source", text("crawler")),
        (
            "pools",
            Document::List(vec![object(vec![
                ("fee", Document::Integer(5)),
                ("reserve1", Document::Integer(2)),
                ("reserve0", Document::Integer(1)),
                ("tvl", Document::Fraction),
                ("token1", text("0x2")),
                ("token0", text("0x1")),
                ("chain", text("eth")),
                ("dexName", text("Sushi")),
            ])]),
        ),
        ("tokens", Document::List(vec![])),
    ]);
    let data = parse_snapshot(&document).unwrap();
    assert_eq!(data.pools[0].dexName, "Sushi");
    assert_eq!(data.pools[0].reserve0, 1);
    assert_eq!(data.pools[0].reserve1, 2);
    assert_eq!(data.pools[0].fee, 5);
}

#[test]
fn first_member_of_a_name_counts() {
    let document = object(vec![
        ("tokens", Document::List(vec![token("ETH", 18, "0x1")])),
        ("tokens", Document::Null),
        ("pools", Document::List(vec![])),
    ]);
    assert_eq!(parse_snapshot(&document).unwrap().tokens.len(), 1);
}

#[test]
fn document_must_be_an_object() {
    for document in [
        Document::Null,
        Document::Bool(true),
        Document::Integer(1),
        Document::Fraction,
        text("tokens"),
        Document::List(vec![]),
    ] {
        assert_eq!(error_of(&document), fault(FieldPath::Root, Violation::WrongType));
    }
}

#[test]
fn both_lists_must_be_there() {
    let no_tokens = object(vec![("pools", Document::List(vec![]))]);
    assert_eq!(
        error_of(&no_tokens),
        fault(FieldPath::Section(Section::Tokens), Violation::Missing)
    );
    let no_pools = object(vec![("tokens", Document::List(vec![]))]);
    assert_eq!(error_of(&no_pools), fault(FieldPath::Section(Section::Pools), Violation::Missing));
    assert_eq!(
        error_of(&object(vec![])),
        fault(FieldPath::Section(Section::Tokens), Violation::Missing)
    );
}

#[test]
fn both_lists_must_be_lists() {
    let document = object(vec![("tokens", object(vec![])), ("pools", Document::List(vec![]))]);
    assert_eq!(
        error_of(&document),
        fault(FieldPath::Section(Section::Tokens), Violation::WrongType)
    );
    let document = object(vec![("tokens", Document::List(vec![])), ("pools", Document::Null)]);
    assert_eq!(
        error_of(&document),
        fault(FieldPath::Section(Section::Pools), Violation::WrongType)
    );
}

#[test]
fn entries_must_be_objects() {
    let document = snapshot(vec![token("ETH", 18, "0x1"), text("ETH")], vec![]);
    assert_eq!(
        error_of(&document),
        fault(FieldPath::Entry(Section::Tokens, 1), Violation::WrongType)
    );
    let document = snapshot(vec![], vec![Document::List(vec![])]);
    assert_eq!(
        error_of(&document),
        fault(FieldPath::Entry(Section::Pools, 0), Violation::WrongType)
    );
}

#[test]
fn each_member_of_a_token_is_required() {
    for (name, field) in
        [("symbol", Field::Symbol), ("decimals", Field::Decimals), ("address", Field::Address)]
    {
        let entry = with_member(token("ETH", 18, "0x1"), name, None);
        let document = snapshot(vec![token("DAI", 18, "0x9"), entry], vec![]);
        assert_eq!(
            error_of(&document),
            fault(FieldPath::Field(Section::Tokens, 1, field), Violation::Missing)
        );
    }
}

#[test]
fn each_member_of_a_pool_is_required() {
    for (name, field) in [
        ("dexName", Field::DexName),
        ("chain", Field::Chain),
        ("token0", Field::Token0),
        ("token1", Field::Token1),
        ("reserve0", Field::Reserve0),
        ("reserve1", Field::Reserve1),
        ("fee", Field::Fee),
    ] {
        let entry = with_member(pool("Uni", 1, 2, 3), name, None);
        let document = snapshot(vec![], vec![pool("a", 1, 1, 1), pool("b", 1, 1, 1), entry]);
        assert_eq!(
            error_of(&document),
            fault(FieldPath::Field(Section::Pools, 2, field), Violation::Missing)
        );
    }
}

#[test]
fn member_names_are_exact() {
    let entry = object(vec![
        ("dex_name", text("Uni")),
        ("chain", text("eth")),
        ("token0", text("0x1")),
        ("token1", text("0x2")),
        ("reserve0", Document::Integer(1)),
        ("reserve1", Document::Integer(2)),
        ("fee", Document::Integer(3)),
    ]);
    assert_eq!(
        error_of(&snapshot(vec![], vec![entry])),
        fault(FieldPath::Field(Section::Pools, 0, Field::DexName), Violation::Missing)
    );
}

#[test]
fn texts_must_be_texts() {
    for (name, field) in [
        ("dexName", Field::DexName),
        ("chain", Field::Chain),
        ("token0", Field::Token0),
        ("token1", Field::Token1),
    ] {
        for value in [Document::Integer(1), Document::Null, Document::Bool(false)] {
            let entry = with_member(pool("Uni", 1, 2, 3), name, Some(value));
            assert_eq!(
                error_of(&snapshot(vec![], vec![entry])),
                fault(FieldPath::Field(Section::Pools, 0, field), Violation::WrongType)
            );
        }
    }
    let entry = with_member(token("ETH", 18, "0x1"), "symbol", Some(Document::Integer(7)));
    assert_eq!(
        error_of(&snapshot(vec![entry], vec![])),
        fault(FieldPath::Field(Section::Tokens, 0, Field::Symbol), Violation::WrongType)
    );
}

#[test]
fn numbers_must_be_whole_numbers() {
    for value in [Document::Fraction, text("1000"), Document::Null, Document::List(vec![])] {
        let entry = with_member(pool("Uni", 1, 2, 3), "reserve1", Some(value));
        assert_eq!(
            error_of(&snapshot(vec![], vec![entry])),
            fault(FieldPath::Field(Section::Pools, 0, Field::Reserve1), Violation::WrongType)
        );
    }
    let entry = with_member(token("ETH", 18, "0x1"), "decimals", Some(Document::Fraction));
    assert_eq!(
        error_of(&snapshot(vec![entry], vec![])),
        fault(FieldPath::Field(Section::Tokens, 0, Field::Decimals), Violation::WrongType)
    );
}

#[test]
fn numbers_must_not_be_negative() {
    assert_eq!(
        error_of(&snapshot(vec![], vec![pool("Uni", -1, 2, 3)])),
        fault(FieldPath::Field(Section::Pools, 0, Field::Reserve0), Violation::Negative)
    );
    assert_eq!(
        error_of(&snapshot(vec![], vec![pool("Uni", 1, i128::MIN, 3)])),
        fault(FieldPath::Field(Section::Pools, 0, Field::Reserve1), Violation::Negative)
    );
    assert_eq!(
        error_of(&snapshot(vec![], vec![pool("Uni", 1, 2, -3)])),
        fault(FieldPath::Field(Section::Pools, 0, Field::Fee), Violation::Negative)
    );
    assert_eq!(
        error_of(&snapshot(vec![token("ETH", -18, "0x1")], vec![])),
        fault(FieldPath::Field(Section::Tokens, 0, Field::Decimals), Violation::Negative)
    );
}

#[test]
fn numbers_must_fit_their_place() {
    assert_eq!(
        error_of(&snapshot(vec![token("ETH", u32::MAX as i128 + 1, "0x1")], vec![])),
        fault(FieldPath::Field(Section::Tokens, 0, Field::Decimals), Violation::OutOfRange)
    );
    assert_eq!(
        error_of(&snapshot(vec![], vec![pool("Uni", u64::MAX as i128 + 1, 2, 3)])),
        fault(FieldPath::Field(Section::Pools, 0, Field::Reserve0), Violation::OutOfRange)
    );
    assert_eq!(
        error_of(&snapshot(vec![], vec![pool("Uni", 1, 2, i128::MAX)])),
        fault(FieldPath::Field(Section::Pools, 0, Field::Fee), Violation::OutOfRange)
    );
}

#[test]
fn first_fault_is_the_one_reported() {
    // Tokens are read before pools, entries in their order, members in theirs.
    let bad_token = with_member(token("ETH", -1, "0x1"), "address", None);
    let document = snapshot(
        vec![token("DAI", 18, "0x9"), bad_token, text("junk")],
        vec![pool("Uni", -1, -1, -1)],
    );
    assert_eq!(
        error_of(&document),
        fault(FieldPath::Field(Section::Tokens, 1, Field::Decimals), Violation::Negative)
    );

    let document = object(vec![
        ("pools", Document::List(vec![pool("Uni", 1, -1, -1)])),
        ("tokens", Document::List(vec![token("DAI", 18, "0x9")])),
    ]);
    assert_eq!(
        error_of(&document),
        fault(FieldPath::Field(Section::Pools, 0, Field::Reserve1), Violation::Negative)
    );

    let document = object(vec![("tokens", Document::List(vec![Document::Null]))]);
    assert_eq!(
        error_of(&document),
        fault(FieldPath::Entry(Section::Tokens, 0), Violation::WrongType)
    );
}

#[test]
fn snapshot_read_from_a_document_is_reported_on() {
    let document = snapshot(
        vec![token("ETH", 18, "0x1")],
        vec![pool("UniV3", 1_000_000, 2_000_000, 3000)],
    );
    let data = parse_snapshot(&document).unwrap();

    let mut executor = DualExecutor::new();
    executor.add_engine(Box::new(SummaryEngine));
    executor.add_engine(Box::new(TopPoolEngine));
    executor.add_engine(Box::new(ScoringEngine::new(HeuristicBackend)));

    assert_eq!(
        executor.run(&data),
        vec![
            Ok(EngineReport::Summary { tokens: 1, pools: 1 }),
            Ok(EngineReport::TopPool(Some(TopPool { index: 0, liquidity: 3_000_000 }))),
            Ok(EngineReport::Ranking(Ranking {
                ranked: vec![ScoredPool { score: Score::from_units(21_000_000_000), index: 0 }],
                skipped: vec![],
            })),
        ]
    );
}
