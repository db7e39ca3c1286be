use dat_fechter::{
    AIScorerEngine, DexData, DualExecutor, Engine, EngineError, EngineReport, HeuristicBackend,
    Pool, Ranking, Score, ScoredPool, ScoringBackendLoadError, ScoringEngine, SummaryEngine, Token,
    TopPool, TopPoolEngine,
};

fn token(symbol: &str, decimals: u32, address: &str) -> Token {
    Token { symbol: symbol.to_string(), decimals, address: address.to_string() }
}

fn pool(name: &str, reserve0: u64, reserve1: u64, fee: u64) -> Pool {
    Pool {
        dexName: name.to_string(),
        chain: "eth".to_string(),
        token0: "0x1".to_string(),
        token1: "0x2".to_string(),
        reserve0,
        reserve1,
        fee,
    }
}

/// An engine that always fails.
struct Broken;

impl Engine for Broken {
    fn execute(&self, _data: &DexData) -> Result<EngineReport, EngineError> {
        Err(EngineError::Failed("out of order".to_string()))
    }
}

#[test]
fn test_ai_scorer_executor_wiring() {
    let mut executor = DualExecutor::new();
    let model_path = std::path::PathBuf::from("model.onnx");
    executor.add_engine(Box::new(AIScorerEngine::new(model_path)));

    assert_eq!(executor.engine_count(), 1);
}

#[test]
fn test_multiple_engines_with_scorer() {
    let mut executor = DualExecutor::new();
    executor.add_engine(Box::new(SummaryEngine));
    executor.add_engine(Box::new(TopPoolEngine));

    let model_path = std::path::PathBuf::from("model.onnx");
    executor.add_engine(Box::new(AIScorerEngine::new(model_path)));

    assert_eq!(executor.engine_count(), 3);
}

#[test]
fn test_data_types_compatibility() {
    let token = Token {
        symbol: "ETH".to_string(),
        decimals: 18,
        address: "0x123".to_string(),
    };

    let pool = Pool {
        dexName: "Uniswap V3".to_string(),
        chain: "Ethereum".to_string(),
        token0: "0x123".to_string(),
        token1: "0x456".to_string(),
        reserve0: 1000000,
        reserve1: 2000000,
        fee: 3000,
    };

    let dex_data = DexData {
        tokens: vec![token],
        pools: vec![pool],
    };

    assert_eq!(dex_data.tokens.len(), 1);
    assert_eq!(dex_data.pools.len(), 1);
}

#[test]
fn new_executor_holds_no_engine_and_reports_nothing() {
    let executor = DualExecutor::new();
    assert_eq!(executor.engine_count(), 0);
    let data = DexData { tokens: vec![], pools: vec![] };
    assert!(executor.run(&data).is_empty());
}

#[test]
fn single_pool_snapshot_is_reported_by_every_engine() {
    let data = DexData {
        tokens: vec![token("ETH", 18, "0x1")],
        pools: vec![pool("UniV3", 1_000_000, 2_000_000, 3000)],
    };
    let mut executor = DualExecutor::new();
    executor.add_engine(Box::new(SummaryEngine));
    executor.add_engine(Box::new(TopPoolEngine));
    executor.add_engine(Box::new(ScoringEngine::new(HeuristicBackend)));

    let outcomes = executor.run(&data);

    assert_eq!(outcomes.len(), 3);
    assert_eq!(outcomes[0], Ok(EngineReport::Summary { tokens: 1, pools: 1 }));
    assert_eq!(
        outcomes[1],
        Ok(EngineReport::TopPool(Some(TopPool { index: 0, liquidity: 3_000_000 })))
    );
    assert_eq!(
        outcomes[2],
        Ok(EngineReport::Ranking(Ranking {
            ranked: vec![ScoredPool { score: Score::from_units(21_000_000_000), index: 0 }],
            skipped: vec![],
        }))
    );
    match &outcomes[2] {
        Ok(EngineReport::Ranking(ranking)) => {
            let units = ranking.ranked[0].score.to_units().unwrap();
            assert_eq!(units as f64 / dat_fechter::SCORE_UNITS_PER_ONE as f64, 2.1);
        }
        other => panic!("no ranking: {:?}", other),
    }
}

#[test]
fn empty_pool_set_is_no_error() {
    let data = DexData { tokens: vec![token("ETH", 18, "0x1")], pools: vec![] };
    let mut executor = DualExecutor::new();
    executor.add_engine(Box::new(TopPoolEngine));
    executor.add_engine(Box::new(ScoringEngine::new(HeuristicBackend)));
    executor.add_engine(Box::new(AIScorerEngine::new(std::path::PathBuf::from("model.onnx"))));
    executor.add_engine(Box::new(SummaryEngine));

    let outcomes = executor.run(&data);

    let empty = Ranking { ranked: vec![], skipped: vec![] };
    assert_eq!(outcomes[0], Ok(EngineReport::TopPool(None)));
    assert_eq!(outcomes[1], Ok(EngineReport::Ranking(empty.clone())));
    assert_eq!(outcomes[2], Ok(EngineReport::Ranking(empty)));
    assert_eq!(outcomes[3], Ok(EngineReport::Summary { tokens: 1, pools: 0 }));
}

#[test]
fn failing_engine_does_not_stop_the_others() {
    let data = DexData {
        tokens: vec![token("ETH", 18, "0x1"), token("DAI", 18, "0x2")],
        pools: vec![pool("a", 1, 2, 0), pool("b", 5, 5, 0), pool("c", 3, 0, 0)],
    };
    let mut executor = DualExecutor::new();
    executor.add_engine(Box::new(SummaryEngine));
    executor.add_engine(Box::new(Broken));
    executor.add_engine(Box::new(ScoringEngine::<HeuristicBackend>::unavailable(
        ScoringBackendLoadError::NotFound,
    )));
    executor.add_engine(Box::new(TopPoolEngine));
    executor.add_engine(Box::new(SummaryEngine));

    let outcomes = executor.run(&data);

    assert_eq!(outcomes.len(), 5);
    assert_eq!(outcomes[0], Ok(EngineReport::Summary { tokens: 2, pools: 3 }));
    assert_eq!(outcomes[1], Err(EngineError::Failed("out of order".to_string())));
    assert_eq!(outcomes[2], Err(EngineError::BackendLoad(ScoringBackendLoadError::NotFound)));
    assert_eq!(outcomes[3], Ok(EngineReport::TopPool(Some(TopPool { index: 1, liquidity: 10 }))));
    assert_eq!(outcomes[4], Ok(EngineReport::Summary { tokens: 2, pools: 3 }));
}

#[test]
fn running_twice_gives_the_same_outcomes() {
    let data = DexData {
        tokens: vec![],
        pools: vec![pool("a", 10, 20, 30), pool("b", 40, 50, 60)],
    };
    let mut executor = DualExecutor::new();
    executor.add_engine(Box::new(AIScorerEngine::new(std::path::PathBuf::from("m.onnx"))));
    executor.add_engine(Box::new(TopPoolEngine));
    assert_eq!(executor.run(&data), executor.run(&data));
    assert_eq!(data.pools.len(), 2);
}

/// An engine that reports in words.
struct Greeter;

impl Engine for Greeter {
    fn execute(&self, data: &DexData) -> Result<EngineReport, EngineError> {
        Ok(EngineReport::Text(format!("{} pools seen", data.pools.len())))
    }
}

#[test]
fn outcomes_come_in_the_order_in_which_engines_were_added() {
    let data = DexData { tokens: vec![], pools: vec![pool("a", 1, 2, 0)] };
    let mut executor = DualExecutor::new();
    executor.add_engine(Box::new(Greeter));
    executor.add_engine(Box::new(ScoringEngine::<HeuristicBackend>::unavailable(
        ScoringBackendLoadError::Corrupt,
    )));
    executor.add_engine(Box::new(Greeter));
    executor.add_engine(Box::new(TopPoolEngine));
    executor.add_engine(Box::new(TopPoolEngine));

    let outcomes = executor.run(&data);

    assert_eq!(executor.engine_count(), 5);
    assert_eq!(
        outcomes,
        vec![
            Ok(EngineReport::Text("1 pools seen".to_string())),
            Err(EngineError::BackendLoad(ScoringBackendLoadError::Corrupt)),
            Ok(EngineReport::Text("1 pools seen".to_string())),
            Ok(EngineReport::TopPool(Some(TopPool { index: 0, liquidity: 3 }))),
            Ok(EngineReport::TopPool(Some(TopPool { index: 0, liquidity: 3 }))),
        ]
    );
}

#[test]
fn engine_without_backend_fails_each_time_it_is_run() {
    let engine = ScoringEngine::<HeuristicBackend>::unavailable(ScoringBackendLoadError::NotFound);
    let data = DexData { tokens: vec![], pools: vec![pool("a", 1, 2, 0)] };
    let expected = Err(EngineError::BackendLoad(ScoringBackendLoadError::NotFound));
    assert_eq!(engine.execute(&data), expected);
    assert_eq!(engine.execute(&data), expected);
    assert_eq!(engine.execute(&DexData { tokens: vec![], pools: vec![] }), expected);
}
