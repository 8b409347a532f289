use omega_bench_suite::chart::{
    bar_label, group_of, pair_bar_color, pair_chart_sources, same_text, series_color,
    sized_chart_sources, slot_of, ChartKind, EngineNames, SizeAxis,
};

#[test]
fn engine_names_map_to_groups() {
    assert_eq!(group_of(EngineNames::Plain, "Redis"), Some(0));
    assert_eq!(group_of(EngineNames::Plain, "KeyDB"), Some(1));
    assert_eq!(group_of(EngineNames::Plain, "OmegaDrive"), Some(2));
    assert_eq!(group_of(EngineNames::Plain, "Redis + AES"), None);
    assert_eq!(group_of(EngineNames::Plain, "redis"), None);
    assert_eq!(group_of(EngineNames::Encrypted, "Redis + AES"), Some(0));
    assert_eq!(group_of(EngineNames::Encrypted, "KeyDB + AES"), Some(1));
    assert_eq!(group_of(EngineNames::Encrypted, "OmegaDrive"), Some(2));
    assert_eq!(group_of(EngineNames::Encrypted, "Redis"), None);
    assert!(same_text("abc", "abc"));
    assert!(!same_text("abc", "abd"));
    assert!(!same_text("abc", "ab"));
}

#[test]
fn pair_chart_takes_the_last_result_of_each_engine() {
    let engines = ["Redis", "KeyDB", "Other", "Redis"];
    assert_eq!(pair_chart_sources(EngineNames::Plain, &engines), vec![Some(3), Some(1), None]);
    assert_eq!(pair_chart_sources(EngineNames::Plain, &[]), vec![None, None, None]);
    let crypto = ["Redis + AES", "KeyDB + AES", "OmegaDrive"];
    assert_eq!(pair_chart_sources(EngineNames::Encrypted, &crypto), vec![Some(0), Some(1), Some(2)]);
}

#[test]
fn sized_chart_places_results_by_engine_and_size() {
    let engines = ["Redis", "KeyDB", "OmegaDrive", "Redis", "Redis", "KeyDB"];
    let sizes = [1, 1, 100, 50, 1, 7];
    let sources = sized_chart_sources(SizeAxis::JsonKb, &engines, &sizes);
    assert_eq!(sources[0], vec![Some(4), None, Some(3), None]);
    assert_eq!(sources[1], vec![Some(1), None, None, None]);
    assert_eq!(sources[2], vec![None, None, None, Some(2)]);
    let files = sized_chart_sources(SizeAxis::FileMb, &["OmegaDrive", "KeyDB"], &[10, 5]);
    assert_eq!(files, vec![vec![None, None, None], vec![None, Some(1), None], vec![None, None, Some(0)]]);
}

#[test]
fn size_slots() {
    assert_eq!(slot_of(SizeAxis::JsonKb, 1), Some(0));
    assert_eq!(slot_of(SizeAxis::JsonKb, 10), Some(1));
    assert_eq!(slot_of(SizeAxis::JsonKb, 50), Some(2));
    assert_eq!(slot_of(SizeAxis::JsonKb, 100), Some(3));
    assert_eq!(slot_of(SizeAxis::JsonKb, 5), None);
    assert_eq!(slot_of(SizeAxis::FileMb, 5), Some(1));
    assert_eq!(slot_of(SizeAxis::FileMb, 10), Some(2));
    assert_eq!(slot_of(SizeAxis::FileMb, 50), None);
}

#[test]
fn bar_colors_follow_engine_groups() {
    assert_eq!(pair_bar_color(0), (255, 51, 102));
    assert_eq!(pair_bar_color(1), (255, 51, 102));
    assert_eq!(pair_bar_color(2), (161, 85, 232));
    assert_eq!(pair_bar_color(3), (161, 85, 232));
    assert_eq!(pair_bar_color(4), (0, 243, 255));
    assert_eq!(pair_bar_color(5), (0, 243, 255));
    assert_eq!(series_color(0), (255, 51, 102));
    assert_eq!(series_color(1), (161, 85, 232));
    assert_eq!(series_color(2), (0, 243, 255));
}

#[test]
fn bar_labels() {
    assert_eq!(bar_label(ChartKind::Uds, 0), "Redis-W");
    assert_eq!(bar_label(ChartKind::Tcp, 5), "OmegaDrive-R");
    assert_eq!(bar_label(ChartKind::UdsBatched, 4), "Omega-MSET");
    assert_eq!(bar_label(ChartKind::Json, 3), "100KB JSON");
    assert_eq!(bar_label(ChartKind::File, 1), "5MB Chunk");
    assert_eq!(bar_label(ChartKind::Crypto, 5), "Omega Neural (R)");
    assert_eq!(bar_label(ChartKind::Websocket, 1), "Omega (GPU)");
    assert_eq!(bar_label(ChartKind::Websocket, 2), "");
    assert_eq!(bar_label(ChartKind::Uds, -1), "");
    assert_eq!(bar_label(ChartKind::File, 3), "");
}

#[test]
fn reordering_distinct_engines_keeps_every_bar() {
    let a = [("Redis", 1.0), ("KeyDB", 2.0), ("OmegaDrive", 3.0)];
    let b = [("OmegaDrive", 3.0), ("Redis", 1.0), ("KeyDB", 2.0)];
    let pick = |r: &[(&str, f64)]| -> Vec<Option<f64>> {
        let names: Vec<&str> = r.iter().map(|e| e.0).collect();
        pair_chart_sources(EngineNames::Plain, &names).iter().map(|s| s.map(|i| r[i].1)).collect()
    };
    assert_eq!(pick(&a), pick(&b));
    let with_unknown = [("Redis", 1.0), ("KeyDB", 2.0), ("OmegaDrive", 3.0), ("Memcached", 9.0)];
    assert_eq!(pick(&with_unknown), pick(&a));
}

#[test]
fn reordering_distinct_cells_keeps_every_bar() {
    let a = [("Redis", 1, 1.0), ("Redis", 10, 2.0), ("KeyDB", 1, 3.0), ("OmegaDrive", 100, 4.0)];
    let b = [("OmegaDrive", 100, 4.0), ("KeyDB", 1, 3.0), ("Redis", 10, 2.0), ("Redis", 1, 1.0)];
    let pick = |r: &[(&str, usize, f64)]| -> Vec<Vec<Option<f64>>> {
        let names: Vec<&str> = r.iter().map(|e| e.0).collect();
        let sizes: Vec<usize> = r.iter().map(|e| e.1).collect();
        sized_chart_sources(SizeAxis::JsonKb, &names, &sizes)
            .iter()
            .map(|row| row.iter().map(|s| s.map(|i| r[i].2)).collect())
            .collect()
    };
    assert_eq!(pick(&a), pick(&b));
}
