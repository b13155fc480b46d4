use chartcore::models::{
    default_orb_minutes, range_option_for, resolve_range, Endpoint, Instrument,
};
use chartcore::search::{parse_search_candidate, parse_search_results};
use chartcore::json::JsonValue;
use chartcore::watchlist::merge_watchlists;
use chartcore::ChartError;

fn obj(fields: Vec<(&str, JsonValue)>) -> JsonValue {
    JsonValue::Obj(fields.into_iter().map(|(k, v)| (k.to_string(), v)).collect())
}

fn s(v: &str) -> JsonValue {
    JsonValue::Str(v.to_string())
}

fn instrument(name: &str, identifier: &str) -> Instrument {
    Instrument {
        name: name.to_string(),
        identifier: identifier.to_string(),
        market: None,
        cluster: None,
        primary_triggers: None,
        entry_setup: None,
        stop_rule: None,
        tp_management: None,
        time_window: None,
        notes: None,
    }
}

#[test]
fn default_orb_window_is_fifteen_minutes() {
    assert_eq!(default_orb_minutes(), 15);
}

#[test]
fn range_table_has_eight_entries() {
    let cases = [
        ("1 Tag", "1d", "1m", Endpoint::Intraday),
        ("5 Tage", "5d", "5m", Endpoint::Intraday),
        ("1 Monat", "1mo", "30m", Endpoint::Intraday),
        ("3 Monate", "3mo", "1h", Endpoint::Intraday),
        ("6 Monate", "6mo", "2h", Endpoint::History),
        ("1 Jahr", "1y", "1d", Endpoint::History),
        ("3 Jahre", "3y", "1d", Endpoint::History),
        ("5 Jahre", "5y", "1d", Endpoint::History),
    ];
    for (key, range, interval, endpoint) in cases {
        let o = range_option_for(&key.to_string()).expect(key);
        assert_eq!(o.range, range);
        assert_eq!(o.interval, interval);
        assert_eq!(o.endpoint, endpoint);
    }
}

#[test]
fn unknown_range_key_is_a_hard_error() {
    assert!(range_option_for(&"2 Tage".to_string()).is_none());
    match resolve_range(&"2 Tage".to_string()) {
        Err(e) => {
            assert_eq!(e, ChartError::UnknownRangeKey);
            assert_eq!(e.message(), "Unbekannte Range-Auswahl");
        }
        Ok(_) => panic!("unknown keys must fail"),
    }
}

#[test]
fn normalised_drops_blank_optional_fields() {
    let mut inst = instrument("SAP SE", "DE0007164600");
    inst.market = Some("  ".to_string());
    inst.cluster = Some("Dax".to_string());
    inst.notes = Some("\t\n".to_string());
    inst.stop_rule = Some(" tight ".to_string());
    let n = inst.normalised();
    assert_eq!(n.name, "SAP SE");
    assert_eq!(n.identifier, "DE0007164600");
    assert_eq!(n.market, None);
    assert_eq!(n.cluster, Some("Dax".to_string()));
    assert_eq!(n.notes, None);
    assert_eq!(n.stop_rule, Some(" tight ".to_string()));
}

#[test]
fn merge_watchlists_sorts_and_deduplicates_by_identifier() {
    let base = vec![instrument("Zeta", "Z1"), instrument("Alpha", "A1")];
    let custom = vec![
        instrument("Beta", "B1"),
        instrument("Alpha Copy", "A1"),
        instrument("Beta Twin", "B1"),
    ];
    let merged = merge_watchlists(base, custom);
    let names: Vec<&str> = merged.iter().map(|i| i.name.as_str()).collect();
    assert_eq!(names, vec!["Alpha", "Beta", "Zeta"]);
    let ids: Vec<&str> = merged.iter().map(|i| i.identifier.as_str()).collect();
    assert_eq!(ids, vec!["A1", "B1", "Z1"]);
}

#[test]
fn merge_watchlists_keeps_base_duplicates() {
    let base = vec![instrument("One", "X"), instrument("Two", "X")];
    let merged = merge_watchlists(base, Vec::new());
    assert_eq!(merged.len(), 2);
}

#[test]
fn search_candidate_object_shape() {
    let v = obj(vec![
        ("name", s("Siemens")),
        ("isin", s("DE0007236101")),
        ("market", s("Xetra")),
    ]);
    let r = parse_search_candidate(&v).unwrap();
    assert_eq!(r.name, "Siemens");
    assert_eq!(r.identifier, "DE0007236101");
    assert_eq!(r.market, Some("Xetra".to_string()));
}

#[test]
fn search_candidate_aliases_and_missing_fields() {
    let v = obj(vec![("symbol", s("SIE")), ("wkn", s("723610"))]);
    let r = parse_search_candidate(&v).unwrap();
    assert_eq!(r.name, "SIE");
    assert_eq!(r.identifier, "723610");
    assert_eq!(r.market, None);
    let missing = obj(vec![("name", s("No Id"))]);
    assert!(parse_search_candidate(&missing).is_none());
    let non_string = obj(vec![
        ("name", JsonValue::Bool(true)),
        ("isin", s("X")),
    ]);
    assert!(parse_search_candidate(&non_string).is_none());
}

#[test]
fn search_candidate_array_shape() {
    let v = JsonValue::Arr(vec![s("Allianz"), s("DE0008404005")]);
    let r = parse_search_candidate(&v).unwrap();
    assert_eq!(r.name, "Allianz");
    assert_eq!(r.identifier, "DE0008404005");
    assert_eq!(r.market, None);
    assert!(parse_search_candidate(&JsonValue::Arr(vec![s("only one")])).is_none());
}

#[test]
fn search_results_unwrap_envelope_and_drop_malformed() {
    let payload = obj(vec![(
        "results",
        JsonValue::Arr(vec![
            obj(vec![("name", s("A")), ("isin", s("A1"))]),
            JsonValue::Null,
            obj(vec![("symbol", s("B")), ("identifier", s("B1"))]),
        ]),
    )]);
    let out = parse_search_results(payload);
    assert_eq!(out.len(), 2);
    assert_eq!(out[0].name, "A");
    assert_eq!(out[1].identifier, "B1");
}
