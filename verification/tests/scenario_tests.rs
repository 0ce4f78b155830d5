use reactive_state::bootstrap::{Bootstrap, Completion, FetchState};
use reactive_state::graph::Graph;
use reactive_state::persist::{load_text, load_value, store_key, Origin, Slot};
use reactive_state::rates::{decode_rates, entry_from, table_from, RateEntry};
use std::collections::HashMap;

#[derive(Clone, Debug, PartialEq)]
enum Val {
    Num(f64),
    Text(String),
    Table(HashMap<String, f64>),
}

struct Calc {
    g: Graph<Val>,
    currency: usize,
    price_nearby: usize,
    currency_nearby: usize,
    price_far: usize,
    currency_far: usize,
    fuel_amount: usize,
    conversion_factor: usize,
    price_far_converted: usize,
    fuel_kosts_near: usize,
}

fn calc() -> Calc {
    let mut g = Graph::new();
    let currency = g.add_cell(Val::Table(HashMap::new()));
    let price_nearby = g.add_cell(Val::Num(1.779));
    let currency_nearby = g.add_cell(Val::Text(String::from("eur")));
    let price_far = g.add_cell(Val::Num(5.779));
    let currency_far = g.add_cell(Val::Text(String::from("pln")));
    let fuel_amount = g.add_cell(Val::Num(45.0));
    let conversion_factor = g.add_memo();
    let price_far_converted = g.add_memo();
    let fuel_kosts_near = g.add_memo();
    Calc {
        g,
        currency,
        price_nearby,
        currency_nearby,
        price_far,
        currency_far,
        fuel_amount,
        conversion_factor,
        price_far_converted,
        fuel_kosts_near,
    }
}

impl Calc {
    fn pull(&mut self, id: usize) -> Val {
        match self.g.read(id).cloned() {
            Some(v) => v,
            None => {
                self.g.begin(id);
                let v = self.compute(id);
                self.g.finish_memo(id, v.clone());
                v
            }
        }
    }

    fn num(&mut self, id: usize) -> f64 {
        match self.pull(id) {
            Val::Num(x) => x,
            other => panic!("not a number: {:?}", other),
        }
    }

    fn rate(&mut self, code_cell: usize) -> f64 {
        let code = match self.pull(code_cell) {
            Val::Text(s) => s,
            other => panic!("not a text: {:?}", other),
        };
        match self.pull(self.currency) {
            Val::Table(t) => t.get(&code).copied().unwrap_or(1.0),
            other => panic!("not a table: {:?}", other),
        }
    }

    fn compute(&mut self, id: usize) -> Val {
        if id == self.conversion_factor {
            let near = self.rate(self.currency_nearby);
            let far = self.rate(self.currency_far);
            Val::Num(near / far)
        } else if id == self.price_far_converted {
            Val::Num(self.num(self.price_far) * self.num(self.conversion_factor))
        } else {
            Val::Num(self.num(self.price_nearby) * self.num(self.fuel_amount))
        }
    }
}

fn table(entries: &[RateEntry]) -> Val {
    let mut t = HashMap::new();
    for e in entries {
        t.insert(e.key.clone(), e.rate.parse::<f64>().unwrap());
    }
    Val::Table(t)
}

const BODY: &str = "{\"eur\": {\"code\": \"EUR\", \"rate\": 1.0}, \"pln\": {\"code\": \"PLN\", \"rate\": 4.3, \"name\": \"Polish Zloty\"}}";

#[test]
fn conversion_scenario() {
    let mut c = calc();
    assert_eq!(c.num(c.conversion_factor), 1.0);
    let mut task = Bootstrap::new(c.currency, false);
    assert!(task.start());
    let decoded = decode_rates(BODY).map(|t| table(&t));
    assert!(decoded.is_some());
    match task.complete(&mut c.g, decoded) {
        Completion::Applied { effects, cache } => {
            assert!(effects.is_empty());
            assert!(!cache);
        }
        Completion::Discarded => panic!("a well-formed table was discarded"),
    }
    assert_eq!(task.state, FetchState::Succeeded);
    assert!(c.g.is_dirty(c.conversion_factor));
    assert!(c.g.is_dirty(c.price_far_converted));
    let factor = c.num(c.conversion_factor);
    assert_eq!(factor, 1.0 / 4.3);
    assert!((factor - 0.2326).abs() < 0.0001);
    let converted = c.num(c.price_far_converted);
    assert_eq!(converted, 5.779 * (1.0 / 4.3));
    assert!((converted - 1.3443).abs() < 0.001);
}

#[test]
fn fuel_cost_scenario() {
    let mut c = calc();
    let cost = c.num(c.fuel_kosts_near);
    assert_eq!(cost, 1.779 * 45.0);
    assert!((cost - 80.055).abs() < 1e-9);
    assert_eq!(c.g.dependencies(c.fuel_kosts_near), vec![c.price_nearby, c.fuel_amount]);
}

#[test]
fn malformed_payload_leaves_cell_unchanged() {
    let mut c = calc();
    let before = c.g.value(c.currency).cloned();
    let _ = c.num(c.conversion_factor);
    let mut task = Bootstrap::new(c.currency, true);
    assert!(task.start());
    let decoded = decode_rates("{not json").map(|t| table(&t));
    assert!(decoded.is_none());
    assert!(matches!(task.complete(&mut c.g, decoded), Completion::Discarded));
    assert_eq!(task.state, FetchState::Failed);
    assert_eq!(c.g.value(c.currency).cloned(), before);
    assert_eq!(c.g.version(c.currency), 0);
    assert!(!c.g.is_dirty(c.conversion_factor));
}

#[test]
fn bootstrap_starts_once() {
    let mut task = Bootstrap::new(3, true);
    assert_eq!(task.state, FetchState::NotStarted);
    assert_eq!(task.target, 3);
    assert!(task.caches);
    assert!(task.start());
    assert_eq!(task.state, FetchState::InFlight);
    assert!(!task.start());
    assert_eq!(task.state, FetchState::InFlight);
}

#[test]
fn completion_without_a_fetch_is_ignored() {
    let mut g = Graph::new();
    let x = g.add_cell(1u32);
    let mut task = Bootstrap::new(x, true);
    assert!(matches!(task.complete(&mut g, Some(9)), Completion::Discarded));
    assert_eq!(task.state, FetchState::NotStarted);
    assert_eq!(g.value(x), Some(&1));
    assert_eq!(g.version(x), 0);
}

#[test]
fn completion_writes_and_reports_effects_and_caching() {
    let mut g = Graph::new();
    let x = g.add_cell(1u32);
    let e = g.add_effect();
    g.begin(e);
    assert_eq!(g.read(x), Some(&1));
    g.finish_effect(e);
    let mut task = Bootstrap::new(x, true);
    assert!(task.start());
    match task.complete(&mut g, Some(9)) {
        Completion::Applied { effects, cache } => {
            assert_eq!(effects, vec![e]);
            assert!(cache);
        }
        Completion::Discarded => panic!("a decoded payload was discarded"),
    }
    assert_eq!(g.value(x), Some(&9));
    assert_eq!(g.version(x), 1);
    assert_eq!(task.state, FetchState::Succeeded);
    assert!(matches!(task.complete(&mut g, Some(10)), Completion::Discarded));
    assert_eq!(g.value(x), Some(&9));
}

#[test]
fn decode_reads_every_member() {
    let t = decode_rates(BODY).unwrap();
    assert_eq!(t.len(), 2);
    assert_eq!(t[0].key, "eur");
    assert_eq!(t[0].code, "EUR");
    assert_eq!(t[0].rate, "1.0");
    assert_eq!(t[1].key, "pln");
    assert_eq!(t[1].code, "PLN");
    assert_eq!(t[1].rate, "4.3");
    assert_eq!(t[1].rate.parse::<f64>(), Ok(4.3));
}

#[test]
fn decode_accepts_the_empty_object() {
    assert_eq!(decode_rates("{}").map(|t| t.len()), Some(0));
}

#[test]
fn decode_rejects_what_is_no_table() {
    assert!(decode_rates("").is_none());
    assert!(decode_rates("{not json").is_none());
    assert!(decode_rates("[1, 2]").is_none());
    assert!(decode_rates("\"eur\"").is_none());
    assert!(decode_rates("{\"eur\": 1.0}").is_none());
    assert!(decode_rates("{\"eur\": {\"code\": \"EUR\"}}").is_none());
    assert!(decode_rates("{\"eur\": {\"rate\": 1.0}}").is_none());
    assert!(decode_rates("{\"eur\": {\"code\": 7, \"rate\": 1.0}}").is_none());
    assert!(decode_rates("{\"eur\": {\"code\": \"EUR\", \"rate\": \"1.0\"}}").is_none());
    assert!(decode_rates(
        "{\"eur\": {\"code\": \"EUR\", \"rate\": 1.0}, \"pln\": {\"code\": \"PLN\"}}"
    )
    .is_none());
}

#[test]
fn entry_is_read_from_a_json_object() {
    let v: serde_json::Value =
        serde_json::from_str("{\"code\": \"USD\", \"rate\": 2, \"date\": \"today\"}").unwrap();
    let e = entry_from(&String::from("usd"), &v).unwrap();
    assert_eq!(e.key, "usd");
    assert_eq!(e.code, "USD");
    assert_eq!(e.rate, "2");
    assert!(entry_from(&String::from("usd"), &serde_json::Value::Null).is_none());
}

#[test]
fn table_keeps_the_order_of_its_members() {
    let a: serde_json::Value = serde_json::from_str("{\"code\": \"B\", \"rate\": 2.5}").unwrap();
    let b: serde_json::Value = serde_json::from_str("{\"code\": \"A\", \"rate\": 3}").unwrap();
    let ms = vec![(String::from("zz"), a), (String::from("aa"), b.clone())];
    let t = table_from(&ms).unwrap();
    assert_eq!(t.len(), 2);
    assert_eq!((t[0].key.as_str(), t[0].code.as_str()), ("zz", "B"));
    assert_eq!((t[1].key.as_str(), t[1].code.as_str()), ("aa", "A"));
    assert_eq!((t[0].rate.as_str(), t[1].rate.as_str()), ("2.5", "3"));
    let spoiled = vec![(String::from("aa"), b), (String::from("bb"), serde_json::Value::Bool(true))];
    assert!(table_from(&spoiled).is_none());
    assert_eq!(table_from(&Vec::new()).map(|t| t.len()), Some(0));
}

#[test]
fn keys_of_the_store() {
    assert_eq!(store_key(Slot::Currencies), "currencies");
    assert_eq!(store_key(Slot::PriceNearby), "price_nearby");
    assert_eq!(store_key(Slot::PriceFar), "price_far");
    assert_eq!(store_key(Slot::CurrencyNearby), "currency_nearby");
    assert_eq!(store_key(Slot::CurrencyFar), "currency_far");
}

#[test]
fn load_text_falls_back_to_default() {
    assert_eq!(load_text(Some(String::from("pln")), String::from("eur")), "pln");
    assert_eq!(load_text(None, String::from("eur")), "eur");
    assert_eq!(load_text(Some(String::new()), String::from("eur")), "");
}

/// Saves a number as decimal text, as the adapter around the store does.
fn save_number(store: &mut HashMap<String, String>, key: &str, value: f64) {
    store.insert(String::from(key), format!("{}", value));
}

/// Loads a number: the stored text, parsed, or the default.
fn load_number(store: &HashMap<String, String>, key: &str, default: f64) -> (f64, Origin) {
    let text = store.get(key).cloned();
    load_value(text.and_then(|t| t.parse::<f64>().ok()), default)
}

#[test]
fn number_round_trip_through_the_store() {
    let mut store = HashMap::new();
    save_number(&mut store, "k", 5.779);
    assert_eq!(store.get("k").map(String::as_str), Some("5.779"));
    let fresh = store.clone();
    assert_eq!(load_number(&fresh, "k", 0.0), (5.779, Origin::Stored));
}

#[test]
fn missing_key_yields_default() {
    let store = HashMap::new();
    assert_eq!(load_number(&store, "missing", 2.5), (2.5, Origin::Fallback));
}

#[test]
fn malformed_number_yields_default() {
    let mut store = HashMap::new();
    store.insert(String::from("price_far"), String::from("five"));
    assert_eq!(load_number(&store, "price_far", 5.779), (5.779, Origin::Fallback));
}

#[test]
fn structured_load_falls_back_on_decode_failure() {
    let stored = load_text(Some(String::from("{not json")), String::from("{}"));
    let (t, origin) = load_value(decode_rates(&stored), Vec::new());
    assert!(t.is_empty());
    assert_eq!(origin, Origin::Fallback);
    let (t, origin) = load_value(decode_rates(BODY), Vec::new());
    assert_eq!(t.len(), 2);
    assert_eq!(origin, Origin::Stored);
}

#[test]
fn decode_reads_numbers_of_every_form() {
    let t = decode_rates(
        "{\"a\": {\"code\": \"A\", \"rate\": -3}, \"b\": {\"code\": \"\", \"rate\": 0.5e1}}",
    )
    .unwrap();
    assert_eq!(t[0].rate, "-3");
    assert_eq!(t[1].rate, "5.0");
    assert_eq!(t[1].code, "");
}

#[test]
fn decode_ignores_members_nested_deeper() {
    assert!(decode_rates("{\"eur\": {\"inner\": {\"code\": \"EUR\", \"rate\": 1.0}}}").is_none());
    assert!(decode_rates("{\"eur\": [\"EUR\", 1.0]}").is_none());
    assert!(decode_rates("{\"eur\": {\"code\": null, \"rate\": 1.0}}").is_none());
    assert!(decode_rates("{\"eur\": {\"code\": \"EUR\", \"rate\": true}}").is_none());
}
