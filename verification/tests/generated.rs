use toon_mcp::classifier::{Classifier, ShapeClass, FOLD_MIN_DEPTH, TABULAR_MIN_ROWS};
use toon_mcp::evals::toonkit::{decode_pipeline, encode_pipeline};
use toon_mcp::fidelity::values_equiv;
use toon_mcp::value::{JsonValue, Number};

const CASES: usize = 128;
const SAFE: i64 = 9_007_199_254_740_992;

/// A deterministic source of values.
struct Source(u64);

impl Source {
    fn below(&mut self, n: u64) -> u64 {
        self.0 = self.0.wrapping_mul(6_364_136_223_846_793_005).wrapping_add(1_442_695_040_888_963_407);
        (self.0 >> 16) % n
    }

    fn between(&mut self, low: i64, high: i64) -> i64 {
        low + self.below((high - low + 1) as u64) as i64
    }

    fn pick(&mut self, letters: &str) -> char {
        let all: Vec<char> = letters.chars().collect();
        all[self.below(all.len() as u64) as usize]
    }

    fn key(&mut self) -> String {
        let mut key = String::new();
        key.push(self.pick("abcdefghijklmnopqrstuvwxyz"));
        for _ in 0..self.below(8) {
            key.push(self.pick("abcdefghijklmnopqrstuvwxyz0123456789_"));
        }
        key
    }

    fn keys(&mut self, count: u64) -> Vec<String> {
        let mut keys: Vec<String> = Vec::new();
        while (keys.len() as u64) < count {
            let key = self.key();
            if !keys.contains(&key) {
                keys.push(key);
            }
        }
        keys
    }

    fn primitive(&mut self) -> JsonValue {
        match self.below(5) {
            0 => JsonValue::Null,
            1 => JsonValue::Bool(self.below(2) == 1),
            2 => match self.between(-SAFE, SAFE) {
                i if i < 0 => JsonValue::Number(Number::NegInt(i)),
                i => JsonValue::Number(Number::PosInt(i as u64)),
            },
            3 => {
                let n = self.between(-1_000_000, 1_000_000) as f64;
                let scale = 10f64.powi(self.between(1, 4) as i32);
                JsonValue::Number(Number::Float(format!("{:?}", n / scale)))
            }
            _ => {
                let length = self.below(17);
                let text = (0..length).map(|_| char::from(32 + self.below(95) as u8)).collect();
                JsonValue::String(text)
            }
        }
    }

    fn table(&mut self, rows: u64) -> JsonValue {
        let columns = 1 + self.below(4);
        let keys = self.keys(columns);
        let mut items = Vec::new();
        for _ in 0..rows {
            let members = keys.iter().map(|k| (k.clone(), self.primitive())).collect();
            items.push(JsonValue::Object(members));
        }
        JsonValue::Array(items)
    }

    fn chain(&mut self, depth: u64) -> JsonValue {
        let mut value = self.primitive();
        for _ in 0..depth {
            value = JsonValue::Object(vec![(self.key(), value)]);
        }
        value
    }
}

fn as_f64(n: &Number) -> f64 {
    match n {
        Number::PosInt(u) => *u as f64,
        Number::NegInt(i) => *i as f64,
        Number::Float(t) => t.parse().expect("decimal text"),
    }
}

fn close(x: &Number, y: &Number) -> bool {
    let (fx, fy) = (as_f64(x), as_f64(y));
    (fx - fy).abs() <= 1e-9 * fx.abs().max(fy.abs()).max(1.0)
}

fn assert_round_trips(value: &JsonValue) {
    let toon = encode_pipeline(value).expect("encode must succeed");
    let decoded = decode_pipeline(&toon).expect("decode must succeed");
    assert!(
        values_equiv(value, &decoded, &close),
        "round trip drifted\noriginal: {value:?}\nencoded:\n{toon}\ndecoded: {decoded:?}"
    );
}

#[test]
fn tabular_arrays_round_trip() {
    let mut source = Source(1);
    for _ in 0..CASES {
        let rows = 3 + source.below(6);
        assert_round_trips(&source.table(rows));
    }
}

#[test]
fn fold_chains_round_trip() {
    let mut source = Source(2);
    for _ in 0..CASES {
        let depth = 3 + source.below(4);
        assert_round_trips(&source.chain(depth));
    }
}

#[test]
fn primitive_arrays_round_trip() {
    let mut source = Source(3);
    for _ in 0..CASES {
        let length = 5 + source.below(16);
        let items = (0..length).map(|_| source.primitive()).collect();
        assert_round_trips(&JsonValue::Array(items));
    }
}

#[test]
fn uniform_object_arrays_classify_as_tabular() {
    let mut source = Source(4);
    for _ in 0..CASES {
        let rows = TABULAR_MIN_ROWS as u64 + source.below(4);
        assert_eq!(Classifier::classify(&source.table(rows)), ShapeClass::Tabular);
    }
}

#[test]
fn deep_single_key_chains_classify_as_fold_chain() {
    let mut source = Source(5);
    for _ in 0..CASES {
        let depth = FOLD_MIN_DEPTH as u64 + source.below(4);
        assert_eq!(Classifier::classify(&source.chain(depth)), ShapeClass::FoldChain);
    }
}

#[test]
fn scalar_roots_classify_as_pass_through() {
    let mut source = Source(6);
    for _ in 0..CASES {
        assert_eq!(Classifier::classify(&source.primitive()), ShapeClass::PassThrough);
    }
}

#[test]
fn number_tolerance_is_reflexive_and_symmetric() {
    let mut source = Source(7);
    for _ in 0..CASES {
        let (a, b) = (source.primitive(), source.primitive());
        assert!(values_equiv(&a, &a, &close));
        assert_eq!(values_equiv(&a, &b, &close), values_equiv(&b, &a, &close));
        let i = source.between(-SAFE, SAFE);
        let whole = if i < 0 { Number::NegInt(i) } else { Number::PosInt(i as u64) };
        assert!(close(&whole, &Number::Float(format!("{i}.0"))));
    }
}
