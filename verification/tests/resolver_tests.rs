use global_secrets_manager::bundle::{FetchError, FieldValue};
use global_secrets_manager::resolver::{resolve, Binding, Phase, Step, StoreReply};
use global_secrets_manager::schema::{DeclarationError, Field, FieldType, Schema};

fn sample() -> Binding {
    Binding::declare(
        "SampleSecrets",
        vec![Field::new("key1", FieldType::Text), Field::new("key2", FieldType::Text)],
    )
    .unwrap()
}

fn payload(raw: &str) -> StoreReply {
    StoreReply::Payload(raw.as_bytes().to_vec())
}

fn fetch(key: &str) -> Step {
    Step::Fetch { key: key.to_string() }
}

/// A store that counts how often it is asked, and under which keys.
struct CountingStore {
    reply: StoreReply,
    asked: Vec<String>,
}

impl CountingStore {
    fn get(&mut self, key: &str) -> StoreReply {
        self.asked.push(key.to_string());
        self.reply.clone()
    }
}

/// Runs `callers` accesses that all arrive before the store answers, then the
/// answer, then lets each waiting caller access again. Returns what each
/// caller read.
fn run_callers(
    binding: &mut Binding,
    store: &mut CountingStore,
    callers: usize,
) -> Vec<Result<global_secrets_manager::bundle::Bundle, FetchError>> {
    let mut pending: Option<String> = None;
    let mut waiting = 0;
    let mut seen = Vec::new();
    for _ in 0..callers {
        match binding.access() {
            Step::Fetch { key } => {
                assert!(pending.is_none());
                pending = Some(key);
                waiting += 1;
            }
            Step::Wait => waiting += 1,
            Step::Ready => seen.push(binding.outcome().unwrap().clone()),
        }
    }
    if let Some(key) = pending {
        let reply = store.get(&key);
        assert!(binding.complete(&reply));
    }
    for _ in 0..waiting {
        assert_eq!(binding.access(), Step::Ready);
        seen.push(binding.outcome().unwrap().clone());
    }
    seen
}

#[test]
fn a_fresh_binding_is_unstarted() {
    let binding = sample();
    assert_eq!(binding.phase(), &Phase::Unstarted);
    assert_eq!(binding.outcome(), None);
    assert_eq!(binding.bundle(), None);
    assert_eq!(binding.store_key(), "SampleSecrets");
    assert_eq!(binding.schema().name(), "SampleSecrets");
}

#[test]
fn the_first_access_fetches_under_the_schema_name() {
    let mut binding = sample();
    assert_eq!(binding.access(), fetch("SampleSecrets"));
    assert_eq!(binding.phase(), &Phase::InProgress);
    assert_eq!(binding.outcome(), None);
}

#[test]
fn accesses_during_the_fetch_wait() {
    let mut binding = sample();
    assert_eq!(binding.access(), fetch("SampleSecrets"));
    for _ in 0..5 {
        assert_eq!(binding.access(), Step::Wait);
        assert_eq!(binding.phase(), &Phase::InProgress);
    }
}

#[test]
fn resolution_yields_the_bundle() {
    let mut binding = sample();
    binding.access();
    assert!(binding.complete(&payload(r#"{"key1":"value1","key2":"value2"}"#)));
    assert_eq!(binding.access(), Step::Ready);
    let bundle = binding.bundle().unwrap();
    assert_eq!(bundle.get("key1"), Some(&FieldValue::Text("value1".to_string())));
    assert_eq!(bundle.get("key2"), Some(&FieldValue::Text("value2".to_string())));
    assert_eq!(binding.outcome(), Some(&Ok(bundle.clone())));
}

#[test]
fn exactly_once_fetch() {
    for callers in [1, 2, 7, 64] {
        let mut binding = sample();
        let mut store = CountingStore {
            reply: payload(r#"{"key1":"value1","key2":"value2"}"#),
            asked: vec![],
        };
        let seen = run_callers(&mut binding, &mut store, callers);
        assert_eq!(store.asked, vec!["SampleSecrets".to_string()]);
        assert_eq!(seen.len(), callers);
    }
}

#[test]
fn consistency() {
    let mut binding = sample();
    let mut store =
        CountingStore { reply: payload(r#"{"key1":"value1","key2":"value2"}"#), asked: vec![] };
    let seen = run_callers(&mut binding, &mut store, 16);
    assert!(seen[0].is_ok());
    assert!(seen.iter().all(|outcome| outcome == &seen[0]));

    let mut failing = sample();
    let mut broken = CountingStore { reply: payload(r#"{"key1":"value1"}"#), asked: vec![] };
    let seen = run_callers(&mut failing, &mut broken, 16);
    assert_eq!(seen[0], Err(FetchError::ParseError { field: "key2".to_string() }));
    assert!(seen.iter().all(|outcome| outcome == &seen[0]));
}

#[test]
fn idempotent_re_access() {
    let mut binding = sample();
    let mut store =
        CountingStore { reply: payload(r#"{"key1":"value1","key2":"value2"}"#), asked: vec![] };
    let first = run_callers(&mut binding, &mut store, 3);
    let again = run_callers(&mut binding, &mut store, 10);
    assert_eq!(store.asked.len(), 1);
    assert_eq!(again.len(), 10);
    assert!(again.iter().all(|outcome| outcome == &first[0]));
}

#[test]
fn store_miss() {
    let mut binding = sample();
    let mut store = CountingStore { reply: StoreReply::NotFound, asked: vec![] };
    let first = run_callers(&mut binding, &mut store, 1);
    assert_eq!(first, vec![Err(FetchError::NotFound)]);
    let second = run_callers(&mut binding, &mut store, 1);
    assert_eq!(second, vec![Err(FetchError::NotFound)]);
    assert_eq!(store.asked.len(), 1);
    assert_eq!(binding.bundle(), None);
}

#[test]
fn store_failures_are_passed_on() {
    let schema = Schema::declare("S", vec![Field::new("k", FieldType::Text)]).unwrap();
    assert_eq!(resolve(&schema, &StoreReply::NotFound), Err(FetchError::NotFound));
    assert_eq!(resolve(&schema, &StoreReply::TransportError), Err(FetchError::TransportError));
    assert_eq!(resolve(&schema, &StoreReply::AuthError), Err(FetchError::AuthError));
    assert_eq!(resolve(&schema, &payload("oops")), Err(FetchError::MalformedPayload));
    assert_eq!(
        resolve(&schema, &payload("{}")),
        Err(FetchError::ParseError { field: "k".to_string() })
    );
    assert!(resolve(&schema, &payload(r#"{"k":"v"}"#)).is_ok());
}

#[test]
fn a_failure_is_terminal() {
    for reply in [StoreReply::TransportError, StoreReply::AuthError, payload("[]")] {
        let mut binding = sample();
        binding.access();
        assert!(binding.complete(&reply));
        let recorded = binding.outcome().unwrap().clone();
        assert!(recorded.is_err());
        assert!(!binding.complete(&payload(r#"{"key1":"a","key2":"b"}"#)));
        assert_eq!(binding.access(), Step::Ready);
        assert_eq!(binding.outcome(), Some(&recorded));
    }
}

#[test]
fn a_reply_nobody_asked_for_is_dropped() {
    let mut binding = sample();
    assert!(!binding.complete(&payload(r#"{"key1":"a","key2":"b"}"#)));
    assert_eq!(binding.phase(), &Phase::Unstarted);
    assert_eq!(binding.access(), fetch("SampleSecrets"));
}

#[test]
fn a_second_reply_does_not_replace_the_outcome() {
    let mut binding = sample();
    binding.access();
    assert!(binding.complete(&payload(r#"{"key1":"a","key2":"b"}"#)));
    let recorded = binding.outcome().unwrap().clone();
    assert!(!binding.complete(&payload(r#"{"key1":"x","key2":"y"}"#)));
    assert!(!binding.complete(&StoreReply::NotFound));
    assert_eq!(binding.outcome(), Some(&recorded));
}

#[test]
fn declaration_validation() {
    assert_eq!(Binding::declare("SampleSecrets", vec![]), Err(DeclarationError::NoFields));
    assert_eq!(
        Binding::declare(
            "SampleSecrets",
            vec![Field::new("key1", FieldType::Text), Field::new("key1", FieldType::Text)]
        ),
        Err(DeclarationError::DuplicateField { name: "key1".to_string() })
    );
    assert_eq!(
        Binding::declare("", vec![Field::new("key1", FieldType::Text)]),
        Err(DeclarationError::EmptyName)
    );
}

#[test]
fn binding_a_declared_schema_starts_unstarted() {
    let schema = Schema::declare("S", vec![Field::new("k", FieldType::Flag)]).unwrap();
    let mut binding = Binding::new(schema);
    assert_eq!(binding.phase(), &Phase::Unstarted);
    assert_eq!(binding.access(), fetch("S"));
}
