use rtbot::double::ScriptedEngine;
use rtbot::engine::{PipelineEngine, RtBotMessage};
use rtbot::registry::{engine_verdict, PipelinesRegistry, RegistryError};

/// An engine double: refuses the program "bad", refuses to delete the ids
/// listed in `refuse_delete`, and answers each data point with one result
/// whose values are doubled. It records every call.
struct RecordingEngine {
    calls: Vec<String>,
    refuse_delete: Vec<String>,
    alive: Vec<String>,
}

impl RecordingEngine {
    fn new() -> Self {
        RecordingEngine { calls: Vec::new(), refuse_delete: Vec::new(), alive: Vec::new() }
    }
}

impl PipelineEngine for RecordingEngine {
    type Value = f64;

    fn create_pipeline(&mut self, id: &String, program: &String) -> String {
        self.calls.push(format!("create {}", id));
        if program == "bad" {
            "malformed program".to_string()
        } else {
            self.alive.push(id.clone());
            String::new()
        }
    }

    fn delete_pipeline(&mut self, id: &String) -> String {
        self.calls.push(format!("delete {}", id));
        self.alive.retain(|a| a != id);
        if self.refuse_delete.contains(id) {
            "cannot delete".to_string()
        } else {
            String::new()
        }
    }

    fn receive_message_in_pipeline(
        &mut self,
        id: &String,
        message: RtBotMessage<f64>,
    ) -> Vec<RtBotMessage<f64>> {
        self.calls.push(format!("receive {}", id));
        vec![RtBotMessage {
            timestamp: message.timestamp,
            values: message.values.iter().map(|v| v * 2.0).collect(),
        }]
    }
}

fn s(x: &str) -> String {
    x.to_string()
}

#[test]
fn create_delete_then_receive_nothing() {
    let mut reg = PipelinesRegistry::new();
    let mut eng = RecordingEngine::new();
    let id = reg
        .create(&mut eng, &s("valid-program"), &s("sensor:1"), &s("alerts:1"))
        .ok()
        .unwrap();
    assert!(!id.is_empty());
    assert_eq!(id.chars().count(), 5);
    assert!(reg.delete(&mut eng, &s("sensor:1"), &s("alerts:1")).is_ok());
    let r = reg.receive(&mut eng, &s("sensor:1"), 1000, vec![42.0]);
    assert!(r.is_empty());
    assert!(eng.alive.is_empty());
}

#[test]
fn second_create_is_already_exists_with_first_id() {
    let mut reg = PipelinesRegistry::new();
    let mut eng = RecordingEngine::new();
    let first = reg.create(&mut eng, &s("p"), &s("in"), &s("out")).ok().unwrap();
    match reg.create(&mut eng, &s("p"), &s("in"), &s("out")) {
        Err(RegistryError::AlreadyExists(id)) => assert_eq!(id, first),
        _ => panic!("expected AlreadyExists"),
    }
    assert_eq!(reg.pipeline_id(&s("in"), &s("out")), Some(first));
    assert_eq!(eng.alive.len(), 1);
}

#[test]
fn delete_absent_is_not_found() {
    let mut reg = PipelinesRegistry::new();
    let mut eng = RecordingEngine::new();
    let id = reg.create(&mut eng, &s("p"), &s("in"), &s("out")).ok().unwrap();
    assert!(matches!(reg.delete(&mut eng, &s("in"), &s("other")), Err(RegistryError::NotFound)));
    assert!(matches!(reg.delete(&mut eng, &s("x"), &s("out")), Err(RegistryError::NotFound)));
    assert_eq!(reg.pipeline_id(&s("in"), &s("out")), Some(id));
}

#[test]
fn receive_unbound_key_is_empty() {
    let reg = PipelinesRegistry::new();
    let mut eng = RecordingEngine::new();
    assert!(reg.receive(&mut eng, &s("nothing"), 5, vec![1.0]).is_empty());
    assert!(eng.calls.is_empty());
}

#[test]
fn receive_dispatches_in_output_key_order() {
    let mut reg = PipelinesRegistry::new();
    let mut eng = RecordingEngine::new();
    let c = reg.create(&mut eng, &s("p"), &s("k"), &s("c")).ok().unwrap();
    let a = reg.create(&mut eng, &s("p"), &s("k"), &s("a")).ok().unwrap();
    let b = reg.create(&mut eng, &s("p"), &s("k"), &s("b")).ok().unwrap();
    reg.create(&mut eng, &s("p"), &s("other"), &s("a")).ok().unwrap();
    eng.calls.clear();
    let r = reg.receive(&mut eng, &s("k"), 7, vec![1.5]);
    let keys: Vec<&str> = r.iter().map(|e| e.0.as_str()).collect();
    assert_eq!(keys, vec!["a", "b", "c"]);
    assert_eq!(
        eng.calls,
        vec![format!("receive {}", a), format!("receive {}", b), format!("receive {}", c)]
    );
    assert_eq!(r[0].1.len(), 1);
    assert_eq!(r[0].1[0].timestamp, 7);
    assert_eq!(r[0].1[0].values, vec![3.0]);
}

#[test]
fn byte_order_of_keys() {
    let mut reg = PipelinesRegistry::new();
    let mut eng = RecordingEngine::new();
    for out in ["b", "B", "ab", "a", "é"] {
        reg.create(&mut eng, &s("p"), &s("k"), &s(out)).ok().unwrap();
    }
    let r = reg.receive(&mut eng, &s("k"), 1, vec![0.0]);
    let keys: Vec<&str> = r.iter().map(|e| e.0.as_str()).collect();
    assert_eq!(keys, vec!["B", "a", "ab", "b", "é"]);
}

#[test]
fn engine_refusal_changes_nothing() {
    let mut reg = PipelinesRegistry::new();
    let mut eng = RecordingEngine::new();
    match reg.create(&mut eng, &s("bad"), &s("in"), &s("out")) {
        Err(RegistryError::EngineRejected(d)) => assert_eq!(d, "malformed program"),
        _ => panic!("expected EngineRejected"),
    }
    assert_eq!(reg.pipeline_id(&s("in"), &s("out")), None);
}

#[test]
fn delete_is_optimistic() {
    let mut reg = PipelinesRegistry::new();
    let mut eng = RecordingEngine::new();
    let id = reg.create(&mut eng, &s("p"), &s("in"), &s("out")).ok().unwrap();
    eng.refuse_delete.push(id);
    match reg.delete(&mut eng, &s("in"), &s("out")) {
        Err(RegistryError::EngineRejected(d)) => assert_eq!(d, "cannot delete"),
        _ => panic!("expected EngineRejected"),
    }
    assert_eq!(reg.pipeline_id(&s("in"), &s("out")), None);
}

#[test]
fn round_trip_leaves_mapping_as_before() {
    let mut reg = PipelinesRegistry::new();
    let mut eng = RecordingEngine::new();
    let keep = reg.create(&mut eng, &s("p"), &s("other"), &s("x")).ok().unwrap();
    reg.create(&mut eng, &s("p"), &s("in"), &s("out")).ok().unwrap();
    for t in 0..4u64 {
        let r = reg.receive(&mut eng, &s("in"), t, vec![t as f64]);
        assert_eq!(r.len(), 1);
    }
    assert!(reg.delete(&mut eng, &s("in"), &s("out")).is_ok());
    assert_eq!(reg.pipeline_id(&s("in"), &s("out")), None);
    assert_eq!(reg.pipeline_id(&s("other"), &s("x")), Some(keep));
    assert!(reg.receive(&mut eng, &s("in"), 9, vec![1.0]).is_empty());
}

#[test]
fn delete_by_input_key_counts() {
    let mut reg = PipelinesRegistry::new();
    let mut eng = RecordingEngine::new();
    for out in ["c", "a", "b"] {
        reg.create(&mut eng, &s("p"), &s("k"), &s(out)).ok().unwrap();
    }
    let other = reg.create(&mut eng, &s("p"), &s("j"), &s("a")).ok().unwrap();
    assert!(matches!(reg.delete_by_input_key(&mut eng, &s("k")), Ok(3)));
    assert!(reg.receive(&mut eng, &s("k"), 1, vec![1.0]).is_empty());
    assert_eq!(reg.pipeline_id(&s("j"), &s("a")), Some(other));
    assert!(matches!(reg.delete_by_input_key(&mut eng, &s("k")), Ok(0)));
}

#[test]
fn delete_by_input_key_stops_at_first_refusal() {
    let mut reg = PipelinesRegistry::new();
    let mut eng = RecordingEngine::new();
    reg.create(&mut eng, &s("p"), &s("k"), &s("a")).ok().unwrap();
    let b = reg.create(&mut eng, &s("p"), &s("k"), &s("b")).ok().unwrap();
    let c = reg.create(&mut eng, &s("p"), &s("k"), &s("c")).ok().unwrap();
    eng.refuse_delete.push(b);
    assert!(matches!(
        reg.delete_by_input_key(&mut eng, &s("k")),
        Err(RegistryError::EngineRejected(_))
    ));
    assert_eq!(reg.pipeline_id(&s("k"), &s("a")), None);
    assert_eq!(reg.pipeline_id(&s("k"), &s("b")), None);
    assert_eq!(reg.pipeline_id(&s("k"), &s("c")), Some(c));
}

#[test]
fn engine_verdict_reads_replies() {
    assert!(engine_verdict(&String::new()).is_ok());
    match engine_verdict(&s("no")) {
        Err(RegistryError::EngineRejected(d)) => assert_eq!(d, "no"),
        _ => panic!("expected EngineRejected"),
    }
}

#[test]
fn scripted_engine_drives_the_registry() {
    let mut reg = PipelinesRegistry::new();
    let mut refusing: ScriptedEngine<f64> = ScriptedEngine::new(s("no such operator"), String::new());
    match reg.create(&mut refusing, &s("p"), &s("in"), &s("out")) {
        Err(RegistryError::EngineRejected(d)) => assert_eq!(d, "no such operator"),
        _ => panic!("expected EngineRejected"),
    }
    assert_eq!(reg.pipeline_id(&s("in"), &s("out")), None);

    let mut eng: ScriptedEngine<f64> = ScriptedEngine::new(String::new(), s("busy"));
    let id = reg.create(&mut eng, &s("p"), &s("in"), &s("out")).ok().unwrap();
    let r = reg.receive(&mut eng, &s("in"), 3, vec![4.5, 5.5]);
    assert_eq!(r.len(), 1);
    assert_eq!(r[0].0, "out");
    assert_eq!(r[0].1.len(), 1);
    assert_eq!(r[0].1[0].timestamp, 3);
    assert_eq!(r[0].1[0].values, vec![4.5, 5.5]);
    assert_eq!(reg.pipeline_id(&s("in"), &s("out")), Some(id));
    match reg.delete(&mut eng, &s("in"), &s("out")) {
        Err(RegistryError::EngineRejected(d)) => assert_eq!(d, "busy"),
        _ => panic!("expected EngineRejected"),
    }
    assert_eq!(reg.pipeline_id(&s("in"), &s("out")), None);
}
