use rtbot::config::InputJsonPath;
use rtbot::engine::{PipelineEngine, RtBotMessage};
use rtbot::manager::PipelinesManager;
use rtbot::outputs::{notification_channel, output_writes};
use rtbot::registry::{PipelinesRegistry, RegistryError};
use rtbot::rejection::{rejection_reply, RejectionKind};
use rtbot::validator::{validation_message, ProgramJsonSchemaValidator};
use rtbot::rtbot_run::{parse_args, run as run_command, CommandError};
use rtbot::rtbot_xrun::{is_sample_event, on_generic_event, run as xrun_command};
use rtbot::services::{new_program_keys, program_keys, service_keys, PullRedisService};

/// Emits, for every data point, one result with the value plus ten, except
/// for odd timestamps, where it emits nothing.
struct Offset;

impl PipelineEngine for Offset {
    type Value = f64;

    fn create_pipeline(&mut self, _id: &String, _program: &String) -> String {
        String::new()
    }

    fn delete_pipeline(&mut self, _id: &String) -> String {
        String::new()
    }

    fn receive_message_in_pipeline(
        &mut self,
        _id: &String,
        message: RtBotMessage<f64>,
    ) -> Vec<RtBotMessage<f64>> {
        if message.timestamp % 2 == 1 {
            vec![]
        } else {
            vec![RtBotMessage {
                timestamp: message.timestamp,
                values: message.values.iter().map(|v| v + 10.0).collect(),
            }]
        }
    }
}

fn args(a: &[&str]) -> Vec<String> {
    a.iter().map(|x| x.to_string()).collect()
}

fn s(x: &str) -> String {
    x.to_string()
}

#[test]
fn parse_args_cases() {
    assert!(matches!(parse_args(&args(&["rtbot.run"])), Err(CommandError::MissingProgramKey)));
    assert!(matches!(parse_args(&args(&["rtbot.run", "p"])), Err(CommandError::MissingInputKey)));
    assert!(matches!(
        parse_args(&args(&["rtbot.run", "p", "i"])),
        Err(CommandError::MissingOutputKey)
    ));
    let a = parse_args(&args(&["rtbot.run", "p", "i", "o"])).ok().unwrap();
    assert_eq!((a.program_key.as_str(), a.input_key.as_str(), a.output_key.as_str()), ("p", "i", "o"));
    assert!(!a.persist);
    assert!(parse_args(&args(&["rtbot.run", "p", "i", "o", "true"])).ok().unwrap().persist);
    assert!(!parse_args(&args(&["rtbot.run", "p", "i", "o", "false"])).ok().unwrap().persist);
    match parse_args(&args(&["rtbot.run", "p", "i", "o", "yes"])) {
        Err(CommandError::InvalidPersistFlag(f)) => assert_eq!(f, "yes"),
        _ => panic!("expected InvalidPersistFlag"),
    }
}

#[test]
fn xrun_forwards_with_persist() {
    let v = xrun_command(&args(&["rtbot.xrun", "p", "i", "o"])).ok().unwrap();
    assert_eq!(v, args(&["p", "i", "o", "true"]));
    assert!(matches!(xrun_command(&args(&["rtbot.xrun", "p"])), Err(CommandError::MissingInputKey)));
}

#[test]
fn sample_events() {
    assert!(is_sample_event("ts.add"));
    assert!(!is_sample_event("ts.addx"));
    assert!(!is_sample_event("set"));
}

#[test]
fn run_replays_history_and_tears_down() {
    let mut reg = PipelinesRegistry::new();
    let history = vec![(2u64, 1.0), (3, 2.0), (4, 3.0)];
    let out = run_command(&mut reg, &mut Offset, &s("prog"), &s("in"), &s("out"), false, &history)
        .ok()
        .unwrap();
    assert_eq!(out.pipeline_id.chars().count(), 5);
    let w: Vec<(String, u64, f64)> =
        out.writes.into_iter().map(|w| (w.output_key, w.timestamp, w.value)).collect();
    assert_eq!(w, vec![(s("out"), 2, 11.0), (s("out"), 4, 13.0)]);
    assert!(matches!(out.teardown, Some(Ok(()))));
    assert_eq!(reg.pipeline_id(&s("in"), &s("out")), None);
}

#[test]
fn run_keeps_pipeline_when_persisting() {
    let mut reg = PipelinesRegistry::new();
    let out = run_command(&mut reg, &mut Offset, &s("prog"), &s("in"), &s("out"), true, &vec![])
        .ok()
        .unwrap();
    assert!(out.writes.is_empty());
    assert!(out.teardown.is_none());
    assert_eq!(reg.pipeline_id(&s("in"), &s("out")), Some(out.pipeline_id));
    assert!(matches!(
        run_command(&mut reg, &mut Offset, &s("prog"), &s("in"), &s("out"), true, &vec![]),
        Err(RegistryError::AlreadyExists(_))
    ));
}

#[test]
fn on_generic_event_routes_to_bound_outputs() {
    let mut reg = PipelinesRegistry::new();
    reg.create(&mut Offset, &s("p"), &s("k"), &s("y")).ok().unwrap();
    reg.create(&mut Offset, &s("p"), &s("k"), &s("x")).ok().unwrap();
    let w = on_generic_event(&reg, &mut Offset, &s("k"), 10, 5.0);
    let w: Vec<(String, u64, f64)> =
        w.into_iter().map(|w| (w.output_key, w.timestamp, w.value)).collect();
    assert_eq!(w, vec![(s("x"), 10, 15.0), (s("y"), 10, 15.0)]);
    assert!(on_generic_event(&reg, &mut Offset, &s("k"), 11, 5.0).is_empty());
    assert!(on_generic_event(&reg, &mut Offset, &s("none"), 10, 5.0).is_empty());
}

#[test]
fn output_writes_skip_empty_results() {
    let results = vec![
        (s("a"), vec![]),
        (s("b"), vec![RtBotMessage { timestamp: 3, values: vec![] }]),
        (
            s("c"),
            vec![
                RtBotMessage { timestamp: 4, values: vec![7.0, 8.0] },
                RtBotMessage { timestamp: 5, values: vec![9.0] },
            ],
        ),
    ];
    let w: Vec<(String, u64, f64)> =
        output_writes(results).into_iter().map(|w| (w.output_key, w.timestamp, w.value)).collect();
    assert_eq!(w, vec![(s("c"), 4, 7.0)]);
}

#[test]
fn channel_and_program_keys() {
    assert_eq!(notification_channel(&s("alerts:1")), "alerts:1:ps");
    let k = program_keys(&s("ab_12"));
    assert_eq!(k.program_key, "p:ab_12");
    assert_eq!(k.input_key, "p:i:ab_12");
    assert_eq!(k.output_key, "p:o:ab_12");
    assert_eq!(k.output_pubsub_key, "p:o:ab_12:ps");
    let k = new_program_keys();
    assert_eq!(k.program_key.chars().count(), 7);
    assert_eq!(k.output_pubsub_key, format!("{}:ps", k.output_key));
    let (p, i, o) = service_keys(&s("xyz"));
    assert_eq!((p.as_str(), i.as_str(), o.as_str()), ("p:xyz", "p:xyz:i", "p:xyz:o"));
}

#[test]
fn input_json_path_default() {
    let d = InputJsonPath::default();
    assert_eq!(d.timestamp, Some(s("$.timestamp")));
    assert_eq!(d.values, vec![s("$.value")]);
}

#[test]
fn pull_service_keeps_its_settings() {
    let p = PullRedisService::new(s("redis://localhost"), s("p:o:abc:ps"));
    assert_eq!(p.url(), "redis://localhost");
    assert_eq!(p.output_pubsub_key(), "p:o:abc:ps");
}

#[test]
fn manager_forwards_to_registry() {
    let mut m = PipelinesManager::new();
    m.create(&mut Offset, &s("p"), &s("k"), &s("a")).ok().unwrap();
    m.create(&mut Offset, &s("p"), &s("k"), &s("b")).ok().unwrap();
    assert!(matches!(m.delete(&mut Offset, &s("k"), &s("zz")), Err(RegistryError::NotFound)));
    assert!(m.delete(&mut Offset, &s("k"), &s("a")).is_ok());
    assert!(matches!(m.delete_by_input_key(&mut Offset, &s("k")), Ok(1)));
}

#[test]
fn rejection_replies() {
    assert_eq!(rejection_reply(&RejectionKind::NotFound), (404, s("Not found")));
    assert_eq!(rejection_reply(&RejectionKind::InvalidBody), (400, s("Invalid Body")));
    assert_eq!(rejection_reply(&RejectionKind::NotAuthorized), (401, s("Action not authorized")));
    assert_eq!(rejection_reply(&RejectionKind::MethodNotAllowed), (405, s("Method not allowed")));
    assert_eq!(rejection_reply(&RejectionKind::Other), (500, s("Internal server error")));
}

#[test]
fn program_validation() {
    let v = ProgramJsonSchemaValidator::new();
    let good: serde_json::Value = serde_json::from_str(
        r#"{"title":"t","entryNode":"ma1","operators":[{"id":"ma1","type":"MA"}],"connections":[{"from":"ma1","to":"std"}]}"#,
    )
    .unwrap();
    assert!(v.validate(&good).is_ok());
    let bad: serde_json::Value =
        serde_json::from_str(r#"{"entryNode":"ma1","operators":[],"connections":[]}"#).unwrap();
    let msg = v.validate(&bad).err().unwrap();
    assert!(msg.starts_with("Validation error: "));
    assert!(msg.contains("title"));
    assert_eq!(
        validation_message(&vec![(s("m1"), s("/a")), (s("m2"), s(""))]),
        "Validation error: m1\npath: /a\nValidation error: m2\npath: \n"
    );
}
