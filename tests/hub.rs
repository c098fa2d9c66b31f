use rtbot::hub::{ClientHandle, ClientMessage, Hub};
use tokio::sync::mpsc::{unbounded_channel, UnboundedReceiver};

fn frame(ts: u64, values: &[&str]) -> ClientMessage {
    ClientMessage::Data { timestamp: ts, values: values.iter().map(|v| v.to_string()).collect() }
}

fn received(rx: &mut UnboundedReceiver<ClientMessage>) -> Vec<(u64, Vec<String>)> {
    let mut out = Vec::new();
    while let Ok(ClientMessage::Data { timestamp, values }) = rx.try_recv() {
        out.push((timestamp, values));
    }
    out
}

fn connect(hub: &mut Hub) -> (String, UnboundedReceiver<ClientMessage>) {
    let (tx, rx) = unbounded_channel();
    let id = hub.connect(ClientHandle::new(tx)).unwrap();
    (id, rx)
}

#[test]
fn broadcast_reaches_every_client_and_prunes_dead_ones() {
    let mut hub = Hub::new();
    let (id1, mut rx1) = connect(&mut hub);
    let (id2, rx2) = connect(&mut hub);
    let (id3, mut rx3) = connect(&mut hub);
    assert_eq!(hub.client_count(), 3);
    assert_eq!(id1.chars().count(), 10);
    assert!(id1 != id2 && id2 != id3 && id1 != id3);

    let gone = hub.broadcast(&frame(1000, &["1.0"]));
    assert!(gone.is_empty());
    let mut rx2 = rx2;
    assert_eq!(received(&mut rx1), vec![(1000, vec!["1.0".to_string()])]);
    assert_eq!(received(&mut rx2), vec![(1000, vec!["1.0".to_string()])]);
    assert_eq!(received(&mut rx3), vec![(1000, vec!["1.0".to_string()])]);

    // client 2's task ends: its mailbox is closed
    drop(rx2);
    let gone = hub.broadcast(&frame(1001, &["2.0"]));
    assert_eq!(gone, vec![id2.clone()]);
    assert_eq!(hub.client_count(), 2);
    assert!(!hub.is_connected(&id2));
    assert!(hub.is_connected(&id1) && hub.is_connected(&id3));

    let gone = hub.broadcast(&frame(1002, &["3.0"]));
    assert!(gone.is_empty());
    assert_eq!(
        received(&mut rx1),
        vec![(1001, vec!["2.0".to_string()]), (1002, vec!["3.0".to_string()])]
    );
    assert_eq!(
        received(&mut rx3),
        vec![(1001, vec!["2.0".to_string()]), (1002, vec!["3.0".to_string()])]
    );
}

#[test]
fn frames_arrive_in_submission_order() {
    let mut hub = Hub::new();
    let (_, mut rx) = connect(&mut hub);
    for t in 0..5u64 {
        hub.broadcast(&frame(t, &["x"]));
    }
    let got: Vec<u64> = received(&mut rx).into_iter().map(|f| f.0).collect();
    assert_eq!(got, vec![0, 1, 2, 3, 4]);
}

#[test]
fn prune_drops_listed_ids_only() {
    let mut hub = Hub::new();
    let (a, _rxa) = connect(&mut hub);
    let (b, _rxb) = connect(&mut hub);
    hub.prune(&vec![a.clone(), "unknown".to_string()]);
    assert_eq!(hub.client_count(), 1);
    assert!(!hub.is_connected(&a));
    assert!(hub.is_connected(&b));
}

#[test]
fn send_hands_message_back_when_closed() {
    let (tx, rx) = unbounded_channel();
    let mut handle = ClientHandle::new(tx);
    assert!(handle.send(frame(1, &["a"])).is_ok());
    drop(rx);
    match handle.send(frame(2, &["b"])) {
        Err(ClientMessage::Data { timestamp, values }) => {
            assert_eq!(timestamp, 2);
            assert_eq!(values, vec!["b".to_string()]);
        }
        Ok(()) => panic!("expected the message back"),
    }
}

#[test]
fn empty_hub() {
    let mut hub = Hub::new();
    assert_eq!(hub.client_count(), 0);
    assert!(hub.broadcast(&frame(1, &[])).is_empty());
}
