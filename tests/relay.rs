use mqtt_relay::backoff::{calculate_backoff, BACKOFF_CEILING_MS, BACKOFF_MAX_RETRIES};
use mqtt_relay::ingress::{
    rejection_reply, route_error_status, route_publish, subscribe_qos, BodyRejection, DeliveryQos,
    PublishRequest,
};
use mqtt_relay::settings::RelayConfig;
use mqtt_relay::table::{ActiveTable, RouteError};
use mqtt_relay::worker::{WorkerAction, WorkerEvent, WorkerPhase, WorkerState};

fn request(relay_id: Option<&str>) -> PublishRequest {
    PublishRequest {
        topic: "t".to_string(),
        message: "m".to_string(),
        relay_id: relay_id.map(|s| s.to_string()),
        qos: 1,
        retain: false,
    }
}

fn table_of(ids: &[&str]) -> ActiveTable<u32> {
    let mut t = ActiveTable::new();
    for (i, id) in ids.iter().enumerate() {
        t.insert(id.to_string(), i as u32);
    }
    t
}

fn config(address: &str) -> RelayConfig {
    RelayConfig {
        id: "r1".to_string(),
        address: address.to_string(),
        port: 1883,
        tls_enabled: false,
        certificate: None,
        username: None,
        password: None,
        client_id: None,
        subscribe: vec!["a/b".to_string()],
    }
}

#[test]
fn backoff_values() {
    assert_eq!(calculate_backoff(0), 1000);
    assert_eq!(calculate_backoff(1), 2000);
    assert_eq!(calculate_backoff(5), 32000);
    assert_eq!(calculate_backoff(6), 60000);
    assert_eq!(calculate_backoff(19), 60000);
    assert_eq!(calculate_backoff(u32::MAX), 60000);
}

#[test]
fn backoff_non_decreasing_and_capped() {
    for n in 0..20u32 {
        assert!(calculate_backoff(n) <= calculate_backoff(n + 1));
        assert!(calculate_backoff(n) <= BACKOFF_CEILING_MS);
    }
}

fn fail_once(s: WorkerState) -> (WorkerState, WorkerAction) {
    let (s, a) = s.step(WorkerEvent::ClientCreated);
    assert_eq!(a, WorkerAction::Subscribe);
    let (s, a) = s.step(WorkerEvent::Subscribed);
    assert_eq!(a, WorkerAction::StartPublisherAndPoll);
    s.step(WorkerEvent::PollFailed)
}

#[test]
fn worker_terminates_after_retry_cap() {
    let mut s = WorkerState::initial();
    for k in 0..BACKOFF_MAX_RETRIES {
        let (w, a) = fail_once(s);
        assert_eq!(w.phase, WorkerPhase::BackoffWait);
        assert_eq!(a, WorkerAction::AbortPublisherAndWait(calculate_backoff(k)));
        let (c, a) = w.step(WorkerEvent::DelayElapsed);
        assert_eq!(a, WorkerAction::Connect);
        assert_eq!(c.retries, k + 1);
        s = c;
    }
    let (t, a) = fail_once(s);
    assert_eq!(a, WorkerAction::Stop);
    assert!(t.is_terminated());
    let (t2, a2) = t.step(WorkerEvent::DelayElapsed);
    assert!(t2.is_terminated());
    assert_eq!(a2, WorkerAction::Stop);
}

#[test]
fn worker_conn_ack_resets_retries() {
    let s = WorkerState { phase: WorkerPhase::Connected, retries: 7 };
    let (s, a) = s.step(WorkerEvent::ConnAck);
    assert_eq!(a, WorkerAction::Poll);
    assert_eq!(s.retries, 0);
    let (s, a) = s.step(WorkerEvent::MessageReceived);
    assert_eq!(a, WorkerAction::ForwardAndPoll);
    let (s, a) = s.step(WorkerEvent::PollFailed);
    assert_eq!(s.phase, WorkerPhase::BackoffWait);
    assert_eq!(a, WorkerAction::AbortPublisherAndWait(1000));
    let (s2, a) = s.step(WorkerEvent::ConnAck);
    assert_eq!(a, WorkerAction::Ignore);
    assert_eq!(s2, s);
}

#[test]
fn route_empty_table_without_id_is_not_found() {
    let t = table_of(&[]);
    assert!(matches!(route_publish(&t, request(None)), Err(RouteError::NotFound)));
    assert_eq!(route_error_status(RouteError::NotFound), 404);
    assert_eq!(route_error_status(RouteError::ChannelClosed), 500);
}

#[test]
fn route_unknown_id_is_not_found() {
    let t = table_of(&["A", "B"]);
    assert!(matches!(route_publish(&t, request(Some("X"))), Err(RouteError::NotFound)));
}

#[test]
fn route_valid_id_yields_one_message_for_that_relay() {
    let t = table_of(&["B", "A"]);
    let (i, msg) = route_publish(&t, request(Some("A"))).ok().unwrap();
    assert_eq!(i, 1);
    assert_eq!(t.entry(i).relay_id, "A");
    assert_eq!(t.entry(i).handle, 1);
    assert_eq!(msg.topic, "t");
    assert_eq!(msg.message, "m");
}

#[test]
fn route_default_is_smallest_id() {
    let t = table_of(&["relay-c", "relay-a", "relay-b"]);
    let (i, _) = route_publish(&t, request(None)).ok().unwrap();
    assert_eq!(t.entry(i).relay_id, "relay-a");
    let t = table_of(&["ab", "a"]);
    assert_eq!(t.default_index(), Some(1));
}

#[test]
fn publish_to_relay_a_is_one_at_least_once_call() {
    let t = table_of(&["A"]);
    let (_, msg) = route_publish(&t, request(Some("A"))).ok().unwrap();
    let call = msg.into_broker_publish();
    assert_eq!(call.topic, "t");
    assert_eq!(call.payload, "m");
    assert_eq!(call.qos, DeliveryQos::AtLeastOnce);
    assert!(!call.retain);
    assert_eq!(subscribe_qos(), DeliveryQos::AtMostOnce);
}

#[test]
fn malformed_json_is_bad_request() {
    let r = rejection_reply(BodyRejection::SyntaxError);
    assert_eq!(r.status, 400);
    assert_eq!(r.error, "Syntax error in JSON");
}

#[test]
fn other_rejections() {
    let r = rejection_reply(BodyRejection::DataError("missing field `topic`".to_string()));
    assert_eq!(r.status, 422);
    assert_eq!(r.error, "Invalid JSON data: missing field `topic`");
    let r = rejection_reply(BodyRejection::MissingContentType);
    assert_eq!(r.status, 400);
    assert_eq!(r.error, "Missing `Content-Type: application/json` header");
    let r = rejection_reply(BodyRejection::Other);
    assert_eq!(r.status, 500);
    assert_eq!(r.error, "Unknown error");
}

#[test]
fn supervisor_spawns_each_missing_relay_once() {
    let mut t = table_of(&["B"]);
    let registry = vec!["A".to_string(), "B".to_string(), "C".to_string(), "A".to_string()];
    t.spawn_missing(&registry, |id: &String| id.len() as u32 + 10);
    let ids: Vec<String> = (0..t.len()).map(|i| t.entry(i).relay_id.clone()).collect();
    assert_eq!(ids, vec!["B", "A", "C"]);
    t.spawn_missing(&registry, |_id: &String| 99);
    assert_eq!(t.len(), 3);
}

#[test]
fn reaping_drops_finished_workers_until_next_tick() {
    let mut t = table_of(&["A", "B", "C"]);
    t.reap_finished(&vec![false, true, false]);
    let ids: Vec<String> = (0..t.len()).map(|i| t.entry(i).relay_id.clone()).collect();
    assert_eq!(ids, vec!["A", "C"]);
    assert!(!t.contains(&"B".to_string()));
    t.spawn_missing(&vec!["A".to_string(), "B".to_string(), "C".to_string()], |_id: &String| 7);
    assert!(t.contains(&"B".to_string()));
    assert_eq!(t.len(), 3);
}

#[test]
fn settings_defaults_and_plain_connection() {
    let s = config("broker.local").connection_settings();
    assert_eq!(s.client_id, "tagoio-relay");
    assert_eq!(s.host, "broker.local");
    assert_eq!(s.port, 1883);
    assert_eq!(s.keep_alive_secs, 30);
    assert_eq!(s.max_incoming_packet, 1024 * 1024);
    assert_eq!(s.max_outgoing_packet, 1024 * 1024);
    assert!(s.tls_ca.is_none());
    assert!(s.credentials.is_none());
}

#[test]
fn settings_tls_and_credentials() {
    let mut c = config("ssl://broker.local");
    c.certificate = Some("PEM".to_string());
    c.username = Some("user".to_string());
    c.password = Some("pw".to_string());
    c.client_id = Some("me".to_string());
    let s = c.connection_settings();
    assert_eq!(s.client_id, "me");
    assert_eq!(s.tls_ca, Some("PEM".to_string()));
    assert_eq!(s.credentials, Some(("user".to_string(), "pw".to_string())));
    let mut c = config("broker.local");
    c.certificate = Some("PEM".to_string());
    assert!(c.connection_settings().tls_ca.is_none());
    c.tls_enabled = true;
    assert_eq!(c.connection_settings().tls_ca, Some("PEM".to_string()));
    let mut c = config("broker.local");
    c.username = Some("user".to_string());
    assert!(c.connection_settings().credentials.is_none());
}

#[test]
fn qos_above_two_is_unprocessable() {
    let t = table_of(&["A"]);
    let mut req = request(Some("A"));
    req.qos = 3;
    let r = route_publish(&t, req);
    assert!(matches!(r, Err(RouteError::InvalidQos)));
    assert_eq!(route_error_status(RouteError::InvalidQos), 422);
    let mut req = request(None);
    req.qos = 255;
    assert!(matches!(route_publish(&t, req), Err(RouteError::InvalidQos)));
    for qos in 0..=2u8 {
        let mut req = request(Some("A"));
        req.qos = qos;
        let (_, msg) = route_publish(&t, req).ok().unwrap();
        assert_eq!(msg.qos, qos);
    }
}

#[test]
fn tick_spawns_then_reaps_and_respawns_next_tick() {
    let mut t = table_of(&["A", "B", "C"]);
    let registry = vec!["A".to_string(), "B".to_string(), "C".to_string(), "D".to_string()];
    t.tick(&registry, &vec![false, true, false], |_id: &String| 50);
    let ids: Vec<String> = (0..t.len()).map(|i| t.entry(i).relay_id.clone()).collect();
    assert_eq!(ids, vec!["A", "C", "D"]);
    assert!(!t.contains(&"B".to_string()));
    assert_eq!(t.entry(0).handle, 0);
    assert_eq!(t.entry(1).handle, 2);
    assert_eq!(t.entry(2).handle, 50);
    t.tick(&registry, &vec![false, false, false], |_id: &String| 60);
    let ids: Vec<String> = (0..t.len()).map(|i| t.entry(i).relay_id.clone()).collect();
    assert_eq!(ids, vec!["A", "C", "D", "B"]);
    assert_eq!(t.entry(2).handle, 50);
    assert_eq!(t.entry(3).handle, 60);
}
