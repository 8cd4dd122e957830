use robosim::bridge::Bridge;
use robosim::convert::{frame_publications, topic, BridgeConfig, Publication, TOPIC_COUNT};
use robosim::json::{op_json_line, publish_json_line};
use robosim::msgs::{self, Time};
use robosim::sensors;
use robosim::transport::{cmd_vel_message, cmd_vel_of, is_cmd_vel_publication, rosbridge_host_port, JsonlTransport, NullTransport, Transport, TransportError};

fn payloads() -> Vec<serde_json::Value> {
    (0..TOPIC_COUNT)
        .map(|i| serde_json::from_str(&format!("{{\"n\":{i}}}")).unwrap())
        .collect()
}

#[test]
fn publications_follow_topic_order() {
    let pubs = frame_publications(payloads());
    let expected = [
        ("/clock", "rosgraph_msgs/msg/Clock"),
        ("/tf", "tf2_msgs/msg/TFMessage"),
        ("/joint_states", "sensor_msgs/msg/JointState"),
        ("/scan", "sensor_msgs/msg/LaserScan"),
        ("/camera/image_raw", "sensor_msgs/msg/Image"),
        ("/odom", "nav_msgs/msg/Odometry"),
    ];
    assert_eq!(pubs.len(), expected.len());
    for (i, (p, (t, ty))) in pubs.iter().zip(expected).enumerate() {
        assert_eq!(p.topic, t);
        assert_eq!(p.msg_type, ty);
        assert_eq!(p.payload["n"], i as u64);
        assert_eq!(topic(i), (t, ty));
    }
}

#[test]
fn default_bridge_frames() {
    let c = BridgeConfig::default();
    assert_eq!(c.map_frame, "odom");
    assert_eq!(c.odom_frame, "odom");
    assert_eq!(c.base_frame, "base_link");
    assert_eq!(c.laser_frame, "laser_frame");
    assert_eq!(c.camera_frame, "camera_link");
}

#[test]
fn op_line_strings_match_serde_json() {
    let samples = [
        "",
        "/scan",
        "say \"hi\"",
        "back\\slash",
        "tab\tnew\nline\rcr",
        "\u{8}\u{c}\u{0}\u{1f}\u{7f}",
        "ünïcödé ✓",
    ];
    for s in samples {
        let line = op_json_line("advertise", s, "t");
        let expected = format!(
            "{{\"op\":\"advertise\",\"topic\":{},\"type\":\"t\"}}",
            serde_json::to_string(s).unwrap()
        );
        assert_eq!(line, expected, "{s:?}");
        assert!(!line.contains('\n'));
        let v: serde_json::Value = serde_json::from_str(&line).unwrap();
        assert_eq!(v["topic"], s);
    }
}

#[test]
fn advertise_line_is_sorted_json() {
    let line = op_json_line("advertise", "/scan", "sensor_msgs/msg/LaserScan");
    assert_eq!(
        line,
        "{\"op\":\"advertise\",\"topic\":\"/scan\",\"type\":\"sensor_msgs/msg/LaserScan\"}"
    );
    let v: serde_json::Value = serde_json::from_str(&line).unwrap();
    assert_eq!(v["op"], "advertise");
    let sub = op_json_line("subscribe", "/cmd_vel", "geometry_msgs/msg/Twist");
    let mut obj = serde_json::Map::new();
    obj.insert("type".to_string(), "geometry_msgs/msg/Twist".into());
    obj.insert("topic".to_string(), "/cmd_vel".into());
    obj.insert("op".to_string(), "subscribe".into());
    assert_eq!(sub, serde_json::Value::Object(obj).to_string());
}

#[test]
fn publish_line_matches_json_object() {
    let payload: serde_json::Value =
        serde_json::from_str("{\"clock\":{\"sec\":3,\"nanosec\":500}}").unwrap();
    let line = publish_json_line("/clock", "rosgraph_msgs/msg/Clock", &payload);
    let mut obj = serde_json::Map::new();
    obj.insert("op".to_string(), "publish".into());
    obj.insert("topic".to_string(), "/clock".into());
    obj.insert("type".to_string(), "rosgraph_msgs/msg/Clock".into());
    obj.insert("msg".to_string(), payload.clone());
    assert_eq!(line, serde_json::Value::Object(obj).to_string());
    assert_eq!(
        line,
        "{\"msg\":{\"clock\":{\"nanosec\":500,\"sec\":3}},\"op\":\"publish\",\"topic\":\"/clock\",\"type\":\"rosgraph_msgs/msg/Clock\"}"
    );
}

#[test]
fn jsonl_writes_valid_lines() {
    // The frame's clock after three 10 ms steps; the other payloads stand in
    // for the floating-point messages.
    let mut payloads = payloads();
    payloads[0] = serde_json::from_str("{\"clock\":{\"sec\":0,\"nanosec\":30000000}}").unwrap();
    let pubs = frame_publications(payloads);
    let mut buf = Vec::new();
    {
        let mut t = JsonlTransport::new(&mut buf);
        t.advertise("/scan", "sensor_msgs/msg/LaserScan").unwrap();
        for p in &pubs {
            t.publish(p).unwrap();
        }
        assert_eq!(t.published_count(), pubs.len());
    }
    let text = String::from_utf8(buf).unwrap();
    let lines: Vec<&str> = text.lines().collect();
    assert_eq!(lines.len(), pubs.len() + 1);
    let first: serde_json::Value = serde_json::from_str(lines[0]).unwrap();
    assert_eq!(first["op"], "advertise");
    assert_eq!(first["topic"], "/scan");
    let pub0: serde_json::Value = serde_json::from_str(lines[1]).unwrap();
    assert_eq!(pub0["op"], "publish");
    assert_eq!(pub0["topic"], "/clock");
    assert!(pub0["msg"]["clock"]["sec"].is_number());
    assert!(text.ends_with('\n'));
}

#[test]
fn op_line_escapes_as_stated() {
    // Quote and backslash behind a backslash, the short escapes, \u00XX in
    // lowercase hex for other control characters, everything else as is.
    let line = op_json_line("advertise", "a\"b\\c\n\u{1}\u{1f}\u{8}\u{c}\t\ré\u{7f}/", "t");
    assert_eq!(
        line,
        "{\"op\":\"advertise\",\"topic\":\"a\\\"b\\\\c\\n\\u0001\\u001f\\b\\f\\t\\ré\u{7f}/\",\"type\":\"t\"}"
    );
}

struct FailingWriter;

impl std::io::Write for FailingWriter {
    fn write(&mut self, _buf: &[u8]) -> std::io::Result<usize> {
        Err(std::io::Error::other("closed"))
    }
    fn flush(&mut self) -> std::io::Result<()> {
        Ok(())
    }
}

#[test]
fn jsonl_failed_write_is_not_counted() {
    let pubs = frame_publications(payloads());
    let mut t = JsonlTransport::new(FailingWriter);
    assert!(matches!(t.publish(&pubs[0]), Err(TransportError::Io(_))));
    assert!(matches!(
        t.advertise("/tf", "tf2_msgs/msg/TFMessage"),
        Err(TransportError::Io(_))
    ));
    assert_eq!(t.published_count(), 0);
}

#[test]
fn null_transport_counts_publications() {
    let mut t = NullTransport::default();
    t.advertise("/scan", "sensor_msgs/msg/LaserScan").unwrap();
    assert_eq!(t.published_count(), 0);
    assert_eq!(t.count(), 0);
    let pubs = frame_publications(payloads());
    for p in &pubs {
        t.publish(p).unwrap();
    }
    assert_eq!(t.count(), 6);
    assert_eq!(NullTransport::new().count(), 0);
}

/// A transport that records what it is asked to do.
#[derive(Default)]
struct Recorder {
    calls: Vec<String>,
}

impl Transport for Recorder {
    fn advertise(&mut self, topic: &str, msg_type: &str) -> Result<(), TransportError> {
        self.calls.push(format!("advertise {topic} {msg_type}"));
        Err(TransportError::Ws("down".to_string()))
    }
    fn publish(&mut self, p: &Publication) -> Result<(), TransportError> {
        self.calls.push(format!("publish {}", p.topic));
        Ok(())
    }
}

#[test]
fn bridge_advertises_once_before_publishing() {
    let mut b = Bridge::new(Recorder::default());
    assert_eq!(b.cfg.base_frame, "base_link");
    let pubs = frame_publications(payloads());
    b.publish_messages(&pubs);
    b.publish_messages(&pubs);
    b.advertise_once();
    let calls = &b.transport.calls;
    assert_eq!(calls.len(), 6 + 12);
    for i in 0..TOPIC_COUNT {
        let (t, ty) = topic(i);
        assert_eq!(calls[i], format!("advertise {t} {ty}"));
    }
    assert!(calls[6..].iter().all(|c| c.starts_with("publish ")));
    assert_eq!(calls[6], "publish /clock");
    assert_eq!(calls[17], "publish /odom");
}

#[test]
fn bridge_over_null_transport() {
    let mut b = Bridge::new(NullTransport::default());
    let pubs = frame_publications(payloads());
    for _ in 0..100 {
        b.publish_messages(&pubs);
    }
    assert_eq!(b.transport.published_count(), 600);
}

#[test]
fn rosbridge_url_host_port() {
    assert_eq!(rosbridge_host_port("ws://localhost:9090").ok(), Some("localhost:9090".to_string()));
    assert_eq!(rosbridge_host_port("ws://127.0.0.1:1/path/x").ok(), Some("127.0.0.1:1".to_string()));
    assert_eq!(rosbridge_host_port("ws://").ok(), Some(String::new()));
    match rosbridge_host_port("wss://host:9090") {
        Err(TransportError::Ws(m)) => assert_eq!(m, "unsupported url scheme: wss://host:9090"),
        _ => panic!("expected a websocket error"),
    }
    assert!(matches!(rosbridge_host_port("ws:/"), Err(TransportError::Ws(_))));
}

#[test]
fn header_clock_and_image_messages() {
    let stamp = Time { sec: 2, nanosec: 30 };
    let h = msgs::header(stamp, "camera_link");
    assert_eq!(h.stamp, stamp);
    assert_eq!(h.frame_id, "camera_link");
    assert_eq!(msgs::clock(stamp).clock, stamp);
    let img = sensors::Image {
        stamp: (2, 30),
        width: 4,
        height: 2,
        encoding: "rgb8".to_string(),
        data: vec![7; 24],
    };
    let m = msgs::image_message(h.clone(), Some(&img));
    assert_eq!((m.width, m.height, m.step, m.is_bigendian), (4, 2, 12, 0));
    assert_eq!(m.data, img.data);
    assert_eq!(m.encoding, "rgb8");
    let e = msgs::image_message(h, None);
    assert_eq!((e.width, e.height, e.step), (0, 0, 0));
    assert_eq!(e.encoding, "rgb8");
    assert!(e.data.is_empty());
    assert_eq!(e.header.frame_id, "camera_link");
    let d = msgs::Header::default();
    assert_eq!((d.stamp.sec, d.stamp.nanosec), (0, 0));
    assert!(d.frame_id.is_empty());
}

#[test]
fn cmd_vel_messages_are_picked_out() {
    let text = r#"{"op":"publish","topic":"/cmd_vel","msg":{"linear":{"x":0.5,"y":0.0,"z":0.0},"angular":{"x":0.0,"y":0.0,"z":0.3}}}"#;
    let m = cmd_vel_message(text).expect("a twist");
    assert_eq!(m["linear"]["x"], 0.5);
    assert_eq!(m["angular"]["z"], 0.3);
    assert!(cmd_vel_message(r#"{"op":"publish","topic":"/odom","msg":{}}"#).is_none());
    assert!(cmd_vel_message(r#"{"op":"advertise","topic":"/cmd_vel","msg":{}}"#).is_none());
    assert!(cmd_vel_message(r#"{"op":"publish","topic":"/cmd_vel"}"#).is_none());
    assert!(cmd_vel_message(r#"{"op":1,"topic":"/cmd_vel","msg":{}}"#).is_none());
    assert!(cmd_vel_message("not json").is_none());
    assert!(cmd_vel_message("[1,2]").is_none());
    let v: serde_json::Value = serde_json::from_str(r#"{"op":"publish","topic":"/cmd_vel","msg":7}"#).unwrap();
    assert_eq!(cmd_vel_of(&v), Some(serde_json::Value::from(7)));
    assert!(is_cmd_vel_publication(&Some("publish".to_string()), &Some("/cmd_vel".to_string())));
    assert!(!is_cmd_vel_publication(&None, &Some("/cmd_vel".to_string())));
}
