use robosim::cli::{
    choose_transport, is_stdout_path, keep_running, lidar_strip, stdin_twist_members,
    summary_to_stderr, teleop_action, teleop_tick, RangeBand, TeleopAction, TeleopArgs,
    TeleopKey, TransportChoice, DRAW_PERIOD_NANOS, PHYS_DT_NANOS,
};
use robosim::cli::TeleopAction::{Faster, Ignore, Quit, Slower, Stop, TurnLeft, TurnRight};
use robosim::cli::RangeBand::{Close, Contact, Distant, Medium, Miss};

#[test]
fn transport_preference_order() {
    let url = Some("ws://localhost:9090".to_string());
    let dash = Some("-".to_string());
    let file = Some("out.jsonl".to_string());
    assert!(matches!(choose_transport(&url, &dash), TransportChoice::Rosbridge(u) if u == "ws://localhost:9090"));
    assert!(matches!(choose_transport(&None, &dash), TransportChoice::JsonlStdout));
    assert!(matches!(choose_transport(&None, &file), TransportChoice::JsonlFile(p) if p == "out.jsonl"));
    assert!(matches!(choose_transport(&None, &None), TransportChoice::Null));
}

#[test]
fn summary_moves_to_stderr_for_stdout_jsonl() {
    assert!(summary_to_stderr(&Some("-".to_string())));
    assert!(!summary_to_stderr(&Some("--".to_string())));
    assert!(!summary_to_stderr(&Some("out.jsonl".to_string())));
    assert!(!summary_to_stderr(&None));
    assert!(is_stdout_path("-"));
    assert!(!is_stdout_path(""));
}

#[test]
fn run_step_limit() {
    assert!(keep_running(0, 123_456));
    assert!(keep_running(1000, 999));
    assert!(!keep_running(1000, 1000));
    assert!(!keep_running(1, 5));
}

#[test]
fn teleop_key_bindings() {
    assert_eq!(teleop_action(TeleopKey::Char('q')), Quit);
    assert_eq!(teleop_action(TeleopKey::Esc), Quit);
    assert_eq!(teleop_action(TeleopKey::Char('w')), Faster);
    assert_eq!(teleop_action(TeleopKey::Up), Faster);
    assert_eq!(teleop_action(TeleopKey::Char('s')), Slower);
    assert_eq!(teleop_action(TeleopKey::Down), Slower);
    assert_eq!(teleop_action(TeleopKey::Char('a')), TurnLeft);
    assert_eq!(teleop_action(TeleopKey::Left), TurnLeft);
    assert_eq!(teleop_action(TeleopKey::Char('d')), TurnRight);
    assert_eq!(teleop_action(TeleopKey::Right), TurnRight);
    assert_eq!(teleop_action(TeleopKey::Char(' ')), Stop);
    assert_eq!(teleop_action(TeleopKey::Char('x')), Ignore);
    assert_eq!(teleop_action(TeleopKey::Other), Ignore);
}

#[test]
fn lidar_strip_samples_beams() {
    let bands = vec![Contact, Close, Medium, Distant, Miss, Contact, Close, Medium];
    assert_eq!(lidar_strip(&bands, 8), "#*+. #*+");
    // Half as many columns take every other beam.
    assert_eq!(lidar_strip(&bands, 4), "#+ *");
    // More columns than beams repeat beams.
    assert_eq!(lidar_strip(&vec![Contact, Distant], 4), "##..");
    assert_eq!(lidar_strip(&vec![], 3), "   ");
    assert_eq!(lidar_strip(&bands, 0), "");
}

#[test]
fn teleop_args_fields() {
    let a = TeleopArgs { rosbridge: None, cols: 100, rows: 30 };
    let b = a.clone();
    assert_eq!((b.cols, b.rows), (100, 30));
    assert!(b.rosbridge.is_none());
}

#[test]
fn teleop_catches_up_in_whole_steps() {
    assert_eq!(PHYS_DT_NANOS, 10_000_000);
    assert_eq!(DRAW_PERIOD_NANOS, 33_000_000);
    // 4 ms left over plus 27 ms elapsed: three steps, 1 ms kept.
    let t = teleop_tick(4_000_000, 27_000_000, 10_000_000);
    assert_eq!((t.steps, t.physics_acc, t.draw), (3, 1_000_000, false));
    // Too little time for a step: nothing runs, everything is kept.
    let t = teleop_tick(0, 9_999_999, 33_000_000);
    assert_eq!((t.steps, t.physics_acc, t.draw), (0, 9_999_999, true));
    // Exactly one step.
    let t = teleop_tick(5_000_000, 5_000_000, 32_999_999);
    assert_eq!((t.steps, t.physics_acc, t.draw), (1, 0, false));
    // A long stall is caught up at once.
    let t = teleop_tick(0, 1_000_000_000, 1_000_000_000);
    assert_eq!((t.steps, t.physics_acc, t.draw), (100, 0, true));
}

#[test]
fn stdin_twist_lines() {
    let (v, omega) = stdin_twist_members("{\"v\":0.5,\"omega\":-0.25}").unwrap();
    assert_eq!(v.as_f64(), Some(0.5));
    assert_eq!(omega.as_f64(), Some(-0.25));
    let (v, omega) = stdin_twist_members("{\"omega\":1,\"v\":\"fast\",\"x\":2}").unwrap();
    assert_eq!(v, serde_json::Value::from("fast"));
    assert_eq!(omega.as_f64(), Some(1.0));
    assert!(stdin_twist_members("{\"v\":0.5}").is_none());
    assert!(stdin_twist_members("{\"omega\":0.5}").is_none());
    assert!(stdin_twist_members("[0.5, 0.1]").is_none());
    assert!(stdin_twist_members("v=0.5").is_none());
    assert!(stdin_twist_members("").is_none());
}
