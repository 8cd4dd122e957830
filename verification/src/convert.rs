//! The topics of the ROS 2 bridge and the publications of one frame.

use vstd::prelude::*;
use vstd::string::StringExecFns;

verus! {

/// Number of topics the bridge advertises and publishes per frame.
pub const TOPIC_COUNT: usize = 6;

/// Topic `i` of the bridge, in emission order: its name and message type.
pub open spec fn topic_spec(i: int) -> (Seq<char>, Seq<char>) {
    if i == 0 {
        ("/clock"@, "rosgraph_msgs/msg/Clock"@)
    } else if i == 1 {
        ("/tf"@, "tf2_msgs/msg/TFMessage"@)
    } else if i == 2 {
        ("/joint_states"@, "sensor_msgs/msg/JointState"@)
    } else if i == 3 {
        ("/scan"@, "sensor_msgs/msg/LaserScan"@)
    } else if i == 4 {
        ("/camera/image_raw"@, "sensor_msgs/msg/Image"@)
    } else {
        ("/odom"@, "nav_msgs/msg/Odometry"@)
    }
}

/// Topic `i` of the bridge (`i < TOPIC_COUNT`): name and message type.
pub fn topic(i: usize) -> (t: (&'static str, &'static str))
    requires
        i < TOPIC_COUNT,
    ensures
        (t.0@, t.1@) == topic_spec(i as int),
{
    match i {
        0 => ("/clock", "rosgraph_msgs/msg/Clock"),
        1 => ("/tf", "tf2_msgs/msg/TFMessage"),
        2 => ("/joint_states", "sensor_msgs/msg/JointState"),
        3 => ("/scan", "sensor_msgs/msg/LaserScan"),
        4 => ("/camera/image_raw", "sensor_msgs/msg/Image"),
        _ => ("/odom", "nav_msgs/msg/Odometry"),
    }
}

/// Frame/topic naming for the bridge.
#[derive(Clone, Debug)]
pub struct BridgeConfig {
    /// Fixed world frame.
    pub map_frame: String,
    /// Odometry frame.
    pub odom_frame: String,
    /// Robot base frame.
    pub base_frame: String,
    /// Lidar frame.
    pub laser_frame: String,
    /// Camera frame.
    pub camera_frame: String,
}

impl Default for BridgeConfig {
    fn default() -> (c: Self)
        ensures
            c.map_frame@ == "odom"@,
            c.odom_frame@ == "odom"@,
            c.base_frame@ == "base_link"@,
            c.laser_frame@ == "laser_frame"@,
            c.camera_frame@ == "camera_link"@,
    {
        BridgeConfig {
            map_frame: String::from_str("odom"),
            odom_frame: String::from_str("odom"),
            base_frame: String::from_str("base_link"),
            laser_frame: String::from_str("laser_frame"),
            camera_frame: String::from_str("camera_link"),
        }
    }
}

/// One rosbridge publication.
#[derive(Clone, Debug)]
pub struct Publication {
    /// Topic name, e.g. "/scan".
    pub topic: String,
    /// ROS message type, e.g. "sensor_msgs/msg/LaserScan".
    pub msg_type: String,
    /// Message payload as JSON.
    pub payload: serde_json::Value,
}

/// The publications of one frame: the payload `payloads[i]` goes out on
/// topic `i`, in topic order.
pub fn frame_publications(payloads: Vec<serde_json::Value>) -> (pubs: Vec<Publication>)
    requires
        payloads@.len() == TOPIC_COUNT,
    ensures
        pubs@.len() == TOPIC_COUNT,
        forall|i: int|
            0 <= i < TOPIC_COUNT ==> (#[trigger] pubs@[i]).topic@ == topic_spec(i).0 && pubs@[i].msg_type@
                == topic_spec(i).1 && pubs@[i].payload == payloads@[i],
{
    let mut pubs: Vec<Publication> = Vec::new();
    let mut rest = payloads;
    let ghost all = rest@;
    let mut i: usize = 0;
    while i < TOPIC_COUNT
        invariant
            all.len() == TOPIC_COUNT,
            i <= TOPIC_COUNT,
            rest@ == all.subrange(i as int, TOPIC_COUNT as int),
            pubs@.len() == i,
            forall|j: int|
                0 <= j < i ==> (#[trigger] pubs@[j]).topic@ == topic_spec(j).0 && pubs@[j].msg_type@
                    == topic_spec(j).1 && pubs@[j].payload == all[j],
        decreases TOPIC_COUNT - i,
    {
        let payload = rest.remove(0);
        let (name, ty) = topic(i);
        pubs.push(Publication { topic: String::from_str(name), msg_type: String::from_str(ty), payload });
        i = i + 1;
        assert(rest@ =~= all.subrange(i as int, TOPIC_COUNT as int));
    }
    pubs
}

} // verus!
