//! The ROS 2 messages without floating-point fields, with field names that
//! match the rosbridge JSON wire format, and their construction from the
//! simulator's output.

use vstd::prelude::*;
use vstd::string::StringExecFns;
use crate::sensors;

verus! {

/// builtin_interfaces/Time
#[derive(Clone, Copy, Debug, PartialEq, Eq, Structural)]
pub struct Time {
    /// Seconds.
    pub sec: i32,
    /// Nanoseconds.
    pub nanosec: u32,
}

impl Default for Time {
    fn default() -> (t: Self)
        ensures
            t.sec == 0,
            t.nanosec == 0,
    {
        Time { sec: 0, nanosec: 0 }
    }
}

/// std_msgs/Header
#[derive(Clone, Debug)]
pub struct Header {
    /// Stamp.
    pub stamp: Time,
    /// Frame id.
    pub frame_id: String,
}

impl Default for Header {
    fn default() -> (h: Self)
        ensures
            h.stamp == (Time { sec: 0, nanosec: 0 }),
            h.frame_id@ == Seq::<char>::empty(),
    {
        Header { stamp: Time { sec: 0, nanosec: 0 }, frame_id: String::new() }
    }
}

/// rosgraph_msgs/Clock
#[derive(Clone, Copy, Debug)]
pub struct Clock {
    /// Sim time.
    pub clock: Time,
}

/// sensor_msgs/Image
#[derive(Clone, Debug)]
pub struct Image {
    /// Header.
    pub header: Header,
    /// Rows.
    pub height: u32,
    /// Cols.
    pub width: u32,
    /// Pixel encoding.
    pub encoding: String,
    /// 0 = little endian.
    pub is_bigendian: u8,
    /// Row stride in bytes.
    pub step: u32,
    /// Pixel bytes (JSON array of u8 for rosbridge).
    pub data: Vec<u8>,
}

/// A header stamped `stamp` in frame `frame_id`.
pub fn header(stamp: Time, frame_id: &str) -> (h: Header)
    ensures
        h.stamp == stamp,
        h.frame_id@ == frame_id@,
{
    Header { stamp, frame_id: String::from_str(frame_id) }
}

/// The `/clock` message for `stamp`.
pub fn clock(stamp: Time) -> (c: Clock)
    ensures
        c.clock == stamp,
{
    Clock { clock: stamp }
}

/// The `/camera/image_raw` message: the camera image with its RGB8 row
/// stride, or an empty `rgb8` image when the frame carries none.
pub fn image_message(header: Header, image: Option<&sensors::Image>) -> (m: Image)
    requires
        image matches Some(i) ==> i.width * 3 <= u32::MAX,
    ensures
        m.header.stamp == header.stamp,
        m.header.frame_id@ == header.frame_id@,
        m.is_bigendian == 0,
        match image {
            Some(i) => {
                &&& m.height == i.height
                &&& m.width == i.width
                &&& m.encoding@ == i.encoding@
                &&& m.step == i.width * 3
                &&& m.data@ == i.data@
            },
            None => {
                &&& m.height == 0
                &&& m.width == 0
                &&& m.encoding@ == "rgb8"@
                &&& m.step == 0
                &&& m.data@.len() == 0
            },
        },
{
    match image {
        Some(i) => {
            let data = i.data.clone();
            assert(data@ =~= i.data@);
            Image {
                header,
                height: i.height,
                width: i.width,
                encoding: i.encoding.clone(),
                is_bigendian: 0,
                step: i.width * 3,
                data,
            }
        },
        None => Image {
            header,
            height: 0,
            width: 0,
            encoding: String::from_str("rgb8"),
            is_bigendian: 0,
            step: 0,
            data: Vec::new(),
        },
    }
}

} // verus!
