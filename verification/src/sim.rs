//! Integer decisions of the simulation driver.

use vstd::prelude::*;
use vstd::string::StringExecFns;

verus! {

/// Is a camera image due at `step`, for a camera that renders every
/// `camera_every_n_steps` steps (0 turns the camera off)?
pub fn camera_frame_due(camera_every_n_steps: u64, step: u64) -> (due: bool)
    ensures
        due == (camera_every_n_steps > 0 && step % camera_every_n_steps == 0),
{
    camera_every_n_steps > 0 && step % camera_every_n_steps == 0
}

/// Joint names published in `/joint_states`, in wheel order: left, right.
pub fn wheel_joint_names() -> (names: Vec<String>)
    ensures
        names@.len() == 2,
        names@[0]@ == "left_wheel_joint"@,
        names@[1]@ == "right_wheel_joint"@,
{
    let mut names: Vec<String> = Vec::new();
    names.push(String::from_str("left_wheel_joint"));
    names.push(String::from_str("right_wheel_joint"));
    names
}

} // verus!
