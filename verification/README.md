# robosim

A small differential-drive robot simulator with a ROS 2 bridge, split into a
verified library and the program around it.

* `src/` — the library, verified with Verus: the RGB canvas of the top-down
  renderer (clearing, pixel and disc painting, PPM output), the character
  grid of the terminal renderer, the camera's image layout from per-column
  ray-cast results, the ROS 2 messages without floating-point fields, the
  bridge's topic table and its advertise-once protocol, the rosbridge JSON
  line framing (strings are quoted by `serde_json`, whose escaping rule is
  stated as the assumed contract of that call, not proved), the JSON-lines and null
  transports, the websocket address check, and the command line's decisions
  (transport choice, loop bound, stdin twist commands, teleop key bindings
  and pacing, lidar strip).
* `app/` — the `robosim` program: the floating-point world (geometry,
  kinematics, collision response, lidar and camera ray casting, the
  simulation driver), the float-carrying ROS messages, the websocket client,
  and the `run`, `teleop` and `render` commands.
* `tests/` — tests of the library on concrete values.
