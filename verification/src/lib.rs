//! Verified core of the robosim differential-drive simulator: the integer
//! raster kernels of the renderers and the camera, the ROS 2 bridge's message
//! framing and advertise-once protocol, and the decisions of the command line.

pub mod ascii;
pub mod bridge;
pub mod canvas;
pub mod cli;
pub mod convert;
pub mod foreign;
pub mod gpu;
pub mod json;
pub mod msgs;
pub mod physics;
pub mod raster;
pub mod render;
pub mod sensors;
pub mod sim;
pub mod transport;

pub use ascii::CharGrid;
pub use bridge::Bridge;
pub use canvas::RgbCanvas;
pub use cli::{lidar_strip, TeleopArgs};
pub use convert::{frame_publications, BridgeConfig, Publication};
pub use gpu::{GpuBackendStub, TargetOs};
pub use physics::SimplePhysics;
pub use render::{RenderError, RenderOutput};
pub use sensors::Image;
pub use transport::{JsonlTransport, NullTransport, Transport, TransportError};
