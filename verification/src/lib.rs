//! Quadrotor dynamics, gate racing and the SkyJEPA world model.
//!
//! Everything is generic over the arithmetic in [`scalar`], and every contract says which
//! expression is evaluated, in which order. Laws of geometry, interpolation and physics
//! are proved for arithmetic without rounding, the limits that planners and motors keep to
//! for floating-point arithmetic too.
//!
//! - The vehicle: [`linalg`], [`so3`], [`params`], [`state`], [`control`], [`multirotor`];
//!   [`simd`] steps many vehicles with the same code; [`transforms`], [`physics`] and
//!   [`mechanics`] hold laws of geometry and of motion.
//! - Tracking: [`se3`], [`nmpc`], [`references`], with laws in [`guidance`], [`tracking`],
//!   [`descent`] and [`paths`].
//! - Racing: [`gates`], [`sampling`], [`mppi`], [`rotor_mppi`], [`spline_mppi`], with laws in
//!   [`race`] and [`search`].
//! - The world model: [`blob`], [`nn`], [`dki`], [`jepa`], [`rollout`], with laws in
//!   [`storage`], [`layers`] and [`prediction`].
//! - The policy and its training ground: [`rl`], [`rl_env`], with laws in [`training`].
//! - The demonstrations: [`drone`], [`forecast`], [`racer`], with laws in [`foresight`].
pub mod algebra;
pub mod blob;
pub mod control;
pub mod dense;
pub mod descent;
pub mod dki;
pub mod drone;
pub mod forecast;
pub mod foresight;
pub mod gates;
pub mod guidance;
pub mod jepa;
pub mod layers;
pub mod linalg;
pub mod mechanics;
pub mod mppi;
pub mod multirotor;
pub mod nmpc;
pub mod nn;
pub mod params;
pub mod paths;
pub mod physics;
pub mod prediction;
pub mod race;
pub mod racer;
pub mod references;
pub mod rl;
pub mod rl_env;
pub mod rng;
pub mod rollout;
pub mod rotor_mppi;
pub mod sampling;
pub mod scalar;
pub mod se3;
pub mod search;
pub mod simd;
pub mod so3;
pub mod spline_mppi;
pub mod state;
pub mod storage;
pub mod tracking;
pub mod training;
pub mod transforms;

pub use control::{ControlLaw, Ctbr, CtbrCmd, RotorForce};
pub use drone::WasmDrone;
pub use forecast::WasmForecast;
pub use gates::{Course, Gate};
pub use jepa::SkyJepaLite;
pub use linalg::{Mat3, Mat4, Quat, Vec3};
pub use mppi::{Controller, MppiConfig, MppiController, RolloutModel, TrueDynamics};
pub use multirotor::{clip_speeds, integrate, Multirotor};
pub use nmpc::Nmpc;
pub use params::{QuadParams, QuadParamsInput, NUM_ROTORS};
pub use racer::WasmRacer;
pub use references::{FourierRef, GpRef};
pub use rl::RlPolicy;
pub use rl_env::{DroneEnv, VecEnv};
pub use rollout::JepaRollout;
pub use rotor_mppi::{RotorMppiConfig, RotorMppiController};
pub use scalar::{Real, Scalar, Wide};
pub use se3::{FlatRef, Se3Control};
pub use simd::F64x;
pub use spline_mppi::{SplineMppiConfig, SplineMppiController};
pub use state::{State, STATE_LEN};
