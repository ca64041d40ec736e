//! Control library of the AutoMass balancing rig.
//!
//! Four masses travel on rails and balance a platform. A serial bus connects the
//! drivers of their motors and an attitude sensor.
//!
//! - On the wire: [`checksum`], [`mks`] (motor drivers), [`imu`] (attitude
//!   sensor), [`transport`] (the bus), [`mks_ops`] and [`rig`] (exchanges).
//! - Quantities: [`scalar`], [`binary64`], [`division`], [`rail`], [`matrix`].
//! - Models and programs: [`geometry`], [`mpc_model`], [`batch_mats`],
//!   [`trajectory`], [`mpc_constraints`], [`mpc_solve`], [`lqi_model`],
//!   [`lqi_gains`], [`dare`], [`allocation`], [`kf`].
//! - Control loops: [`prime`], [`tracking`], [`mpc_loop`], [`lqi_loop`].
//! - Operation: [`commands`], [`telemetry`], [`session`], [`console`],
//!   [`text`].

pub mod allocation;
pub mod batch_mats;
pub mod binary64;
pub mod checksum;
pub mod commands;
pub mod console;
pub mod dare;
pub mod division;
pub mod geometry;
pub mod imu;
pub mod kf;
pub mod lqi_gains;
pub mod lqi_loop;
pub mod lqi_model;
pub mod matrix;
pub mod mks;
pub mod mks_ops;
pub mod mpc_constraints;
pub mod mpc_loop;
pub mod mpc_model;
pub mod mpc_solve;
pub mod prime;
pub mod rail;
pub mod rig;
pub mod scalar;
pub mod session;
pub mod telemetry;
pub mod text;
pub mod tracking;
pub mod trajectory;
pub mod transport;
