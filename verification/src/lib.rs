//! Benchmark execution for a collector of compiler performance data.
//!
//! A benchmark is a crate that is built again and again, in several kinds of build
//! and several states, under `perf stat` or another profiler. This library decides
//! what is run, in which order and with which arguments, and what is made of the
//! output. It runs nothing itself: where a command has to be run, a directory to be
//! made or a file to be kept, it says so and is told what came of it.
pub mod benchmark;
pub mod cargo;
pub mod command;
pub mod config;
pub mod group;
pub mod history;
pub mod measure;
pub mod patch;
pub mod path;
pub mod perf_stat;
pub mod profile;
pub mod profiler;
pub mod schedule;
pub mod stats;
pub mod text;
