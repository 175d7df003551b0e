//! Verified core of a SCADA poller and a Modbus RTU device simulator:
//! RTU framing and CRC, UDP encapsulation, register planning, the job
//! queue, configuration resolution and the simulator's register file.

pub mod crc;
pub mod text;
pub mod modbus;
pub mod imm;
pub mod reg;
pub mod poll_plan;
pub mod queue;
pub mod post_cmd;
pub mod conn;
pub mod service;
pub mod support;
pub mod db_model;
pub mod mqtt;
pub mod config;
pub mod listener;
pub mod lexer;
pub mod exchange;
pub mod alarm;
pub mod tasks;
pub mod worker_state;
pub mod topology;
pub mod db_batch;
pub mod task_sync;
pub mod rv_cache;
pub mod merge;
pub mod amode;
pub mod kpz_sync;
pub mod script;
pub mod program;
