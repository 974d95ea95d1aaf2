pub mod text;
pub mod rpc;
pub mod html;
pub mod component;
pub mod msg;
pub mod migrations;
pub mod models;
pub mod sql;
pub mod cli;
pub mod cli_legacy;
pub mod socket;
pub mod app_model;
pub mod cache;
pub mod proto;
pub mod dom;
