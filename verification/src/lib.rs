//! A Raft node and its in-memory log storage, with the decisions of the
//! surrounding service written as verified step functions.

pub mod btree;
pub mod error;
pub mod kv_service;
pub mod mem_storage;
pub mod mykv_raft;
pub mod raft;
pub mod raft_manager;
pub mod raft_node;
pub mod raft_rpc;
pub mod raft_service;
pub mod rpc_raft;
pub mod storage;
