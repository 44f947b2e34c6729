//! The verified core of a log-structured filesystem: lock management, transactions, object store
//! bookkeeping, super-blocks, device formats and the node and file state of its server.
pub mod attributes;
pub mod encrypted_mutations;
pub mod errors;
pub mod fake_device;
pub mod file;
pub mod format;
pub mod fs_config;
pub mod fx_map;
pub mod golden;
pub mod guid;
pub mod journal;
pub mod lexicographic;
pub mod lock_grants;
pub mod lock_keys;
pub mod lock_manager;
pub mod node;
pub mod object_record;
pub mod object_store;
pub mod ops;
pub mod refault;
pub mod root_volume;
pub mod round;
pub mod store_info;
pub mod store_journal;
pub mod store_lock;
pub mod store_open;
pub mod super_block;
pub mod text;
pub mod transaction;
pub mod trim;
pub mod versions;
pub mod volume;
