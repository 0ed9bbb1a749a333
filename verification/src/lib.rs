pub mod curve_error;
pub mod folder;
pub mod impl_btree;
pub mod keys;
pub mod kv_store;
