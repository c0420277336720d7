pub mod blob;
pub mod changes;
pub mod email;
pub mod encoding;
pub mod error;
pub mod exchange;
pub mod fetch;
pub mod http;
pub mod id_set;
pub mod jmap;
pub mod open;
pub mod paging;
pub mod remote;
pub mod small_set;
pub mod template;
pub mod text;
