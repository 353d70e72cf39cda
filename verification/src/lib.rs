//! A broker that mints, attenuates and revokes capabilities, and the rules by
//! which it lets a process that holds them act on the world.

pub mod actions;
pub mod audit;
pub mod base64;
pub mod cap;
pub mod capvm;
pub mod cli;
pub mod flow_laws;
pub mod frame;
pub mod grant_laws;
pub mod host_laws;
pub mod label;
pub mod log_laws;
pub mod net;
pub mod net_laws;
pub mod order;
pub mod os;
pub mod os_laws;
pub mod path;
pub mod path_laws;
pub mod policy;
pub mod policy_laws;
pub mod proto;
pub mod proto_laws;
pub mod refusal_laws;
pub mod request;
pub mod request_laws;
pub mod role;
pub mod sandbox;
pub mod sandbox_laws;
pub mod session;
pub mod session_laws;
pub mod sha256;
pub mod show;
pub mod show_laws;
pub mod sig_laws;
pub mod state;
pub mod table;
pub mod target_laws;
pub mod text;
pub mod text_laws;
pub mod use_laws;
pub mod wire_laws;

pub use crate::audit::AuditEvent;
pub use crate::cap::{Cap, CapKind, CapRef, HttpSpec, MsgSpec, PostedMsg};
pub use crate::label::{parse_ops, Op, Taint};
pub use crate::os::SandboxPolicy;
pub use crate::path::{is_secret_path, path_within, resolve_contained, safe_join};
pub use crate::role::{Policy, Role};
pub use crate::session::{rand_hex, Session};
