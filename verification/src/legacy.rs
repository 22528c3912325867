//! The proxied-container design: a mutable object whose every mutation is
//! described by a message, applied to the object and then fanned out to
//! followers. The presence-counted multimap supersedes it as the base
//! relation, but the proxies remain a self-contained way to mirror a set, a
//! map or a vector over a message stream.

pub mod hash_map;
pub mod proxy;
pub mod set_modify_message;
pub mod vec_modify_message;
