//! The portal's server side: the manager that owns the policy state.

pub mod manager;

pub use manager::{DomDesc, GetDotRequest, GetDotResponse, ManagerAction, ManagerReply,
    NewDomRequest, NewDomResponse, manager_handle, new_dom_response, get_dot_response};
