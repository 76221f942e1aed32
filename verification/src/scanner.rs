//! Scanners that list a project's components, routes, jobs and plugins for
//! the custom requests of the server.

pub mod component;
pub mod job;
pub mod plugin;
pub mod route;
