//! A small blog data layer: users, posts, comments and a directed follow
//! graph, held in a verified in-memory relational store.
pub mod models;
pub mod store;
pub mod laws;
