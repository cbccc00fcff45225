//! Verified core of an ECS world inspector: how entities are named,
//! in which order entities, resources, assets and components are listed,
//! and what the inspector says when something cannot be shown.

pub mod text;
pub mod order;
pub mod sorting;
pub mod entity;
pub mod messages;
pub mod registry;
pub mod components;
pub mod handles;
