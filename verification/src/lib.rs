//! Element attributes, special (hook-carrying) attributes, and the decisions that creating
//! and hydrating the DOM children of a virtual element take.

pub mod attributes;
pub mod creation;
pub mod events;
pub mod hydration;
pub mod special_attributes;

pub use attributes::{AttributeValue, AttributeValueModel, Attributes};
pub use special_attributes::SpecialAttributes;
