//! A personal task tracker: tasks with tags, due dates, priorities and
//! statuses, filtered and rendered in groups.

pub mod text;
pub mod date;
pub mod task;
pub mod filter;
pub mod order;
pub mod render;
pub mod manager;
pub mod record;

pub use filter::ViewFilters;
pub use manager::TaskManager;
