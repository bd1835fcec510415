pub mod text;
pub mod integrations;
pub mod source;
pub mod dom;
pub mod dates;
pub mod fetch;
