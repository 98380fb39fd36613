pub mod text;
pub mod markup;
pub mod week;
pub mod plan;
pub mod session;
pub mod calendar;
pub mod cache;
pub mod exams;
pub mod dates;
