//! Résumé model: calendar-aware durations, skill aggregation over nested
//! timeline entries, and LaTeX rendering.

pub mod date;
pub mod document;
pub mod duration;
pub mod entry;
pub mod render;
pub mod skills;
pub mod text;

pub use date::{parse_year_month, CalendarDate, MAX_YEAR, MIN_YEAR};
pub use duration::{span_add, span_months, CVDuration};
pub use skills::{add_skillsets, Category, SkillSet, SkillTotal};
pub use entry::{CVEntry, EntryDescription};
pub use document::{CVEmail, CVLanguage, Curriculum, DocumentError, List, PersonalData};
