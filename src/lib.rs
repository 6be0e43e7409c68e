//! Onset and rime analysis of Mandarin syllables written in pinyin, with
//! grouping and text layout over a frequency-ranked character list.

pub mod analysis;
pub mod grouping;
pub mod layout;
pub mod table;
pub mod text;
pub mod types;

pub use crate::types::{HanziOnset, HanziRecord, HanziRime};
pub use crate::analysis::{set_hanzi_onsets, set_hanzi_rime};
pub use crate::grouping::{group_by_onset, group_by_pinyin, group_by_tone};
pub use crate::layout::{format_onset_output, format_pinyin_output, format_tone_output};
pub use crate::table::parse_hanzi_line;
pub use crate::text::replace_v_with_u_umlaut;
