//! Line, word and character counts of text, in the manner of `wc`.

pub mod count;
pub mod info;
pub mod run;
