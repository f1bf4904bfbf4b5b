pub mod html;
pub mod num;
pub mod rtf;
pub mod strs;
