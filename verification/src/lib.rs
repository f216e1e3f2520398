//! Browsing git repositories over a text-only protocol: the rules that turn
//! repository content into line-oriented hypertext.

pub mod code;
pub mod footnote;
pub mod gemtext;
pub mod link;
pub mod repo;
pub mod route;
pub mod text;
pub mod theorems;
pub mod util;
