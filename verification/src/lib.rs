//! Core logic of a writing-and-layout assistant for WeChat official-account articles.

pub mod text;
pub mod materials;
pub mod codec;
pub mod cost;
pub mod llm;
pub mod writer;
pub mod formatter;
pub mod templates;
pub mod publish;
pub mod dataurl;
pub mod store;
pub mod settings;
pub mod vision;
pub mod refpage;
pub mod stylegen;
pub mod archive;
pub mod session;
pub mod export;
