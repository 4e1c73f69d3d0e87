//! The logic of the GPW uploader: recognising the files of an export folder,
//! cutting them into upload parts, and deciding every step of an upload.

pub mod classify;
pub mod commands;
pub mod control;
pub mod converter;
pub mod crypt;
pub mod draft;
pub mod json;
pub mod parts;
pub mod progress;
pub mod qc;
pub mod request;
pub mod scan_laws;
pub mod scanner;
pub mod text;
pub mod upload;
pub mod upload_course;
pub mod upload_laws;
pub mod wav;
pub mod wav_laws;
