//! Prompts, made shorter before they are paid for.
//!
//! - [`rules`] takes boilerplate, repeated lines and surplus white space out of prose and
//!   leaves fenced code alone; [`rules_laws`], [`rules_meaning`] and [`rules_clean`] say
//!   what holds of that, what it means, and when there is nothing left to do.
//! - [`codec`] decides what happens to each message of a request, and when the cache and
//!   the local model are asked; [`codec_laws`] says what holds of every run, and
//!   [`codec_meaning`] what comes of each message and each answer.
//! - [`message`], [`tokenizer`] and [`stats`] count; [`cache`] keeps rewrites;
//!   [`telemetry`] keeps totals.
//! - [`request`] reads the bodies of requests and says what is sent on in their place;
//!   [`request_meaning`] says that no part of them is lost.
//! - [`llm`], [`proxy`], [`doctor`], [`config`] and [`cli`] are what the program around
//!   this library asks of it: what to send, whom to answer, what to say. [`llm_laws`],
//!   [`config_laws`] and [`report_laws`] say what holds of their answers.
//! - [`text`], [`lines`], [`json`], [`decimal`], [`calendar`], [`url`] and [`order`] are the
//!   vocabulary; [`decimal_laws`] and [`url_laws`] say what its words mean.
//! - [`outside`] is all that is taken on trust.

pub mod cache;
pub mod calendar;
pub mod cli;
pub mod codec;
pub mod codec_laws;
pub mod codec_meaning;
pub mod config;
pub mod config_laws;
pub mod decimal;
pub mod decimal_laws;
pub mod doctor;
pub mod json;
pub mod lines;
pub mod llm;
pub mod llm_laws;
pub mod message;
pub mod order;
pub mod outside;
pub mod proxy;
pub mod report_laws;
pub mod request;
pub mod request_meaning;
pub mod rules;
pub mod rules_clean;
pub mod rules_laws;
pub mod rules_meaning;
pub mod stats;
pub mod telemetry;
pub mod text;
pub mod tokenizer;
pub mod url;
pub mod url_laws;
