//! Verified core of a gateway that serves the OpenAI chat API on top of Poe.
pub mod answer_laws;
pub mod chat;
pub mod config;
pub mod content;
pub mod data_laws;
pub mod data_url;
pub mod decimal;
pub mod errors;
pub mod evert;
pub mod external;
pub mod file_laws;
pub mod files;
pub mod image_laws;
pub mod image_task;
pub mod images;
pub mod limit;
pub mod model_laws;
pub mod models;
pub mod output;
pub mod poe_client;
pub mod reply_laws;
pub mod request_laws;
pub mod setting_laws;
pub mod settings;
pub mod stream;
pub mod stream_laws;
pub mod text;
pub mod text_laws;
pub mod tokens;
pub mod types;
pub mod upload_laws;
