pub mod text;
pub mod markdown;
pub mod models;
pub mod error;
pub mod db;
pub mod auth;
pub mod views;
pub mod config;
pub mod routes;
