//! The decisions behind a project hub's HTTP server.

pub mod board;
pub mod claims;
pub mod clock;
pub mod comments;
pub mod deps;
pub mod docs;
pub mod downloads;
pub mod duplicate_radar;
pub mod engines;
pub mod factory;
pub mod fleet;
pub mod fleet_spend;
pub mod forge;
pub mod goals;
pub mod guards;
pub mod hub;
pub mod hub_knowledge;
pub mod inbox;
pub mod invites;
pub mod janitor;
pub mod json;
pub mod lessons;
pub mod lists;
pub mod manage;
pub mod meetings;
pub mod metrics_admin;
pub mod openapi;
pub mod order;
pub mod people;
pub mod pr_listing;
pub mod preflight;
pub mod project_import;
pub mod projects;
pub mod realtime;
pub mod reply;
pub mod repro_url;
pub mod route_table;
pub mod search;
pub mod security;
pub mod share_link;
pub mod share_page;
pub mod spaces;
pub mod text;
pub mod viewers;
