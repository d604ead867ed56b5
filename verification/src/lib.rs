pub mod assembler;
pub mod chat;
pub mod client;
pub mod common;
pub mod diagnosis;
pub mod controller;
pub mod drone;
pub mod editing;
pub mod files;
pub mod graph;
pub mod ids;
pub mod network;
pub mod packet;
pub mod report;
pub mod text_pages;
pub mod topology;
pub mod web;
pub mod windows;
