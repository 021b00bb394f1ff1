pub mod consistency;
pub mod hora;
pub mod sql_database;
pub mod vectordb;
