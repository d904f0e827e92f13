//! The records of the database and the decisions made on them; the SQL
//! itself lives with the program that owns the connection.

pub mod repo;
