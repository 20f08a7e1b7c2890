//! Checks of a data set against a template's schema.

pub mod db_comparison;
