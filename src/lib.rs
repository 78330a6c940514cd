//! A block-height-versioned query engine over a relational projection of a
//! ledger.
//!
//! Every row of every table carries a validity interval
//! `[start_block_num, end_block_num)`. A request fixes one head (`head`),
//! reads every table at that head (`store`), narrows the primary rows with
//! equality filters and with key sets from fuzzy and full-text matching
//! (`search`), orders them by natural key (`order`), counts and pages them
//! (`paging`, `listing`), and joins each row of the page with its dependent
//! rows at the same head (`planner`). The endpoint modules (`factories`,
//! `organizations`, `certificates`, `assertions`, `standards`) state what each
//! read returns; rows in results are positions in the tables of a `Ledger`.

pub mod error;
pub mod head;
pub mod records;
pub mod store;
pub mod order;
pub mod search;
pub mod decimal;
pub mod encode;
pub mod links;
pub mod paging;
pub mod planner;
pub mod listing;
pub mod factories;
pub mod organizations;
pub mod certificates;
pub mod assertions;
pub mod standards;
pub mod cors;
pub mod metrics;
pub mod vault;
