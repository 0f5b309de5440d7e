//! Double-entry bookkeeping utilities: multi-currency balances, a dated
//! foreign-exchange rate store, synthesized currency-trading postings, and
//! hierarchical / monthly balance reports.
//!
//! Quantities are exact fixed-point decimals; zero tests are exact, never
//! approximate. Parsing ledger text and writing it back out are left to
//! callers; everything here works on plain parsed values.

pub mod account_balance;
pub mod balance;
pub mod date;
pub mod decimal;
pub mod handle_foreign_currencies;
pub mod join_ledgers;
pub mod laws;
pub mod ledger;
pub mod monthly_report;
pub mod prices;
pub mod strutil;
pub mod tree_balance;

pub use account_balance::AccountBalance;
pub use balance::Balance;
pub use date::Date;
pub use date::DateTime;
pub use decimal::Decimal;
pub use handle_foreign_currencies::AccountClassifier;
pub use handle_foreign_currencies::PrefixClassifier;
pub use handle_foreign_currencies::handle_foreign_currencies;
pub use join_ledgers::join_ledgers;
pub use ledger::Amount;
pub use ledger::Commodity;
pub use ledger::CommodityPosition;
pub use ledger::CommodityPrice;
pub use ledger::Ledger;
pub use ledger::OptionalDatePosting;
pub use ledger::Posting;
pub use ledger::Reality;
pub use ledger::Tag;
pub use ledger::Transaction;
pub use ledger::TransactionStatus;
pub use monthly_report::MonthlyBalance;
pub use monthly_report::MonthlyReport;
pub use prices::CommoditiesPair;
pub use prices::Prices;
pub use prices::PricesError;
pub use prices::RatesTable;
pub use tree_balance::TreeBalanceNode;
