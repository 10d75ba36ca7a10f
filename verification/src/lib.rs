//! A tax-recovery estimator over Brazilian SPED fiscal bookkeeping files.
//!
//! Two pipe-delimited document families are parsed in a single forward pass
//! each: the ICMS/IPI family yields a map from composite keys
//! (branch, document model, CFOP) to summed tax values; the Contribuições
//! family yields a flat per-record-type summary plus two ordered lists of
//! assessment rows, resolving one of its accrual tables against the ICMS/IPI
//! map.  A calculator then apportions the recoverable total over the
//! assessment rows.
//!
//! Monetary values are fixed-point integers with four fractional digits (see
//! `amount`); every arithmetic step either fits in the carrier type or is
//! reported as an explicit overflow error.

pub mod amount;
pub mod error;
pub mod tokenize;
pub mod table;
pub mod efd_icms_ipi;
pub mod efd_contribuicoes;
pub mod calculator;
pub mod cnpj;
pub mod classify;
pub mod decode;
