//! Schema of `finance/capex.toml`: the capital-expenditure ledger
//! (estimates until invoices land).

use vstd::prelude::*;

verus! {

/// Top-level shape of `finance/capex.toml`.
#[derive(Debug, Clone)]
pub struct CapexFile {
    /// Ledger line items.
    pub item: Vec<CapexItem>,
}

/// One capex line item.
#[derive(Debug, Clone)]
pub struct CapexItem {
    /// Device id the item belongs to (or `"site"`).
    pub device: String,
    /// Item description.
    pub desc: String,
    /// Cost in whole USD.
    pub usd: i64,
    /// `"estimate"` until replaced by an `"invoice"` value.
    pub basis: String,
}

/// The abstract content of a [`CapexItem`].
pub struct CapexModel {
    pub device: Seq<char>,
    pub desc: Seq<char>,
    pub usd: i64,
    pub basis: Seq<char>,
}

impl View for CapexItem {
    type V = CapexModel;

    open spec fn view(&self) -> CapexModel {
        CapexModel { device: self.device@, desc: self.desc@, usd: self.usd, basis: self.basis@ }
    }
}

} // verus!
