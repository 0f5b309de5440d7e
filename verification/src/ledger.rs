//! The document model: commodities, amounts, postings, transactions and
//! price records, with their mathematical views.
//!
//! Every structure here is plain data; parsing text into it and writing it
//! back out are left to callers.

use vstd::prelude::*;

use crate::date::Date;
use crate::date::DateTime;
use crate::decimal::Decimal;

verus! {

/// Where a commodity symbol is written relative to the quantity. Display
/// only; no meaning to any computation here.
#[derive(Clone, Copy, Debug, PartialEq, Eq, Structural)]
pub enum CommodityPosition {
    Left,
    Right,
}

/// Whether a posting is real, balanced-virtual or unbalanced-virtual.
#[derive(Clone, Copy, Debug, PartialEq, Eq, Structural)]
pub enum Reality {
    Real,
    BalancedVirtual,
    UnbalancedVirtual,
}

/// A transaction's clearing status.
#[derive(Clone, Copy, Debug, PartialEq, Eq, Structural)]
pub enum TransactionStatus {
    Pending,
    Cleared,
}

/// A named unit of value.
#[derive(Debug)]
pub struct Commodity {
    pub name: String,
    pub position: CommodityPosition,
}

/// A quantity of one commodity.
#[derive(Debug)]
pub struct Amount {
    pub quantity: Decimal,
    pub commodity: Commodity,
}

/// Metadata tag on a posting.
#[derive(Debug)]
pub struct Tag {
    pub name: String,
    pub value: Option<String>,
}

/// One account/amount line of a transaction, with both dates resolved.
#[derive(Debug)]
pub struct Posting {
    pub date: Date,
    pub effective_date: Date,
    pub account: String,
    pub reality: Reality,
    pub amount: Amount,
    pub status: Option<TransactionStatus>,
    pub comment: Option<String>,
    pub tags: Vec<Tag>,
}

/// A posting whose own dates may be elided in favour of its transaction's.
#[derive(Debug)]
pub struct OptionalDatePosting {
    pub date: Option<Date>,
    pub effective_date: Option<Date>,
    pub account: String,
    pub reality: Reality,
    pub amount: Amount,
    pub status: Option<TransactionStatus>,
    pub comment: Option<String>,
    pub tags: Vec<Tag>,
}

/// A dated group of postings.
#[derive(Debug)]
pub struct Transaction {
    pub comment: Option<String>,
    pub date: Date,
    pub effective_date: Date,
    pub status: Option<TransactionStatus>,
    pub code: Option<String>,
    pub description: String,
    pub postings: Vec<Posting>,
}

/// An explicit price record: one unit of the named commodity was worth
/// `amount` at `datetime`.
#[derive(Debug)]
pub struct CommodityPrice {
    pub datetime: DateTime,
    pub commodity_name: String,
    pub amount: Amount,
}

/// The whole document: price records and transactions.
#[derive(Debug)]
pub struct Ledger {
    pub commodity_prices: Vec<CommodityPrice>,
    pub transactions: Vec<Transaction>,
}

// --- mathematical views -------------------------------------------------

pub struct AmountV {
    pub name: Seq<char>,
    pub q: int,
    pub pos: CommodityPosition,
}

pub struct TagV {
    pub name: Seq<char>,
    pub value: Option<Seq<char>>,
}

pub struct PostingV {
    pub date: Date,
    pub effective_date: Date,
    pub account: Seq<char>,
    pub reality: Reality,
    pub amount: AmountV,
    pub status: Option<TransactionStatus>,
    pub comment: Option<Seq<char>>,
    pub tags: Seq<TagV>,
}

pub struct OptionalDatePostingV {
    pub date: Option<Date>,
    pub effective_date: Option<Date>,
    pub account: Seq<char>,
    pub reality: Reality,
    pub amount: AmountV,
    pub status: Option<TransactionStatus>,
    pub comment: Option<Seq<char>>,
    pub tags: Seq<TagV>,
}

pub struct TransactionV {
    pub comment: Option<Seq<char>>,
    pub date: Date,
    pub effective_date: Date,
    pub status: Option<TransactionStatus>,
    pub code: Option<Seq<char>>,
    pub description: Seq<char>,
    pub postings: Seq<PostingV>,
}

pub struct CommodityPriceV {
    pub datetime: DateTime,
    pub commodity_name: Seq<char>,
    pub amount: AmountV,
}

pub struct LedgerV {
    pub commodity_prices: Seq<CommodityPriceV>,
    pub transactions: Seq<TransactionV>,
}

pub open spec fn view_opt_string(o: Option<String>) -> Option<Seq<char>> {
    match o {
        Some(s) => Some(s@),
        None => None,
    }
}

impl View for Amount {
    type V = AmountV;

    open spec fn view(&self) -> AmountV {
        AmountV { name: self.commodity.name@, q: self.quantity@, pos: self.commodity.position }
    }
}

impl View for Tag {
    type V = TagV;

    open spec fn view(&self) -> TagV {
        TagV { name: self.name@, value: view_opt_string(self.value) }
    }
}

impl View for Posting {
    type V = PostingV;

    open spec fn view(&self) -> PostingV {
        PostingV {
            date: self.date,
            effective_date: self.effective_date,
            account: self.account@,
            reality: self.reality,
            amount: self.amount@,
            status: self.status,
            comment: view_opt_string(self.comment),
            tags: self.tags@.map_values(|t: Tag| t@),
        }
    }
}

impl View for OptionalDatePosting {
    type V = OptionalDatePostingV;

    open spec fn view(&self) -> OptionalDatePostingV {
        OptionalDatePostingV {
            date: self.date,
            effective_date: self.effective_date,
            account: self.account@,
            reality: self.reality,
            amount: self.amount@,
            status: self.status,
            comment: view_opt_string(self.comment),
            tags: self.tags@.map_values(|t: Tag| t@),
        }
    }
}

impl View for Transaction {
    type V = TransactionV;

    open spec fn view(&self) -> TransactionV {
        TransactionV {
            comment: view_opt_string(self.comment),
            date: self.date,
            effective_date: self.effective_date,
            status: self.status,
            code: view_opt_string(self.code),
            description: self.description@,
            postings: self.postings@.map_values(|p: Posting| p@),
        }
    }
}

impl View for CommodityPrice {
    type V = CommodityPriceV;

    open spec fn view(&self) -> CommodityPriceV {
        CommodityPriceV {
            datetime: self.datetime,
            commodity_name: self.commodity_name@,
            amount: self.amount@,
        }
    }
}

impl View for Ledger {
    type V = LedgerV;

    open spec fn view(&self) -> LedgerV {
        LedgerV {
            commodity_prices: self.commodity_prices@.map_values(|p: CommodityPrice| p@),
            transactions: self.transactions@.map_values(|t: Transaction| t@),
        }
    }
}

// --- well-formedness ----------------------------------------------------

impl PostingV {
    pub open spec fn wf(self) -> bool {
        self.date.wf() && self.effective_date.wf()
    }
}

impl TransactionV {
    pub open spec fn wf(self) -> bool {
        &&& self.date.wf()
        &&& self.effective_date.wf()
        &&& forall|i: int| 0 <= i < self.postings.len() ==> (#[trigger] self.postings[i]).wf()
    }
}

impl CommodityPriceV {
    pub open spec fn wf(self) -> bool {
        self.datetime.wf()
    }
}

impl LedgerV {
    pub open spec fn wf(self) -> bool {
        &&& forall|i: int|
            0 <= i < self.commodity_prices.len() ==> (#[trigger] self.commodity_prices[i]).wf()
        &&& forall|i: int|
            0 <= i < self.transactions.len() ==> (#[trigger] self.transactions[i]).wf()
    }
}

// --- deep copies with known meaning -------------------------------------

impl Commodity {
    /// A copy equal to the original.
    pub fn duplicate(&self) -> (r: Commodity)
        ensures
            r.name@ == self.name@,
            r.position == self.position,
    {
        Commodity { name: self.name.clone(), position: self.position }
    }
}

impl Amount {
    /// A copy equal to the original.
    pub fn duplicate(&self) -> (r: Amount)
        ensures
            r@ == self@,
    {
        Amount { quantity: self.quantity, commodity: self.commodity.duplicate() }
    }
}

impl Tag {
    /// A copy equal to the original.
    pub fn duplicate(&self) -> (r: Tag)
        ensures
            r@ == self@,
    {
        Tag {
            name: self.name.clone(),
            value: match &self.value {
                Some(v) => Some(v.clone()),
                None => None,
            },
        }
    }
}

/// A copy of a tag list equal to the original.
pub fn duplicate_tags(tags: &Vec<Tag>) -> (r: Vec<Tag>)
    ensures
        r@.map_values(|t: Tag| t@) == tags@.map_values(|t: Tag| t@),
{
    let mut out: Vec<Tag> = Vec::new();
    let mut i: usize = 0;
    while i < tags.len()
        invariant
            0 <= i <= tags@.len(),
            out@.len() == i,
            forall|j: int| 0 <= j < i ==> (#[trigger] out@[j])@ == tags@[j]@,
        decreases tags@.len() - i,
    {
        out.push(tags[i].duplicate());
        i += 1;
    }
    proof {
        assert(out@.map_values(|t: Tag| t@) =~= tags@.map_values(|t: Tag| t@));
    }
    out
}

pub fn duplicate_opt_string(o: &Option<String>) -> (r: Option<String>)
    ensures
        view_opt_string(r) == view_opt_string(*o),
{
    match o {
        Some(s) => Some(s.clone()),
        None => None,
    }
}

impl Posting {
    /// A copy equal to the original.
    pub fn duplicate(&self) -> (r: Posting)
        ensures
            r@ == self@,
    {
        Posting {
            date: self.date,
            effective_date: self.effective_date,
            account: self.account.clone(),
            reality: self.reality,
            amount: self.amount.duplicate(),
            status: self.status,
            comment: duplicate_opt_string(&self.comment),
            tags: duplicate_tags(&self.tags),
        }
    }
}

impl Transaction {
    /// A copy equal to the original.
    pub fn duplicate(&self) -> (r: Transaction)
        ensures
            r@ == self@,
    {
        let mut postings: Vec<Posting> = Vec::new();
        let mut i: usize = 0;
        while i < self.postings.len()
            invariant
                0 <= i <= self.postings@.len(),
                postings@.len() == i,
                forall|j: int| 0 <= j < i ==> (#[trigger] postings@[j])@ == self.postings@[j]@,
            decreases self.postings@.len() - i,
        {
            postings.push(self.postings[i].duplicate());
            i += 1;
        }
        proof {
            assert(postings@.map_values(|p: Posting| p@) =~= self.postings@.map_values(
                |p: Posting| p@,
            ));
        }
        Transaction {
            comment: duplicate_opt_string(&self.comment),
            date: self.date,
            effective_date: self.effective_date,
            status: self.status,
            code: duplicate_opt_string(&self.code),
            description: self.description.clone(),
            postings,
        }
    }
}

impl CommodityPrice {
    /// A copy equal to the original.
    pub fn duplicate(&self) -> (r: CommodityPrice)
        ensures
            r@ == self@,
    {
        CommodityPrice {
            datetime: self.datetime,
            commodity_name: self.commodity_name.clone(),
            amount: self.amount.duplicate(),
        }
    }
}

// --- posting date elision ------------------------------------------------

impl OptionalDatePosting {
    /// Resolve elided posting dates against the owning transaction's date
    /// and optional effective date.
    pub fn fill_dates(self, txn_date: Date, txn_effective_date: Option<Date>) -> (r: Posting)
        ensures
            r.date == (match self.date {
                Some(d) => d,
                None => txn_date,
            }),
            r.effective_date == (match self.effective_date {
                Some(d) => d,
                None => match self.date {
                    Some(d) => d,
                    None => match txn_effective_date {
                        Some(d) => d,
                        None => txn_date,
                    },
                },
            }),
            r.account@ == self.account@,
            r.reality == self.reality,
            r.amount@ == self.amount@,
            r.status == self.status,
            view_opt_string(r.comment) == view_opt_string(self.comment),
            r.tags@.map_values(|t: Tag| t@) == self.tags@.map_values(|t: Tag| t@),
    {
        let date = match self.date {
            Some(d) => d,
            None => txn_date,
        };
        let effective_date = match self.effective_date {
            Some(d) => d,
            None => match self.date {
                Some(d) => d,
                None => match txn_effective_date {
                    Some(d) => d,
                    None => txn_date,
                },
            },
        };
        Posting {
            date,
            effective_date,
            account: self.account,
            reality: self.reality,
            amount: self.amount,
            status: self.status,
            comment: self.comment,
            tags: self.tags,
        }
    }
}

impl Posting {
    /// Elide the dates a writer need not repeat: the posting date when it
    /// equals the transaction's, and the effective date when it equals the
    /// date that would be inferred for it.
    pub fn elide_dates(&self, txn: &Transaction) -> (r: OptionalDatePosting)
        ensures
            r.date == (if self.date == txn.date {
                None::<Date>
            } else {
                Some(self.date)
            }),
            r.effective_date == (if self.effective_date == (match r.date {
                Some(d) => d,
                None => txn.effective_date,
            }) {
                None::<Date>
            } else {
                Some(self.effective_date)
            }),
            r.account@ == self.account@,
            r.reality == self.reality,
            r.amount@ == self.amount@,
            r.status == self.status,
            view_opt_string(r.comment) == view_opt_string(self.comment),
            r.tags@.map_values(|t: Tag| t@) == self.tags@.map_values(|t: Tag| t@),
    {
        let date = if self.date != txn.date {
            Some(self.date)
        } else {
            None
        };
        let inferred = match date {
            Some(d) => d,
            None => txn.effective_date,
        };
        let effective_date = if self.effective_date != inferred {
            Some(self.effective_date)
        } else {
            None
        };
        OptionalDatePosting {
            date,
            effective_date,
            account: self.account.clone(),
            reality: self.reality,
            amount: self.amount.duplicate(),
            status: self.status,
            comment: duplicate_opt_string(&self.comment),
            tags: duplicate_tags(&self.tags),
        }
    }
}

} // verus!
